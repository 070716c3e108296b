//! Axis-aligned bounding boxes over ordered coordinate codes.
//!
//! A coordinate is held as a code: a 32-bit integer that grows with the
//! coordinate it stands for.  Boxes are only ever compared and merged, so the
//! order of the codes is all that matters here.

use crate::utils::{max, min, spec_max, spec_min};
use vstd::prelude::*;

verus! {

/// One corner of a box: a code for each of the three axes.
#[derive(Clone, Copy, Debug)]
pub struct Corner {
    pub x: i32,
    pub y: i32,
    pub z: i32,
}

impl Corner {
    pub fn new(x: i32, y: i32, z: i32) -> (c: Self)
        ensures
            c == (Corner { x, y, z }),
    {
        Corner { x, y, z }
    }

    /// The code along `axis`: 0 is x, 1 is y, anything else is z.
    pub open spec fn spec_coordinate(self, axis: usize) -> i32 {
        if axis == 0 {
            self.x
        } else if axis == 1 {
            self.y
        } else {
            self.z
        }
    }

    /// The code along `axis`, where 0 is x, 1 is y and 2 is z.
    pub fn coordinate(&self, axis: usize) -> (c: i32)
        requires
            axis < 3,
        ensures
            c == self.spec_coordinate(axis),
    {
        if axis == 0 {
            self.x
        } else if axis == 1 {
            self.y
        } else {
            self.z
        }
    }

    /// `self` is at or below `other` on every axis.
    pub open spec fn le(self, other: Corner) -> bool {
        self.x <= other.x && self.y <= other.y && self.z <= other.z
    }
}

/// Where a ray's line crosses the two planes that bound a box along one
/// axis: `t0` is the distance to the plane through the lowest corner, `t1`
/// to the plane through the highest, and `reversed` says that the ray runs
/// against the axis, so that it reaches the higher plane first.
#[derive(Clone, Copy, Debug)]
pub struct Slab {
    pub t0: i32,
    pub t1: i32,
    pub reversed: bool,
}

impl Slab {
    /// The distance at which the ray enters the slab.
    pub open spec fn enter(self) -> i32 {
        if self.reversed {
            self.t1
        } else {
            self.t0
        }
    }

    /// The distance at which the ray leaves the slab.
    pub open spec fn leave(self) -> i32 {
        if self.reversed {
            self.t0
        } else {
            self.t1
        }
    }
}

/// A box given by its lowest and its highest corner.
#[derive(Clone, Copy, Debug)]
pub struct AABB {
    pub minimum: Corner,
    pub maximum: Corner,
}

impl AABB {
    /// The lowest corner does not lie above the highest on any axis.
    pub open spec fn is_valid(self) -> bool {
        self.minimum.le(self.maximum)
    }

    /// `other` lies inside `self`.
    pub open spec fn encloses(self, other: AABB) -> bool {
        self.minimum.le(other.minimum) && other.maximum.le(self.maximum)
    }

    /// The box whose corners are the axis-wise minimum of the two lowest
    /// corners and the axis-wise maximum of the two highest.
    pub open spec fn spec_surrounding_box(box0: AABB, box1: AABB) -> AABB {
        AABB {
            minimum: Corner {
                x: spec_min(box0.minimum.x, box1.minimum.x),
                y: spec_min(box0.minimum.y, box1.minimum.y),
                z: spec_min(box0.minimum.z, box1.minimum.z),
            },
            maximum: Corner {
                x: spec_max(box0.maximum.x, box1.maximum.x),
                y: spec_max(box0.maximum.y, box1.maximum.y),
                z: spec_max(box0.maximum.z, box1.maximum.z),
            },
        }
    }

    /// The slab test: the ray passes through the box between `t_min` and
    /// `t_max` if and only if it has entered all three slabs, and the
    /// interval, before it leaves any of them or the interval.
    pub open spec fn spec_hit(slabs: [Slab; 3], t_min: i32, t_max: i32) -> bool {
        spec_max(spec_max(spec_max(t_min, slabs[0].enter()), slabs[1].enter()), slabs[2].enter())
            < spec_min(
            spec_min(spec_min(t_max, slabs[0].leave()), slabs[1].leave()),
            slabs[2].leave(),
        )
    }

    /// Whether a ray with the given crossings of the three slabs passes
    /// through the box between `t_min` and `t_max`.
    pub fn hit(slabs: &[Slab; 3], t_min: i32, t_max: i32) -> (met: bool)
        ensures
            met == Self::spec_hit(*slabs, t_min, t_max),
    {
        let mut lo: i32 = t_min;
        let mut hi: i32 = t_max;
        let mut axis: usize = 0;
        while axis < 3
            invariant
                axis <= 3,
                lo < hi || axis == 0,
                axis == 0 ==> lo == t_min && hi == t_max,
                axis == 1 ==> lo == spec_max(t_min, slabs[0].enter()) && hi == spec_min(
                    t_max,
                    slabs[0].leave(),
                ),
                axis == 2 ==> lo == spec_max(spec_max(t_min, slabs[0].enter()), slabs[1].enter())
                    && hi == spec_min(spec_min(t_max, slabs[0].leave()), slabs[1].leave()),
                axis == 3 ==> (lo < hi) == Self::spec_hit(*slabs, t_min, t_max),
            decreases 3 - axis,
        {
            let slab = slabs[axis];
            let mut t0: i32 = slab.t0;
            let mut t1: i32 = slab.t1;
            if slab.reversed {
                let temp: i32 = t0;
                t0 = t1;
                t1 = temp;
            }
            lo = max(t0, lo);
            hi = min(t1, hi);
            if hi <= lo {
                return false;
            }
            axis = axis + 1;
        }
        true
    }

    /// The box with both corners at the code zero.
    pub fn empty() -> (b: Self)
        ensures
            b.minimum == (Corner { x: 0, y: 0, z: 0 }),
            b.maximum == (Corner { x: 0, y: 0, z: 0 }),
    {
        AABB { minimum: Corner { x: 0, y: 0, z: 0 }, maximum: Corner { x: 0, y: 0, z: 0 } }
    }

    pub fn new(minimum: Corner, maximum: Corner) -> (b: Self)
        ensures
            b.minimum == minimum,
            b.maximum == maximum,
    {
        AABB { minimum, maximum }
    }

    /// The smallest box around `box0` and `box1`.
    pub fn surrounding_box(box0: &AABB, box1: &AABB) -> (b: Self)
        ensures
            b == Self::spec_surrounding_box(*box0, *box1),
            b.encloses(*box0),
            b.encloses(*box1),
    {
        let minimum = Corner::new(
            min(box0.minimum.x, box1.minimum.x),
            min(box0.minimum.y, box1.minimum.y),
            min(box0.minimum.z, box1.minimum.z),
        );
        let maximum = Corner::new(
            max(box0.maximum.x, box1.maximum.x),
            max(box0.maximum.y, box1.maximum.y),
            max(box0.maximum.z, box1.maximum.z),
        );
        AABB { minimum, maximum }
    }

    /// A ray that, at some distance in range, has entered every slab and
    /// left none passes the slab test.  So a ray that fails the test is
    /// nowhere in range inside the box.
    pub proof fn lemma_inside_passes(slabs: [Slab; 3], t_min: i32, t_max: i32, t: i32)
        requires
            t_min < t < t_max,
            slabs[0].enter() <= t < slabs[0].leave(),
            slabs[1].enter() <= t < slabs[1].leave(),
            slabs[2].enter() <= t < slabs[2].leave(),
        ensures
            Self::spec_hit(slabs, t_min, t_max),
    {
    }

    /// A ray that passes the slab test passes it for every box whose slabs
    /// it enters no later and leaves no earlier, as it does those of a box
    /// around the first.
    pub proof fn lemma_wider_slabs_pass(inner: [Slab; 3], outer: [Slab; 3], t_min: i32, t_max: i32)
        requires
            Self::spec_hit(inner, t_min, t_max),
            outer[0].enter() <= inner[0].enter() && inner[0].leave() <= outer[0].leave(),
            outer[1].enter() <= inner[1].enter() && inner[1].leave() <= outer[1].leave(),
            outer[2].enter() <= inner[2].enter() && inner[2].leave() <= outer[2].leave(),
        ensures
            Self::spec_hit(outer, t_min, t_max),
    {
    }

    /// The surrounding box of two boxes encloses both of them, and every box
    /// that encloses both encloses the surrounding box: it is the least such
    /// box on every axis.
    pub proof fn lemma_surrounding_box_is_least(box0: AABB, box1: AABB, other: AABB)
        ensures
            Self::spec_surrounding_box(box0, box1).encloses(box0),
            Self::spec_surrounding_box(box0, box1).encloses(box1),
            other.encloses(box0) && other.encloses(box1) ==> other.encloses(
                Self::spec_surrounding_box(box0, box1),
            ),
    {
    }

    /// Merging keeps boxes valid: if either box has its corners in order, so
    /// has the surrounding box.
    pub proof fn lemma_surrounding_box_valid(box0: AABB, box1: AABB)
        requires
            box0.is_valid() || box1.is_valid(),
        ensures
            Self::spec_surrounding_box(box0, box1).is_valid(),
    {
    }
}

} // verus!
