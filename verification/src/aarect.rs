//! Axis-aligned rectangles, one kind for each axis that the rectangle's
//! plane is perpendicular to.

use crate::aabb::{Corner, AABB};
use crate::objects::in_range;
use vstd::prelude::*;

verus! {

/// A rectangle in its own plane: the span along each of the two axes of the
/// plane, the plane's place `k` on the third axis, and the two places
/// `k_below` and `k_above` that the bounding box reaches to on that axis.
#[derive(Clone, Copy, Debug)]
pub struct Plate {
    pub a0: i32,
    pub a1: i32,
    pub b0: i32,
    pub b1: i32,
    pub k: i32,
    pub k_below: i32,
    pub k_above: i32,
}

impl Plate {
    /// The spans are in order and the plane lies strictly between the two
    /// faces of the bounding box.
    pub open spec fn well_formed(self) -> bool {
        self.a0 <= self.a1 && self.b0 <= self.b1 && self.k_below < self.k < self.k_above
    }

    /// The point `(a, b)` of the plane lies on the rectangle, edges included.
    pub open spec fn covers(self, a: i32, b: i32) -> bool {
        self.a0 <= a <= self.a1 && self.b0 <= b <= self.b1
    }

    /// The ray meets the plane at the distance `t` in the point `(a, b)`:
    /// that is an intersection if `t` lies in range and the point on the
    /// rectangle.
    pub open spec fn spec_hit(self, t: i32, a: i32, b: i32, t_min: i32, t_max: i32) -> Option<
        i32,
    > {
        if in_range(t, t_min, t_max) && self.covers(a, b) {
            Some(t)
        } else {
            None
        }
    }

    pub fn hit(&self, t: i32, a: i32, b: i32, t_min: i32, t_max: i32) -> (found: Option<i32>)
        ensures
            found == self.spec_hit(t, a, b, t_min, t_max),
    {
        if t <= t_min || t >= t_max {
            return None;
        }
        if a < self.a0 || a > self.a1 || b < self.b0 || b > self.b1 {
            return None;
        }
        Some(t)
    }
}

/// The rule for rectangles answers as is asked of an intersection routine:
/// what it finds lies strictly inside the interval, stays the answer in
/// every narrower interval that still reaches beyond it, and a narrower
/// interval that does not has no answer.
pub proof fn lemma_plate_hit_is_closest(
    plate: Plate,
    t: i32,
    a: i32,
    b: i32,
    t_min: i32,
    t_max: i32,
    narrower: i32,
)
    requires
        narrower <= t_max,
    ensures
        match plate.spec_hit(t, a, b, t_min, t_max) {
            Some(found) => in_range(found, t_min, t_max) && plate.spec_hit(
                t,
                a,
                b,
                t_min,
                narrower,
            ) == if found < narrower {
                Some(found)
            } else {
                None::<i32>
            },
            None => plate.spec_hit(t, a, b, t_min, narrower).is_none(),
        },
{
}

/// A point lies inside a box, faces included.
pub open spec fn box_holds(bounds: AABB, point: Corner) -> bool {
    bounds.minimum.le(point) && point.le(bounds.maximum)
}

/// A rectangle in a plane of constant z.
#[derive(Clone, Copy, Debug)]
pub struct XYRect {
    pub plate: Plate,
}

/// A rectangle in a plane of constant y.
#[derive(Clone, Copy, Debug)]
pub struct XZRect {
    pub plate: Plate,
}

/// A rectangle in a plane of constant x.
#[derive(Clone, Copy, Debug)]
pub struct YZRect {
    pub plate: Plate,
}

impl XYRect {
    /// The rectangle from `x0` to `x1` and from `y0` to `y1` at `z = k`.
    pub fn new(x0: i32, x1: i32, y0: i32, y1: i32, k: i32, k_below: i32, k_above: i32) -> (r: Self)
        ensures
            r.plate == (Plate { a0: x0, a1: x1, b0: y0, b1: y1, k, k_below, k_above }),
    {
        XYRect { plate: Plate { a0: x0, a1: x1, b0: y0, b1: y1, k, k_below, k_above } }
    }

    pub open spec fn spec_bounding_box(self) -> AABB {
        AABB {
            minimum: Corner { x: self.plate.a0, y: self.plate.b0, z: self.plate.k_below },
            maximum: Corner { x: self.plate.a1, y: self.plate.b1, z: self.plate.k_above },
        }
    }

    /// The intersection at the distance `t`, where the ray meets the plane
    /// in `(x, y)`.
    pub fn hit(&self, t: i32, x: i32, y: i32, t_min: i32, t_max: i32) -> (found: Option<i32>)
        ensures
            found == self.plate.spec_hit(t, x, y, t_min, t_max),
            found.is_some() && self.plate.well_formed() ==> box_holds(
                self.spec_bounding_box(),
                Corner { x, y, z: self.plate.k },
            ),
    {
        self.plate.hit(t, x, y, t_min, t_max)
    }

    /// The rectangle's plane, thickened along z.
    pub fn bounding_box(&self) -> (b: Option<AABB>)
        ensures
            b == Some(self.spec_bounding_box()),
            self.plate.well_formed() ==> self.spec_bounding_box().is_valid()
                && self.spec_bounding_box().minimum.z < self.spec_bounding_box().maximum.z,
    {
        Some(
            AABB::new(
                Corner::new(self.plate.a0, self.plate.b0, self.plate.k_below),
                Corner::new(self.plate.a1, self.plate.b1, self.plate.k_above),
            ),
        )
    }
}

impl XZRect {
    /// The rectangle from `x0` to `x1` and from `z0` to `z1` at `y = k`.
    pub fn new(x0: i32, x1: i32, z0: i32, z1: i32, k: i32, k_below: i32, k_above: i32) -> (r: Self)
        ensures
            r.plate == (Plate { a0: x0, a1: x1, b0: z0, b1: z1, k, k_below, k_above }),
    {
        XZRect { plate: Plate { a0: x0, a1: x1, b0: z0, b1: z1, k, k_below, k_above } }
    }

    pub open spec fn spec_bounding_box(self) -> AABB {
        AABB {
            minimum: Corner { x: self.plate.a0, y: self.plate.k_below, z: self.plate.b0 },
            maximum: Corner { x: self.plate.a1, y: self.plate.k_above, z: self.plate.b1 },
        }
    }

    /// The intersection at the distance `t`, where the ray meets the plane
    /// in `(x, z)`.
    pub fn hit(&self, t: i32, x: i32, z: i32, t_min: i32, t_max: i32) -> (found: Option<i32>)
        ensures
            found == self.plate.spec_hit(t, x, z, t_min, t_max),
            found.is_some() && self.plate.well_formed() ==> box_holds(
                self.spec_bounding_box(),
                Corner { x, y: self.plate.k, z },
            ),
    {
        self.plate.hit(t, x, z, t_min, t_max)
    }

    /// The rectangle's plane, thickened along y.
    pub fn bounding_box(&self) -> (b: Option<AABB>)
        ensures
            b == Some(self.spec_bounding_box()),
            self.plate.well_formed() ==> self.spec_bounding_box().is_valid()
                && self.spec_bounding_box().minimum.y < self.spec_bounding_box().maximum.y,
    {
        Some(
            AABB::new(
                Corner::new(self.plate.a0, self.plate.k_below, self.plate.b0),
                Corner::new(self.plate.a1, self.plate.k_above, self.plate.b1),
            ),
        )
    }
}

impl YZRect {
    /// The rectangle from `y0` to `y1` and from `z0` to `z1` at `x = k`.
    pub fn new(y0: i32, y1: i32, z0: i32, z1: i32, k: i32, k_below: i32, k_above: i32) -> (r: Self)
        ensures
            r.plate == (Plate { a0: y0, a1: y1, b0: z0, b1: z1, k, k_below, k_above }),
    {
        YZRect { plate: Plate { a0: y0, a1: y1, b0: z0, b1: z1, k, k_below, k_above } }
    }

    pub open spec fn spec_bounding_box(self) -> AABB {
        AABB {
            minimum: Corner { x: self.plate.k_below, y: self.plate.a0, z: self.plate.b0 },
            maximum: Corner { x: self.plate.k_above, y: self.plate.a1, z: self.plate.b1 },
        }
    }

    /// The intersection at the distance `t`, where the ray meets the plane
    /// in `(y, z)`.
    pub fn hit(&self, t: i32, y: i32, z: i32, t_min: i32, t_max: i32) -> (found: Option<i32>)
        ensures
            found == self.plate.spec_hit(t, y, z, t_min, t_max),
            found.is_some() && self.plate.well_formed() ==> box_holds(
                self.spec_bounding_box(),
                Corner { x: self.plate.k, y, z },
            ),
    {
        self.plate.hit(t, y, z, t_min, t_max)
    }

    /// The rectangle's plane, thickened along x.
    pub fn bounding_box(&self) -> (b: Option<AABB>)
        ensures
            b == Some(self.spec_bounding_box()),
            self.plate.well_formed() ==> self.spec_bounding_box().is_valid()
                && self.spec_bounding_box().minimum.x < self.spec_bounding_box().maximum.x,
    {
        Some(
            AABB::new(
                Corner::new(self.plate.k_below, self.plate.a0, self.plate.b0),
                Corner::new(self.plate.k_above, self.plate.a1, self.plate.b1),
            ),
        )
    }
}

} // verus!
