//! Scene objects as the spatial index sees them, and the intersection
//! capability that the caller supplies for them.
//!
//! Distances along a ray are held as ordered codes, like coordinates: only
//! their order is used here.

use crate::aabb::AABB;
use vstd::prelude::*;

verus! {

/// A handle to one scene object: its index in the caller's scene and its
/// bounding box over the shutter interval.  An object without a box cannot
/// take part in a bounding-volume hierarchy.
#[derive(Clone, Copy, Debug)]
pub struct SceneObject {
    pub id: usize,
    pub bounds: Option<AABB>,
}

impl SceneObject {
    pub fn new(id: usize, bounds: Option<AABB>) -> (o: Self)
        ensures
            o == (SceneObject { id, bounds }),
    {
        SceneObject { id, bounds }
    }

    pub fn bounding_box(&self) -> (b: Option<AABB>)
        ensures
            b == self.bounds,
    {
        self.bounds
    }
}

/// Every object of the sequence has a bounding box.
pub open spec fn all_bounded(objects: Seq<SceneObject>) -> bool {
    forall|i: int| 0 <= i < objects.len() ==> (#[trigger] objects[i]).bounds.is_some()
}

/// An intersection: the object that was struck and the distance at which the
/// ray struck it.
#[derive(Clone, Copy, Debug)]
pub struct HitRecord {
    pub t: i32,
    pub object: SceneObject,
}

/// The dot product of the ray's direction with the normal that is kept for
/// a hit: that with the outward normal where the ray strikes the front face,
/// and its opposite where it strikes the back.
pub open spec fn kept_dot(direction_dot_outward: i32, front_face: bool) -> int {
    if front_face {
        direction_dot_outward as int
    } else {
        -direction_dot_outward
    }
}

impl HitRecord {
    /// Whether the ray strikes the front face of a surface: it does if it
    /// runs against the outward normal, that is if the dot product of its
    /// direction with that normal, given by its code, is negative.  The
    /// normal kept for the hit is the outward normal on the front face and
    /// its opposite on the back, so it never runs along the ray.
    pub fn set_face_normal(direction_dot_outward: i32) -> (front_face: bool)
        ensures
            front_face == (direction_dot_outward < 0),
            kept_dot(direction_dot_outward, front_face) <= 0,
    {
        direction_dot_outward < 0
    }
}

/// How one ray meets the caller's scene.
///
/// The arithmetic of intersection is the implementor's.  Nothing is proved of
/// an implementation; the two methods only give their results a name, which
/// says that the same question has the same answer every time it is asked.
/// An implementation in ordinary code defines each name as a call of its
/// method.
pub trait Hittable {
    /// What `hit` answers.
    spec fn spec_hit(&self, object: SceneObject, t_min: i32, t_max: i32) -> Option<i32>;

    /// What `hit_box` answers.
    spec fn spec_hit_box(&self, bounds: AABB, t_min: i32, t_max: i32) -> bool;

    /// The distance of the closest intersection of the ray with `object`
    /// between `t_min` and `t_max`, if there is one.
    fn hit(&self, object: &SceneObject, t_min: i32, t_max: i32) -> (t: Option<i32>)
        ensures
            t == self.spec_hit(*object, t_min, t_max),
    ;

    /// Whether the ray passes through the box between `t_min` and `t_max`.
    fn hit_box(&self, bounds: &AABB, t_min: i32, t_max: i32) -> (met: bool)
        ensures
            met == self.spec_hit_box(*bounds, t_min, t_max),
    ;
}

/// The intersection with one object as a record.
pub open spec fn spec_hit_object<H: Hittable>(
    caster: &H,
    object: SceneObject,
    t_min: i32,
    t_max: i32,
) -> Option<HitRecord> {
    match caster.spec_hit(object, t_min, t_max) {
        Some(t) => Some(HitRecord { t, object }),
        None => None,
    }
}

/// The far end of the interval in which a closer intersection is still
/// sought: the distance of what was found, or `t_max` if nothing was.
pub open spec fn limit(found: Option<HitRecord>, t_max: i32) -> i32 {
    match found {
        Some(rec) => rec.t,
        None => t_max,
    }
}

/// Of two findings in turn, the second of which was sought below the first:
/// the second if there is one, else the first.
pub open spec fn closer(first: Option<HitRecord>, second: Option<HitRecord>) -> Option<
    HitRecord,
> {
    if second.is_some() {
        second
    } else {
        first
    }
}

/// What is asked of an intersection routine, for one object and one pair of
/// intervals with the same near end: an intersection lies strictly inside
/// the interval, and it is the closest one, so in a narrower interval the
/// answer is the same as long as the interval still reaches beyond it, and
/// nothing otherwise.
pub open spec fn closest_first<H: Hittable>(
    caster: &H,
    object: SceneObject,
    t_min: i32,
    t_max: i32,
    narrower: i32,
) -> bool {
    narrower <= t_max ==> match caster.spec_hit(object, t_min, t_max) {
        Some(t) => t_min < t < t_max && caster.spec_hit(object, t_min, narrower) == if t
            < narrower {
            Some(t)
        } else {
            None::<i32>
        },
        None => caster.spec_hit(object, t_min, narrower).is_none(),
    }
}

/// What is asked of intersection routine and box test together, for one
/// object and interval: a ray that misses the object's box does not hit the
/// object.
pub open spec fn box_first<H: Hittable>(
    caster: &H,
    object: SceneObject,
    t_min: i32,
    t_max: i32,
) -> bool {
    object.bounds.is_some() && !caster.spec_hit_box(object.bounds.unwrap(), t_min, t_max)
        ==> caster.spec_hit(object, t_min, t_max).is_none()
}

/// What is asked of the box test alone, for two boxes and an interval: a
/// ray that passes through a box passes through every box around it.
pub open spec fn wider_box_is_met<H: Hittable>(
    caster: &H,
    inner: AABB,
    outer: AABB,
    t_min: i32,
    t_max: i32,
) -> bool {
    outer.encloses(inner) && caster.spec_hit_box(inner, t_min, t_max) ==> caster.spec_hit_box(
        outer,
        t_min,
        t_max,
    )
}

/// The intersection routine answers with the closest intersection inside the
/// interval, for every object of the sequence and every interval.
pub open spec fn hits_closest_first<H: Hittable>(caster: &H, objects: Seq<SceneObject>) -> bool {
    forall|object: SceneObject, t_min: i32, t_max: i32, narrower: i32|
        objects.contains(object) ==> #[trigger] closest_first(
            caster,
            object,
            t_min,
            t_max,
            narrower,
        )
}

/// A ray that misses the box of an object of the sequence misses the
/// object.
pub open spec fn misses_with_the_box<H: Hittable>(caster: &H, objects: Seq<SceneObject>) -> bool {
    forall|object: SceneObject, t_min: i32, t_max: i32|
        objects.contains(object) ==> #[trigger] box_first(caster, object, t_min, t_max)
}

/// A ray that passes through a box passes through every box around it.
pub open spec fn wider_boxes_are_met<H: Hittable>(caster: &H) -> bool {
    forall|inner: AABB, outer: AABB, t_min: i32, t_max: i32| #[trigger]
        wider_box_is_met(caster, inner, outer, t_min, t_max)
}

/// `found` is the closest intersection of the ray with the objects inside
/// the interval: it is the intersection with one of them, no other object
/// is struck before it, and nothing is found only if no object is struck.
pub open spec fn is_closest_hit<H: Hittable>(
    caster: &H,
    objects: Seq<SceneObject>,
    t_min: i32,
    t_max: i32,
    found: Option<HitRecord>,
) -> bool {
    match found {
        Some(rec) => {
            &&& objects.contains(rec.object)
            &&& caster.spec_hit(rec.object, t_min, t_max) == Some(rec.t)
            &&& forall|other: SceneObject| #[trigger]
                objects.contains(other) ==> match caster.spec_hit(other, t_min, t_max) {
                    Some(u) => rec.t <= u,
                    None => true,
                }
        },
        None => forall|other: SceneObject| #[trigger]
            objects.contains(other) ==> caster.spec_hit(other, t_min, t_max).is_none(),
    }
}

/// The distance of a finding, if there is one.
pub open spec fn distance(found: Option<HitRecord>) -> Option<i32> {
    match found {
        Some(rec) => Some(rec.t),
        None => None,
    }
}

/// The closest intersection is found in two steps: first among some of the
/// objects, then among the others below what the first step found.
pub proof fn lemma_closer_of_two_parts<H: Hittable>(
    caster: &H,
    whole: Seq<SceneObject>,
    first: Seq<SceneObject>,
    second: Seq<SceneObject>,
    t_min: i32,
    t_max: i32,
    found_first: Option<HitRecord>,
    found_second: Option<HitRecord>,
)
    requires
        forall|object: SceneObject|
            whole.contains(object) <==> first.contains(object) || second.contains(object),
        hits_closest_first(caster, whole),
        is_closest_hit(caster, first, t_min, t_max, found_first),
        is_closest_hit(caster, second, t_min, limit(found_first, t_max), found_second),
    ensures
        is_closest_hit(caster, whole, t_min, t_max, closer(found_first, found_second)),
{
    let narrower = limit(found_first, t_max);
    assert(narrower <= t_max) by {
        if let Some(rec) = found_first {
            assert(closest_first(caster, rec.object, t_min, t_max, t_max));
        }
    }
    assert forall|other: SceneObject| second.contains(other) implies match caster.spec_hit(
        other,
        t_min,
        t_max,
    ) {
        Some(u) => if u < narrower {
            caster.spec_hit(other, t_min, narrower) == Some(u)
        } else {
            caster.spec_hit(other, t_min, narrower).is_none()
        },
        None => caster.spec_hit(other, t_min, narrower).is_none(),
    } by {
        assert(whole.contains(other));
        assert(closest_first(caster, other, t_min, t_max, narrower));
    }
    match found_second {
        Some(rec) => {
            assert(second.contains(rec.object));
            assert(whole.contains(rec.object));
            assert(closest_first(caster, rec.object, t_min, t_max, narrower));
            assert(closest_first(caster, rec.object, t_min, narrower, narrower));
            assert(rec.t < narrower);
            assert forall|other: SceneObject| #[trigger]
                whole.contains(other) implies match caster.spec_hit(other, t_min, t_max) {
                Some(u) => rec.t <= u,
                None => true,
            } by {
                if first.contains(other) {
                } else {
                    assert(second.contains(other));
                }
            }
        },
        None => {
            match found_first {
                Some(rec) => {
                    assert(whole.contains(rec.object));
                    assert forall|other: SceneObject| #[trigger]
                        whole.contains(other) implies match caster.spec_hit(
                        other,
                        t_min,
                        t_max,
                    ) {
                        Some(u) => rec.t <= u,
                        None => true,
                    } by {
                        if first.contains(other) {
                        } else {
                            assert(second.contains(other));
                        }
                    }
                },
                None => {
                    assert forall|other: SceneObject| #[trigger]
                        whole.contains(other) implies caster.spec_hit(
                        other,
                        t_min,
                        t_max,
                    ).is_none() by {
                        if first.contains(other) {
                        } else {
                            assert(second.contains(other));
                        }
                    }
                },
            }
        },
    }
}

/// The closest intersection is at one distance only: two findings that are
/// both closest for the same objects and interval lie equally far.
pub proof fn lemma_closest_hit_distance_unique<H: Hittable>(
    caster: &H,
    objects: Seq<SceneObject>,
    t_min: i32,
    t_max: i32,
    one: Option<HitRecord>,
    other: Option<HitRecord>,
)
    requires
        is_closest_hit(caster, objects, t_min, t_max, one),
        is_closest_hit(caster, objects, t_min, t_max, other),
    ensures
        distance(one) == distance(other),
{
    match (one, other) {
        (Some(a), Some(b)) => {
            assert(objects.contains(a.object));
            assert(objects.contains(b.object));
        },
        (Some(a), None) => {
            assert(objects.contains(a.object));
        },
        (None, Some(b)) => {
            assert(objects.contains(b.object));
        },
        (None, None) => {},
    }
}

} // verus!
