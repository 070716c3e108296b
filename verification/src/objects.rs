//! Spheres: which of the two roots of the intersection equation counts.

use vstd::prelude::*;

verus! {

/// `t` lies strictly between `t_min` and `t_max`.
pub open spec fn in_range(t: i32, t_min: i32, t_max: i32) -> bool {
    t_min < t < t_max
}

/// The root that counts as the intersection: the nearer one if it lies in
/// range, else the farther one if that does, else none.
pub open spec fn spec_nearest_root(near: i32, far: i32, t_min: i32, t_max: i32) -> Option<i32> {
    if in_range(near, t_min, t_max) {
        Some(near)
    } else if in_range(far, t_min, t_max) {
        Some(far)
    } else {
        None
    }
}

/// Picks the intersection distance from the two roots at which the ray's
/// line crosses a sphere.
pub fn nearest_root(near: i32, far: i32, t_min: i32, t_max: i32) -> (root: Option<i32>)
    ensures
        root == spec_nearest_root(near, far, t_min, t_max),
{
    let mut root: i32 = near;
    if root <= t_min || t_max <= root {
        root = far;
        if root <= t_min || t_max <= root {
            return None;
        }
    }
    Some(root)
}

/// With the roots in order, the chosen root is the closest crossing inside
/// the interval: it lies strictly inside, it stays the answer in every
/// narrower interval that still reaches beyond it, and a narrower interval
/// that does not has no answer.
pub proof fn lemma_nearest_root_is_closest(
    near: i32,
    far: i32,
    t_min: i32,
    t_max: i32,
    narrower: i32,
)
    requires
        near <= far,
        narrower <= t_max,
    ensures
        match spec_nearest_root(near, far, t_min, t_max) {
            Some(t) => in_range(t, t_min, t_max) && spec_nearest_root(near, far, t_min, narrower)
                == if t < narrower {
                Some(t)
            } else {
                None::<i32>
            },
            None => spec_nearest_root(near, far, t_min, narrower).is_none(),
        },
{
}

} // verus!
