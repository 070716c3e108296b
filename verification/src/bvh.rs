//! The bounding-volume hierarchy: a strict binary tree over the objects of a
//! scene, in which every node carries the box around everything below it.

use crate::aabb::AABB;
use crate::hittable::{
    all_bounded, box_first, closer, distance, hits_closest_first, is_closest_hit,
    lemma_closer_of_two_parts, lemma_closest_hit_distance_unique, limit, misses_with_the_box,
    spec_hit_object, wider_box_is_met, wider_boxes_are_met, HitRecord, Hittable, SceneObject,
};
use crate::hittable_list::{
    encloses_all, lemma_one_object_closest, scan, union_of_boxes, HittableList,
};
use crate::utils::random_below;
use vstd::arithmetic::power2::{
    lemma2_to64, lemma_pow2_strictly_increases, lemma_pow2_unfold, pow2,
};
use vstd::prelude::*;
use vstd::slice::{slice_subrange, slice_to_vec};

verus! {

/// What hangs below a node: a scene object or another node.
pub enum BVHChild {
    Object(SceneObject),
    Node(Box<BVHNode>),
}

/// An inner node with its two children and the box around both.
pub struct BVHNode {
    pub left: BVHChild,
    pub right: BVHChild,
    pub bounding_box: AABB,
}

/// The code by which an object is ordered along `axis`: that of the lowest
/// corner of its box.
pub open spec fn min_key(object: SceneObject, axis: usize) -> i32 {
    object.bounds.unwrap().minimum.spec_coordinate(axis)
}

/// The objects come in ascending order of their lowest corner along `axis`.
pub open spec fn sorted_along(objects: Seq<SceneObject>, axis: usize) -> bool {
    forall|i: int, j: int|
        0 <= i <= j < objects.len() ==> min_key(objects[i], axis) <= min_key(objects[j], axis)
}

/// The objects whose lowest corner along `axis` has the code `key`, in the
/// order in which they come.
pub open spec fn with_key(objects: Seq<SceneObject>, axis: usize, key: i32) -> Seq<SceneObject> {
    objects.filter(|object: SceneObject| min_key(object, axis) == key)
}

/// `sorted` holds the same objects as `objects`, each as often, in ascending
/// order along `axis`, and objects with the same key in the order that they
/// have in `objects`.
pub open spec fn is_ordering_of(
    sorted: Seq<SceneObject>,
    objects: Seq<SceneObject>,
    axis: usize,
) -> bool {
    &&& sorted.len() == objects.len()
    &&& sorted.to_multiset() == objects.to_multiset()
    &&& sorted_along(sorted, axis)
    &&& forall|key: i32| #[trigger] with_key(sorted, axis, key) == with_key(objects, axis, key)
}

/// The lowest corner of `object` along `axis`.
pub fn min_coordinate(object: &SceneObject, axis: usize) -> (key: i32)
    requires
        object.bounds.is_some(),
        axis < 3,
    ensures
        key == min_key(*object, axis),
{
    object.bounds.unwrap().minimum.coordinate(axis)
}

/// Whether `a` comes strictly before `b` along `axis`.
pub fn box_compare(a: &SceneObject, b: &SceneObject, axis: usize) -> (before: bool)
    requires
        a.bounds.is_some(),
        b.bounds.is_some(),
        axis < 3,
    ensures
        before == (min_key(*a, axis) < min_key(*b, axis)),
{
    min_coordinate(a, axis) < min_coordinate(b, axis)
}

/// Sorts the objects by their lowest corner along `axis`.
///
/// Trusted: this calls `sort_by_key` of the standard library's slices with
/// `min_coordinate` as the key.  The contract states what its documentation
/// promises of the outcome: the same objects, in ascending order of the key,
/// and those with equal keys in the order that they had.
#[verifier::external_body]
fn sort_along(objects: &mut Vec<SceneObject>, axis: usize)
    requires
        all_bounded(old(objects)@),
        axis < 3,
    ensures
        is_ordering_of(final(objects)@, old(objects)@, axis),
{
    objects.sort_by_key(|object| min_coordinate(object, axis));
}

impl BVHChild {
    /// The objects at the leaves below this child.
    pub open spec fn objects(self) -> Set<SceneObject>
        decreases self,
    {
        match self {
            BVHChild::Object(object) => set![object],
            BVHChild::Node(node) => node.objects(),
        }
    }

    /// The number of nodes on the longest way down from here.
    pub open spec fn height(self) -> nat
        decreases self,
    {
        match self {
            BVHChild::Object(_) => 0,
            BVHChild::Node(node) => node.height(),
        }
    }

    /// Some way down from here ends at `object` and passes only nodes whose
    /// box encloses the object's box.
    pub open spec fn leads_to(self, object: SceneObject) -> bool
        decreases self,
    {
        match self {
            BVHChild::Object(leaf) => leaf == object,
            BVHChild::Node(node) => node.leads_to(object),
        }
    }

    /// What `hit` finds below this child.
    pub open spec fn spec_hit<H: Hittable>(self, caster: &H, t_min: i32, t_max: i32) -> Option<
        HitRecord,
    >
        decreases self,
    {
        match self {
            BVHChild::Object(object) => spec_hit_object(caster, object, t_min, t_max),
            BVHChild::Node(node) => node.spec_hit(caster, t_min, t_max),
        }
    }

    /// The intersection of the ray with what hangs here.
    pub fn hit<H: Hittable>(&self, caster: &H, t_min: i32, t_max: i32) -> (found: Option<
        HitRecord,
    >)
        ensures
            found == self.spec_hit(caster, t_min, t_max),
        decreases self,
    {
        match self {
            BVHChild::Object(object) => match caster.hit(object, t_min, t_max) {
                Some(t) => Some(HitRecord { t, object: *object }),
                None => None,
            },
            BVHChild::Node(node) => node.hit(caster, t_min, t_max),
        }
    }

    pub open spec fn spec_bounding_box(self) -> Option<AABB> {
        match self {
            BVHChild::Object(object) => object.bounds,
            BVHChild::Node(node) => Some(node.bounding_box),
        }
    }

    /// The box of the object, or the box that the node carries.
    pub fn bounding_box(&self) -> (b: Option<AABB>)
        ensures
            b == self.spec_bounding_box(),
    {
        match self {
            BVHChild::Object(object) => object.bounds,
            BVHChild::Node(node) => Some(node.bounding_box),
        }
    }
}

impl BVHNode {
    /// The objects at the leaves below this node.
    pub open spec fn objects(self) -> Set<SceneObject>
        decreases self,
    {
        self.left.objects().union(self.right.objects())
    }

    /// The number of nodes on the longest way from this node down to an
    /// object, the node itself included.
    pub open spec fn height(self) -> nat
        decreases self,
    {
        if self.left.height() >= self.right.height() {
            1 + self.left.height()
        } else {
            1 + self.right.height()
        }
    }

    /// The node's box encloses the box of `object`, and one of its children
    /// leads to the object in the same way.  A query that misses a node's box
    /// can therefore miss no object that the node leads to.
    pub open spec fn leads_to(self, object: SceneObject) -> bool
        decreases self,
    {
        &&& object.bounds.is_some()
        &&& self.bounding_box.encloses(object.bounds.unwrap())
        &&& (self.left.leads_to(object) || self.right.leads_to(object))
    }

    /// What `hit` finds below this node: nothing if the ray misses the
    /// node's box; else what the left child gives, unless the right child
    /// gives something closer.
    pub open spec fn spec_hit<H: Hittable>(self, caster: &H, t_min: i32, t_max: i32) -> Option<
        HitRecord,
    >
        decreases self,
    {
        if !caster.spec_hit_box(self.bounding_box, t_min, t_max) {
            None
        } else {
            let hit_left = self.left.spec_hit(caster, t_min, t_max);
            closer(hit_left, self.right.spec_hit(caster, t_min, limit(hit_left, t_max)))
        }
    }

    /// The intersection of the ray with the objects below this node.
    ///
    /// Both children are asked, the right one only for an intersection
    /// closer than the left one's.
    pub fn hit<H: Hittable>(&self, caster: &H, t_min: i32, t_max: i32) -> (found: Option<
        HitRecord,
    >)
        ensures
            found == self.spec_hit(caster, t_min, t_max),
        decreases self,
    {
        if !caster.hit_box(&self.bounding_box, t_min, t_max) {
            return None;
        }
        let hit_left = self.left.hit(caster, t_min, t_max);
        let closest_so_far: i32 = match hit_left {
            Some(rec) => rec.t,
            None => t_max,
        };
        let hit_right = self.right.hit(caster, t_min, closest_so_far);
        match hit_right {
            Some(rec) => Some(rec),
            None => hit_left,
        }
    }

    /// The two objects hang below the node as leaves, the one with the
    /// smaller lowest corner along `axis` on the left; on a tie the first.
    pub open spec fn orders_pair(
        self,
        first: SceneObject,
        second: SceneObject,
        axis: usize,
    ) -> bool {
        if min_key(second, axis) < min_key(first, axis) {
            self.left == BVHChild::Object(second) && self.right == BVHChild::Object(first)
        } else {
            self.left == BVHChild::Object(first) && self.right == BVHChild::Object(second)
        }
    }

    /// `self` is a hierarchy that the construction may give for `objects`.
    ///
    /// Every node's box is the surrounding box of its children's.  One object
    /// hangs on both sides of a single node.  Two objects hang below one node,
    /// ordered along some axis.  More are sorted along some axis and split
    /// at the middle, the lower half to the left; both halves are again
    /// hierarchies of this kind.
    pub open spec fn is_bvh_of(self, objects: Seq<SceneObject>) -> bool
        decreases objects.len(), 1int,
    {
        &&& all_bounded(objects)
        &&& self.left.spec_bounding_box().is_some()
        &&& self.right.spec_bounding_box().is_some()
        &&& self.bounding_box == AABB::spec_surrounding_box(
            self.left.spec_bounding_box().unwrap(),
            self.right.spec_bounding_box().unwrap(),
        )
        &&& if objects.len() == 1 {
            self.left == BVHChild::Object(objects[0]) && self.right == BVHChild::Object(objects[0])
        } else if objects.len() == 2 {
            exists|axis: usize|
                axis < 3 && #[trigger] self.orders_pair(objects[0], objects[1], axis)
        } else if objects.len() > 2 {
            exists|axis: usize, sorted: Seq<SceneObject>|
                axis < 3 && #[trigger] is_ordering_of(sorted, objects, axis) && self.splits(sorted)
        } else {
            false
        }
    }

    /// Both children are nodes: the left one a hierarchy for the lower half
    /// of `sorted`, the right one for the upper half.
    pub open spec fn splits(self, sorted: Seq<SceneObject>) -> bool
        decreases sorted.len(), 0int,
    {
        &&& sorted.len() > 2
        &&& match self.left {
            BVHChild::Node(node) => node.is_bvh_of(sorted.subrange(0, sorted.len() as int / 2)),
            BVHChild::Object(_) => false,
        }
        &&& match self.right {
            BVHChild::Node(node) => node.is_bvh_of(
                sorted.subrange(sorted.len() as int / 2, sorted.len() as int),
            ),
            BVHChild::Object(_) => false,
        }
    }

    /// `self` is a hierarchy for `objects` whose root orders them along
    /// `axis`; the axes further down are open.
    pub open spec fn is_bvh_along(self, objects: Seq<SceneObject>, axis: usize) -> bool {
        &&& self.is_bvh_of(objects)
        &&& objects.len() == 2 ==> self.orders_pair(objects[0], objects[1], axis)
        &&& objects.len() > 2 ==> exists|sorted: Seq<SceneObject>| #[trigger]
            is_ordering_of(sorted, objects, axis) && self.splits(sorted)
    }

    /// Builds a hierarchy over the objects, choosing the axis of every node
    /// at random.
    pub fn new(src_objects: &[SceneObject]) -> (node: Self)
        requires
            src_objects@.len() >= 1,
            all_bounded(src_objects@),
        ensures
            node.is_bvh_of(src_objects@),
        decreases src_objects@.len(), 1int,
    {
        let axis: usize = random_below(3);
        Self::with_axis(src_objects, axis)
    }

    /// Builds a hierarchy over the objects whose root orders them along
    /// `axis`.  The axes of the nodes further down are chosen at random.
    pub fn with_axis(src_objects: &[SceneObject], axis: usize) -> (node: Self)
        requires
            src_objects@.len() >= 1,
            all_bounded(src_objects@),
            axis < 3,
        ensures
            node.is_bvh_along(src_objects@, axis),
        decreases src_objects@.len(), 0int,
    {
        let mut objects: Vec<SceneObject> = slice_to_vec(src_objects);
        let n: usize = objects.len();
        let left: BVHChild;
        let right: BVHChild;
        if n == 1 {
            left = BVHChild::Object(objects[0]);
            right = BVHChild::Object(objects[0]);
        } else if n == 2 {
            if box_compare(&objects[1], &objects[0], axis) {
                left = BVHChild::Object(objects[1]);
                right = BVHChild::Object(objects[0]);
            } else {
                left = BVHChild::Object(objects[0]);
                right = BVHChild::Object(objects[1]);
            }
        } else {
            sort_along(&mut objects, axis);
            proof {
                lemma_same_members(objects@, src_objects@);
            }
            let mid: usize = n / 2;
            let lower = BVHNode::new(slice_subrange(objects.as_slice(), 0, mid));
            let upper = BVHNode::new(slice_subrange(objects.as_slice(), mid, n));
            left = BVHChild::Node(Box::new(lower));
            right = BVHChild::Node(Box::new(upper));
        }
        let box_left = left.bounding_box().unwrap();
        let box_right = right.bounding_box().unwrap();
        let bounding_box = AABB::surrounding_box(&box_left, &box_right);
        let node = BVHNode { left, right, bounding_box };
        proof {
            if n == 2 {
                assert(node.orders_pair(src_objects@[0], src_objects@[1], axis));
            } else if n > 2 {
                assert(is_ordering_of(objects@, src_objects@, axis));
                assert(node.splits(objects@));
            }
        }
        node
    }

    /// Builds a hierarchy over the objects if there is one to build: none
    /// exists over no objects, nor over an object without a box.
    pub fn try_new(src_objects: &[SceneObject]) -> (node: Option<Self>)
        ensures
            node.is_some() <==> src_objects@.len() >= 1 && all_bounded(src_objects@),
            node.is_some() ==> node.unwrap().is_bvh_of(src_objects@),
    {
        if src_objects.len() == 0 {
            return None;
        }
        let mut i: usize = 0;
        while i < src_objects.len()
            invariant
                i <= src_objects@.len(),
                forall|k: int| 0 <= k < i ==> (#[trigger] src_objects@[k]).bounds.is_some(),
            decreases src_objects@.len() - i,
        {
            if src_objects[i].bounds.is_none() {
                return None;
            }
            i = i + 1;
        }
        Some(Self::new(src_objects))
    }

    /// Builds a hierarchy over the objects of a list.
    pub fn from(list: &HittableList) -> (node: Self)
        requires
            list@.len() >= 1,
            all_bounded(list@),
        ensures
            node.is_bvh_of(list@),
    {
        Self::new(list.objects.as_slice())
    }

    /// The box around everything below the node.
    pub fn bounding_box(&self) -> (b: Option<AABB>)
        ensures
            b == Some(self.bounding_box),
    {
        Some(self.bounding_box)
    }
}

impl BVHNode {
    /// A hierarchy built over some objects holds exactly those objects at its
    /// leaves: none is lost and none is added.
    pub proof fn lemma_holds_the_objects(self, objects: Seq<SceneObject>)
        requires
            self.is_bvh_of(objects),
        ensures
            self.objects() == objects.to_set(),
        decreases objects.len(),
    {
        let members = objects.to_set();
        if objects.len() == 1 {
            assert(objects.contains(objects[0]));
            assert(self.objects() =~= members);
        } else if objects.len() == 2 {
            assert(objects.contains(objects[0]));
            assert(objects.contains(objects[1]));
            assert(self.objects() =~= members);
        } else {
            let (axis, sorted) = choose|axis: usize, sorted: Seq<SceneObject>|
                axis < 3 && #[trigger] is_ordering_of(sorted, objects, axis) && self.splits(sorted);
            let mid = sorted.len() as int / 2;
            let lower = sorted.subrange(0, mid);
            let upper = sorted.subrange(mid, sorted.len() as int);
            lemma_same_members(sorted, objects);
            lemma_halves(sorted, mid);
            match (self.left, self.right) {
                (BVHChild::Node(l), BVHChild::Node(r)) => {
                    l.lemma_holds_the_objects(lower);
                    r.lemma_holds_the_objects(upper);
                    assert forall|x: SceneObject| self.objects().contains(x) == members.contains(
                        x,
                    ) by {
                        assert(sorted.contains(x) <==> lower.contains(x) || upper.contains(x));
                        assert(objects.contains(x) <==> sorted.contains(x));
                    }
                },
                _ => {},
            }
            assert(self.objects() =~= members);
        }
    }

    /// A hierarchy built over some objects leads to each of them through
    /// boxes that enclose the object's own box.  So the box at the root
    /// encloses every object, and pruning by boxes loses none.
    pub proof fn lemma_leads_to_every_object(self, objects: Seq<SceneObject>, object: SceneObject)
        requires
            self.is_bvh_of(objects),
            objects.contains(object),
        ensures
            self.leads_to(object),
        decreases objects.len(),
    {
        if objects.len() > 2 {
            let (axis, sorted) = choose|axis: usize, sorted: Seq<SceneObject>|
                axis < 3 && #[trigger] is_ordering_of(sorted, objects, axis) && self.splits(sorted);
            let mid = sorted.len() as int / 2;
            let lower = sorted.subrange(0, mid);
            let upper = sorted.subrange(mid, sorted.len() as int);
            lemma_same_members(sorted, objects);
            lemma_halves(sorted, mid);
            assert(sorted.contains(object));
            match (self.left, self.right) {
                (BVHChild::Node(l), BVHChild::Node(r)) => {
                    if lower.contains(object) {
                        l.lemma_leads_to_every_object(lower, object);
                    } else {
                        r.lemma_leads_to_every_object(upper, object);
                    }
                },
                _ => {},
            }
        }
    }
}

impl BVHNode {
    /// A hierarchy is as low as a binary tree over its objects can be: with
    /// the height `h` it holds at most `2^h` objects, and from two objects on
    /// more than `2^(h - 1)`, whatever axes the construction chose.
    pub proof fn lemma_height_is_logarithmic(self, objects: Seq<SceneObject>)
        requires
            self.is_bvh_of(objects),
        ensures
            self.height() >= 1,
            objects.len() <= pow2(self.height()),
            objects.len() <= 2 ==> self.height() == 1,
            objects.len() >= 2 ==> pow2((self.height() - 1) as nat) < objects.len(),
        decreases objects.len(),
    {
        lemma2_to64();
        if objects.len() > 2 {
            let (axis, sorted) = choose|axis: usize, sorted: Seq<SceneObject>|
                axis < 3 && #[trigger] is_ordering_of(sorted, objects, axis) && self.splits(sorted);
            let mid = sorted.len() as int / 2;
            let lower = sorted.subrange(0, mid);
            let upper = sorted.subrange(mid, sorted.len() as int);
            match (self.left, self.right) {
                (BVHChild::Node(l), BVHChild::Node(r)) => {
                    l.lemma_height_is_logarithmic(lower);
                    r.lemma_height_is_logarithmic(upper);
                    let hl = l.height();
                    let hr = r.height();
                    lemma_pow2_unfold(hr);
                    lemma_pow2_unfold(hr + 1);
                    assert(hl <= hr) by {
                        if hl > hr {
                            lemma_pow2_unfold(hl);
                            if (hl - 1) as nat > hr {
                                lemma_pow2_strictly_increases(hr, (hl - 1) as nat);
                            }
                        }
                    }
                },
                _ => {},
            }
        }
    }

    /// Over objects whose boxes have their corners in order, the box at the
    /// root of a hierarchy has its corners in order; and since what hangs
    /// below a node is a hierarchy over some of the objects, so has the box
    /// of every node.
    pub proof fn lemma_box_is_valid(self, objects: Seq<SceneObject>)
        requires
            self.is_bvh_of(objects),
            forall|object: SceneObject| #[trigger]
                objects.contains(object) ==> object.bounds.is_some()
                    && object.bounds.unwrap().is_valid(),
        ensures
            self.bounding_box.is_valid(),
    {
        let first = objects[0];
        assert(objects.contains(first));
        self.lemma_leads_to_every_object(objects, first);
    }

    /// The box at the root of a hierarchy is the least box around its
    /// objects: every box that encloses the box of each object encloses it.
    pub proof fn lemma_box_is_least(self, objects: Seq<SceneObject>, other: AABB)
        requires
            self.is_bvh_of(objects),
            encloses_all(other, objects),
        ensures
            other.encloses(self.bounding_box),
        decreases objects.len(),
    {
        assert(objects.contains(objects[0]));
        if objects.len() == 2 {
            assert(objects.contains(objects[1]));
        } else if objects.len() > 2 {
            let (axis, sorted) = choose|axis: usize, sorted: Seq<SceneObject>|
                axis < 3 && #[trigger] is_ordering_of(sorted, objects, axis) && self.splits(sorted);
            let mid = sorted.len() as int / 2;
            let lower = sorted.subrange(0, mid);
            let upper = sorted.subrange(mid, sorted.len() as int);
            lemma_same_members(sorted, objects);
            lemma_halves(sorted, mid);
            match (self.left, self.right) {
                (BVHChild::Node(l), BVHChild::Node(r)) => {
                    assert(encloses_all(other, lower)) by {
                        assert forall|object: SceneObject| #[trigger]
                            lower.contains(object) implies objects.contains(object) by {
                            assert(sorted.contains(object));
                        }
                    }
                    assert(encloses_all(other, upper)) by {
                        assert forall|object: SceneObject| #[trigger]
                            upper.contains(object) implies objects.contains(object) by {
                            assert(sorted.contains(object));
                        }
                    }
                    l.lemma_box_is_least(lower, other);
                    r.lemma_box_is_least(upper, other);
                },
                _ => {},
            }
        }
    }

    /// The box at the root of a hierarchy is the box of the list of its
    /// objects, in whatever order the list holds them and whatever axes the
    /// construction chose.
    pub proof fn lemma_box_is_union(self, objects: Seq<SceneObject>)
        requires
            self.is_bvh_of(objects),
        ensures
            self.bounding_box == union_of_boxes(objects),
    {
        let whole = union_of_boxes(objects);
        HittableList::lemma_bounding_box_encloses(objects);
        self.lemma_box_is_least(objects, whole);
        assert(encloses_all(self.bounding_box, objects)) by {
            assert forall|object: SceneObject| #[trigger]
                objects.contains(object) implies object.bounds.is_some()
                && self.bounding_box.encloses(object.bounds.unwrap()) by {
                self.lemma_leads_to_every_object(objects, object);
            }
        }
        HittableList::lemma_bounding_box_is_least(objects, self.bounding_box);
    }

    /// Take an intersection routine that answers with the closest
    /// intersection inside the interval and with none where the ray misses
    /// the object's box, and a box test that is passed for every box around
    /// a box for which it is passed.  With them a hierarchy built over some
    /// objects finds the closest intersection of the ray with all of them,
    /// whatever axes the construction chose.
    pub proof fn lemma_hit_finds_closest<H: Hittable>(
        self,
        caster: &H,
        objects: Seq<SceneObject>,
        t_min: i32,
        t_max: i32,
    )
        requires
            self.is_bvh_of(objects),
            hits_closest_first(caster, objects),
            misses_with_the_box(caster, objects),
            wider_boxes_are_met(caster),
        ensures
            is_closest_hit(caster, objects, t_min, t_max, self.spec_hit(caster, t_min, t_max)),
        decreases objects.len(),
    {
        if !caster.spec_hit_box(self.bounding_box, t_min, t_max) {
            assert forall|other: SceneObject| #[trigger]
                objects.contains(other) implies caster.spec_hit(
                other,
                t_min,
                t_max,
            ).is_none() by {
                self.lemma_leads_to_every_object(objects, other);
                assert(wider_box_is_met(
                    caster,
                    other.bounds.unwrap(),
                    self.bounding_box,
                    t_min,
                    t_max,
                ));
                assert(box_first(caster, other, t_min, t_max));
            }
        } else {
            let hit_left = self.left.spec_hit(caster, t_min, t_max);
            let narrower = limit(hit_left, t_max);
            let hit_right = self.right.spec_hit(caster, t_min, narrower);
            if objects.len() <= 2 {
                match (self.left, self.right) {
                    (BVHChild::Object(a), BVHChild::Object(b)) => {
                        let first = seq![a];
                        let second = seq![b];
                        assert(first[0] == a);
                        assert(second[0] == b);
                        assert(objects.contains(objects[0]));
                        if objects.len() == 2 {
                            assert(objects.contains(objects[1]));
                        }
                        assert forall|object: SceneObject|
                            objects.contains(object) <==> first.contains(object)
                                || second.contains(object) by {
                            if objects.contains(object) {
                                let k = choose|k: int|
                                    0 <= k < objects.len() && objects[k] == object;
                            }
                            if first.contains(object) {
                                let k = choose|k: int| 0 <= k < first.len() && first[k] == object;
                            }
                            if second.contains(object) {
                                let k = choose|k: int|
                                    0 <= k < second.len() && second[k] == object;
                            }
                        }
                        lemma_one_object_closest(caster, a, t_min, t_max);
                        lemma_one_object_closest(caster, b, t_min, narrower);
                        lemma_closer_of_two_parts(
                            caster,
                            objects,
                            first,
                            second,
                            t_min,
                            t_max,
                            hit_left,
                            hit_right,
                        );
                    },
                    _ => {},
                }
            } else {
                let (axis, sorted) = choose|axis: usize, sorted: Seq<SceneObject>|
                    axis < 3 && #[trigger] is_ordering_of(sorted, objects, axis) && self.splits(
                        sorted,
                    );
                let mid = sorted.len() as int / 2;
                let lower = sorted.subrange(0, mid);
                let upper = sorted.subrange(mid, sorted.len() as int);
                lemma_same_members(sorted, objects);
                lemma_halves(sorted, mid);
                match (self.left, self.right) {
                    (BVHChild::Node(l), BVHChild::Node(r)) => {
                        l.lemma_hit_finds_closest(caster, lower, t_min, t_max);
                        r.lemma_hit_finds_closest(caster, upper, t_min, narrower);
                        lemma_closer_of_two_parts(
                            caster,
                            objects,
                            lower,
                            upper,
                            t_min,
                            t_max,
                            hit_left,
                            hit_right,
                        );
                    },
                    _ => {},
                }
            }
        }
    }

    /// Under the same conditions, a hierarchy built over some objects and a
    /// scan of the objects in any order find an intersection in the same
    /// cases and at the same distance.
    pub proof fn lemma_hit_matches_scan<H: Hittable>(
        self,
        caster: &H,
        objects: Seq<SceneObject>,
        t_min: i32,
        t_max: i32,
    )
        requires
            self.is_bvh_of(objects),
            hits_closest_first(caster, objects),
            misses_with_the_box(caster, objects),
            wider_boxes_are_met(caster),
        ensures
            distance(self.spec_hit(caster, t_min, t_max)) == distance(
                scan(caster, objects, t_min, t_max),
            ),
    {
        self.lemma_hit_finds_closest(caster, objects, t_min, t_max);
        HittableList::lemma_scan_finds_closest(caster, objects, t_min, t_max);
        lemma_closest_hit_distance_unique(
            caster,
            objects,
            t_min,
            t_max,
            self.spec_hit(caster, t_min, t_max),
            scan(caster, objects, t_min, t_max),
        );
    }
}

/// Every member of a sequence lies in the part before `mid` or in the part
/// from `mid` on, and in nothing else.
pub proof fn lemma_halves(s: Seq<SceneObject>, mid: int)
    requires
        0 <= mid <= s.len(),
    ensures
        forall|x: SceneObject|
            s.contains(x) <==> s.subrange(0, mid).contains(x) || s.subrange(
                mid,
                s.len() as int,
            ).contains(x),
{
    let lower = s.subrange(0, mid);
    let upper = s.subrange(mid, s.len() as int);
    assert forall|x: SceneObject| s.contains(x) <==> lower.contains(x) || upper.contains(
        x,
    ) by {
        if s.contains(x) {
            let k = choose|k: int| 0 <= k < s.len() && s[k] == x;
            if k < mid {
                assert(lower[k] == x);
            } else {
                assert(upper[k - mid] == x);
            }
        }
        if lower.contains(x) {
            let k = choose|k: int| 0 <= k < lower.len() && lower[k] == x;
            assert(s[k] == x);
        }
        if upper.contains(x) {
            let k = choose|k: int| 0 <= k < upper.len() && upper[k] == x;
            assert(s[k + mid] == x);
        }
    }
}

/// Two sequences that hold the same objects equally often have the same
/// members, so if each object of the one has a box, each of the other has.
pub proof fn lemma_same_members(a: Seq<SceneObject>, b: Seq<SceneObject>)
    requires
        a.to_multiset() == b.to_multiset(),
    ensures
        forall|x: SceneObject| a.contains(x) <==> b.contains(x),
        all_bounded(b) ==> all_bounded(a),
{
    a.to_multiset_ensures();
    b.to_multiset_ensures();
    assert forall|x: SceneObject| a.contains(x) <==> b.contains(x) by {
        assert(a.contains(x) <==> a.to_multiset().count(x) > 0);
        assert(b.contains(x) <==> b.to_multiset().count(x) > 0);
    }
    if all_bounded(b) {
        assert forall|i: int| 0 <= i < a.len() implies (#[trigger] a[i]).bounds.is_some() by {
            assert(a.contains(a[i]));
            assert(b.contains(a[i]));
            let k = choose|k: int| 0 <= k < b.len() && b[k] == a[i];
            assert(b[k].bounds.is_some());
        }
    }
}

} // verus!
