//! The flat scene: an ordered list of objects.

use crate::aabb::AABB;
use crate::hittable::{
    all_bounded, closer, hits_closest_first, is_closest_hit, lemma_closer_of_two_parts, limit,
    spec_hit_object, HitRecord, Hittable, SceneObject,
};
use vstd::prelude::*;

verus! {

/// The objects of a scene in the order in which they were added.
pub struct HittableList {
    pub objects: Vec<SceneObject>,
}

impl View for HittableList {
    type V = Seq<SceneObject>;

    open spec fn view(&self) -> Seq<SceneObject> {
        self.objects@
    }
}

/// The box around the boxes of all the objects, merged from the first object
/// on.  Only meaningful for a sequence that is not empty and in which every
/// object has a box.
pub open spec fn union_of_boxes(objects: Seq<SceneObject>) -> AABB
    decreases objects.len(),
{
    if objects.len() <= 1 {
        objects[0].bounds.unwrap()
    } else {
        AABB::spec_surrounding_box(
            union_of_boxes(objects.drop_last()),
            objects.last().bounds.unwrap(),
        )
    }
}

/// What a scan of the objects in their order finds: every object is asked
/// for an intersection closer than what the objects before it gave.
pub open spec fn scan<H: Hittable>(
    caster: &H,
    objects: Seq<SceneObject>,
    t_min: i32,
    t_max: i32,
) -> Option<HitRecord>
    decreases objects.len(),
{
    if objects.len() == 0 {
        None
    } else {
        let before = scan(caster, objects.drop_last(), t_min, t_max);
        closer(before, spec_hit_object(caster, objects.last(), t_min, limit(before, t_max)))
    }
}

/// `bounds` encloses the box of every object of the sequence.
pub open spec fn encloses_all(bounds: AABB, objects: Seq<SceneObject>) -> bool {
    forall|object: SceneObject| #[trigger]
        objects.contains(object) ==> object.bounds.is_some() && bounds.encloses(
            object.bounds.unwrap(),
        )
}

impl HittableList {
    /// The empty scene.
    pub fn new() -> (list: Self)
        ensures
            list@ == Seq::<SceneObject>::empty(),
    {
        HittableList { objects: Vec::new() }
    }

    /// The scene that holds `obj` alone.
    pub fn from(obj: SceneObject) -> (list: Self)
        ensures
            list@ == seq![obj],
    {
        let mut this = HittableList { objects: Vec::new() };
        this.objects.push(obj);
        assert(this.objects@ =~= seq![obj]);
        this
    }

    /// Removes every object.
    pub fn clear(&mut self)
        ensures
            final(self)@ == Seq::<SceneObject>::empty(),
    {
        self.objects.clear();
    }

    /// Appends `obj` behind the objects already there.
    pub fn add(&mut self, obj: SceneObject)
        ensures
            final(self)@ == old(self)@.push(obj),
    {
        self.objects.push(obj);
    }

    /// What `bounding_box` returns: nothing for an empty list or a list with
    /// an object that has no box, else the box around all the boxes.
    pub open spec fn spec_bounding_box(&self) -> Option<AABB> {
        if self@.len() == 0 || !all_bounded(self@) {
            None
        } else {
            Some(union_of_boxes(self@))
        }
    }

    /// The box around the whole list, if it has one.
    pub fn bounding_box(&self) -> (b: Option<AABB>)
        ensures
            b == self.spec_bounding_box(),
    {
        if self.objects.len() == 0 {
            return None;
        }
        let mut output_box = match self.objects[0].bounds {
            Some(first) => first,
            None => {
                return None;
            },
        };
        let mut i: usize = 1;
        while i < self.objects.len()
            invariant
                1 <= i <= self.objects.len(),
                all_bounded(self@.subrange(0, i as int)),
                output_box == union_of_boxes(self@.subrange(0, i as int)),
            decreases self.objects.len() - i,
        {
            let ghost prefix = self@.subrange(0, i as int);
            let ghost longer = self@.subrange(0, i + 1);
            assert(longer.drop_last() =~= prefix);
            match self.objects[i].bounds {
                Some(next) => {
                    output_box = AABB::surrounding_box(&output_box, &next);
                },
                None => {
                    return None;
                },
            }
            assert forall|k: int| 0 <= k < longer.len() implies (#[trigger] longer[k]).bounds
                .is_some() by {
                if k < i {
                    assert(longer[k] == prefix[k]);
                }
            }
            i = i + 1;
        }
        assert(self@.subrange(0, i as int) =~= self@);
        Some(output_box)
    }

    /// The intersection of the ray with the list: the objects are asked in
    /// turn, each for an intersection closer than the closest so far.
    pub fn hit<H: Hittable>(&self, caster: &H, t_min: i32, t_max: i32) -> (found: Option<
        HitRecord,
    >)
        ensures
            found == scan(caster, self@, t_min, t_max),
    {
        let mut hit_anything: Option<HitRecord> = None;
        let mut closest_so_far: i32 = t_max;
        let mut i: usize = 0;
        while i < self.objects.len()
            invariant
                i <= self.objects.len(),
                hit_anything == scan(caster, self@.subrange(0, i as int), t_min, t_max),
                closest_so_far == limit(hit_anything, t_max),
            decreases self.objects.len() - i,
        {
            assert(self@.subrange(0, i + 1).drop_last() =~= self@.subrange(0, i as int));
            let object = self.objects[i];
            match caster.hit(&object, t_min, closest_so_far) {
                Some(t) => {
                    closest_so_far = t;
                    hit_anything = Some(HitRecord { t, object });
                },
                None => {},
            }
            i = i + 1;
        }
        assert(self@.subrange(0, i as int) =~= self@);
        hit_anything
    }

    /// With an intersection routine that answers with the closest
    /// intersection inside the interval, a scan finds the closest
    /// intersection of the ray with all the objects.
    pub proof fn lemma_scan_finds_closest<H: Hittable>(
        caster: &H,
        objects: Seq<SceneObject>,
        t_min: i32,
        t_max: i32,
    )
        requires
            hits_closest_first(caster, objects),
        ensures
            is_closest_hit(caster, objects, t_min, t_max, scan(caster, objects, t_min, t_max)),
        decreases objects.len(),
    {
        if objects.len() > 0 {
            let front = objects.drop_last();
            let last = seq![objects.last()];
            let before = scan(caster, front, t_min, t_max);
            let narrower = limit(before, t_max);
            assert forall|object: SceneObject|
                objects.contains(object) <==> front.contains(object) || last.contains(
                    object,
                ) by {
                if objects.contains(object) {
                    let k = choose|k: int| 0 <= k < objects.len() && objects[k] == object;
                    if k < front.len() {
                        assert(front[k] == object);
                    } else {
                        assert(last[0] == object);
                    }
                }
                if front.contains(object) {
                    let k = choose|k: int| 0 <= k < front.len() && front[k] == object;
                    assert(objects[k] == object);
                }
                if last.contains(object) {
                    let k = choose|k: int| 0 <= k < last.len() && last[k] == object;
                    assert(objects[objects.len() - 1] == object);
                }
            }
            Self::lemma_scan_finds_closest(caster, front, t_min, t_max);
            lemma_one_object_closest(caster, objects.last(), t_min, narrower);
            lemma_closer_of_two_parts(
                caster,
                objects,
                front,
                last,
                t_min,
                t_max,
                before,
                spec_hit_object(caster, objects.last(), t_min, narrower),
            );
        }
    }

    /// The box of a list encloses the box of each of its objects.
    pub proof fn lemma_bounding_box_encloses(objects: Seq<SceneObject>)
        requires
            all_bounded(objects),
            objects.len() > 0,
        ensures
            encloses_all(union_of_boxes(objects), objects),
        decreases objects.len(),
    {
        let whole = union_of_boxes(objects);
        assert forall|object: SceneObject| #[trigger]
            objects.contains(object) implies object.bounds.is_some() && whole.encloses(
            object.bounds.unwrap(),
        ) by {
            let i = choose|i: int| 0 <= i < objects.len() && objects[i] == object;
            if objects.len() > 1 {
                let front = objects.drop_last();
                assert(forall|k: int| 0 <= k < front.len() ==> #[trigger] front[k] == objects[k]);
                Self::lemma_bounding_box_encloses(front);
                if i < objects.len() - 1 {
                    assert(front[i] == object);
                    assert(front.contains(object));
                }
            }
        }
    }

    /// The box of a list is the least box around its objects: every box
    /// that encloses the box of each object encloses the box of the list.
    pub proof fn lemma_bounding_box_is_least(objects: Seq<SceneObject>, other: AABB)
        requires
            all_bounded(objects),
            objects.len() > 0,
            encloses_all(other, objects),
        ensures
            other.encloses(union_of_boxes(objects)),
        decreases objects.len(),
    {
        assert(objects.contains(objects.last()));
        assert(objects.contains(objects[0]));
        if objects.len() > 1 {
            let front = objects.drop_last();
            assert forall|object: SceneObject| #[trigger]
                front.contains(object) implies object.bounds.is_some() && other.encloses(
                object.bounds.unwrap(),
            ) by {
                let k = choose|k: int| 0 <= k < front.len() && front[k] == object;
                assert(objects[k] == object);
                assert(objects.contains(object));
            }
            assert(forall|k: int| 0 <= k < front.len() ==> #[trigger] front[k] == objects[k]);
            Self::lemma_bounding_box_is_least(front, other);
        }
    }
}

/// What the intersection routine answers for one object is the closest
/// intersection with that object alone.
pub proof fn lemma_one_object_closest<H: Hittable>(
    caster: &H,
    object: SceneObject,
    t_min: i32,
    t_max: i32,
)
    ensures
        is_closest_hit(
            caster,
            seq![object],
            t_min,
            t_max,
            spec_hit_object(caster, object, t_min, t_max),
        ),
{
    let alone = seq![object];
    assert(alone[0] == object);
    assert(alone.contains(object));
    assert forall|other: SceneObject| alone.contains(other) implies other == object by {
        let k = choose|k: int| 0 <= k < alone.len() && alone[k] == other;
    }
}

} // verus!
