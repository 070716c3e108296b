use pathtracer::aabb::{Corner, AABB};
use pathtracer::bvh::BVHNode;
use pathtracer::hittable::{Hittable, SceneObject};
use pathtracer::hittable_list::HittableList;

/// One ray against a table: for every object the distances at which the ray
/// crosses it, and for the box test the boxes of all objects.
struct Crossings {
    objects: Vec<SceneObject>,
    at: Vec<Vec<i32>>,
}

impl Crossings {
    fn closest(&self, id: usize, t_min: i32, t_max: i32) -> Option<i32> {
        self.at[id]
            .iter()
            .copied()
            .filter(|t| t_min < *t && *t < t_max)
            .min()
    }
}

impl Hittable for Crossings {
    fn spec_hit(&self, object: SceneObject, t_min: i32, t_max: i32) -> Option<i32> {
        self.closest(object.id, t_min, t_max)
    }

    fn spec_hit_box(&self, bounds: AABB, t_min: i32, t_max: i32) -> bool {
        self.hit_box(&bounds, t_min, t_max)
    }

    fn hit(&self, object: &SceneObject, t_min: i32, t_max: i32) -> Option<i32> {
        self.closest(object.id, t_min, t_max)
    }

    fn hit_box(&self, bounds: &AABB, t_min: i32, t_max: i32) -> bool {
        self.objects.iter().any(|o| {
            let b = o.bounds.unwrap();
            let inside = bounds.minimum.x <= b.minimum.x
                && bounds.minimum.y <= b.minimum.y
                && bounds.minimum.z <= b.minimum.z
                && b.maximum.x <= bounds.maximum.x
                && b.maximum.y <= bounds.maximum.y
                && b.maximum.z <= bounds.maximum.z;
            inside && self.closest(o.id, t_min, t_max).is_some()
        })
    }
}

fn cube(id: usize, low: i32, high: i32) -> SceneObject {
    SceneObject::new(
        id,
        Some(AABB::new(Corner::new(low, low, low), Corner::new(high, high, high))),
    )
}

#[test]
fn scan_of_an_empty_list_finds_nothing() {
    let caster = Crossings { objects: vec![], at: vec![] };
    let list = HittableList::new();
    assert!(list.hit(&caster, 0, 100).is_none());
}

#[test]
fn scan_finds_the_closest_crossing() {
    let objects = vec![cube(0, 0, 1), cube(1, 5, 6), cube(2, 9, 12)];
    let caster = Crossings {
        objects: objects.clone(),
        at: vec![vec![70, 90], vec![30, 40], vec![50]],
    };
    let list = HittableList { objects };
    let found = list.hit(&caster, 0, 1000).unwrap();
    assert_eq!(found.t, 30);
    assert_eq!(found.object.id, 1);
    let found = list.hit(&caster, 30, 1000).unwrap();
    assert_eq!(found.t, 40);
    assert_eq!(found.object.id, 1);
    let found = list.hit(&caster, 40, 1000).unwrap();
    assert_eq!(found.t, 50);
    assert_eq!(found.object.id, 2);
    assert!(list.hit(&caster, 90, 1000).is_none());
    assert!(list.hit(&caster, 0, 30).is_none());
}

#[test]
fn hierarchy_over_two_objects_finds_the_nearer() {
    let near = cube(0, 10, 20);
    let far = cube(1, 40, 50);
    let caster = Crossings {
        objects: vec![near, far],
        at: vec![vec![15, 25], vec![45, 55]],
    };
    for order in [vec![near, far], vec![far, near]] {
        for _ in 0..10 {
            let node = BVHNode::new(&order);
            let list = HittableList { objects: order.clone() };
            let found = node.hit(&caster, 1, i32::MAX).unwrap();
            assert_eq!(found.t, 15);
            assert_eq!(found.object.id, 0);
            let scanned = list.hit(&caster, 1, i32::MAX).unwrap();
            assert_eq!(scanned.t, found.t);
            let found = node.hit(&caster, 25, i32::MAX).unwrap();
            assert_eq!(found.t, 45);
            assert_eq!(found.object.id, 1);
            assert!(node.hit(&caster, 55, i32::MAX).is_none());
        }
    }
}

#[test]
fn hierarchy_and_scan_agree_on_the_distance() {
    let mut objects = Vec::new();
    let mut at = Vec::new();
    let mut seed: u32 = 12345;
    for id in 0..40usize {
        seed = seed.wrapping_mul(1664525).wrapping_add(1013904223);
        let low = (seed >> 8) as i32 % 500;
        objects.push(SceneObject::new(
            id,
            Some(AABB::new(
                Corner::new(low, 500 - low, (low * 3) % 71),
                Corner::new(low + 9, 509 - low, (low * 3) % 71 + 9),
            )),
        ));
        seed = seed.wrapping_mul(1664525).wrapping_add(1013904223);
        let first = (seed >> 8) as i32 % 1000;
        if id % 4 == 3 {
            at.push(vec![]);
        } else {
            at.push(vec![first, first + 17]);
        }
    }
    let caster = Crossings { objects: objects.clone(), at };
    let list = HittableList { objects: objects.clone() };
    for _ in 0..5 {
        let node = BVHNode::from(&list);
        for (t_min, t_max) in [(0, 2000), (100, 900), (500, 520), (999, 1000), (-5, 3)] {
            let a = node.hit(&caster, t_min, t_max).map(|r| r.t);
            let b = list.hit(&caster, t_min, t_max).map(|r| r.t);
            assert_eq!(a, b);
            let mut best: Option<i32> = None;
            for o in &objects {
                if let Some(t) = caster.closest(o.id, t_min, t_max) {
                    best = Some(best.map_or(t, |b| b.min(t)));
                }
            }
            assert_eq!(a, best);
        }
    }
}

#[test]
fn hierarchy_of_one_object_finds_its_crossing() {
    let only = cube(0, 1, 2);
    let caster = Crossings { objects: vec![only], at: vec![vec![8]] };
    let node = BVHNode::new(&[only]);
    let found = node.hit(&caster, 0, 100).unwrap();
    assert_eq!(found.t, 8);
    assert_eq!(found.object.id, 0);
    assert!(node.hit(&caster, 8, 100).is_none());
    assert!(node.hit(&caster, 0, 8).is_none());
}
