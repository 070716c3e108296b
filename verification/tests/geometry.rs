use pathtracer::aabb::{Corner, Slab, AABB};
use pathtracer::aarect::{XYRect, XZRect, YZRect};
use pathtracer::objects::nearest_root;
use pathtracer::bvh::{box_compare, min_coordinate, BVHChild, BVHNode};
use pathtracer::hittable::SceneObject;
use pathtracer::hittable_list::HittableList;
use pathtracer::utils::{max, min};

fn cube(id: usize, low: i32, high: i32) -> SceneObject {
    SceneObject::new(
        id,
        Some(AABB::new(Corner::new(low, low, low), Corner::new(high, high, high))),
    )
}

fn corner_eq(a: &Corner, b: (i32, i32, i32)) -> bool {
    (a.x, a.y, a.z) == b
}

fn leaf_id(child: &BVHChild) -> Option<usize> {
    match child {
        BVHChild::Object(o) => Some(o.id),
        BVHChild::Node(_) => None,
    }
}

fn collect(child: &BVHChild, out: &mut Vec<usize>) {
    match child {
        BVHChild::Object(o) => out.push(o.id),
        BVHChild::Node(n) => {
            collect(&n.left, out);
            collect(&n.right, out);
        }
    }
}

fn boxes_nest(node: &BVHNode) -> bool {
    let l = node.left.bounding_box().unwrap();
    let r = node.right.bounding_box().unwrap();
    let u = AABB::surrounding_box(&l, &r);
    let low = node.bounding_box.minimum;
    let high = node.bounding_box.maximum;
    let same = corner_eq(&u.minimum, (low.x, low.y, low.z))
        && corner_eq(&u.maximum, (high.x, high.y, high.z));
    let below_left = match &node.left {
        BVHChild::Node(n) => boxes_nest(n),
        BVHChild::Object(_) => true,
    };
    let below_right = match &node.right {
        BVHChild::Node(n) => boxes_nest(n),
        BVHChild::Object(_) => true,
    };
    same && below_left && below_right
}

#[test]
fn min_and_max_pick_the_right_code() {
    assert_eq!(min(-3, 7), -3);
    assert_eq!(min(7, -3), -3);
    assert_eq!(min(5, 5), 5);
    assert_eq!(max(-3, 7), 7);
    assert_eq!(max(7, -3), 7);
    assert_eq!(max(i32::MIN, i32::MAX), i32::MAX);
}

#[test]
fn corner_coordinate_by_axis() {
    let c = Corner::new(10, 20, 30);
    assert_eq!(c.coordinate(0), 10);
    assert_eq!(c.coordinate(1), 20);
    assert_eq!(c.coordinate(2), 30);
}

#[test]
fn empty_box_sits_at_zero() {
    let b = AABB::empty();
    assert!(corner_eq(&b.minimum, (0, 0, 0)));
    assert!(corner_eq(&b.maximum, (0, 0, 0)));
}

#[test]
fn surrounding_box_takes_extremes_per_axis() {
    let a = AABB::new(Corner::new(0, -5, 2), Corner::new(4, 1, 3));
    let b = AABB::new(Corner::new(-1, 0, 2), Corner::new(2, 9, 8));
    let u = AABB::surrounding_box(&a, &b);
    assert!(corner_eq(&u.minimum, (-1, -5, 2)));
    assert!(corner_eq(&u.maximum, (4, 9, 8)));
    let v = AABB::surrounding_box(&b, &a);
    assert!(corner_eq(&v.minimum, (-1, -5, 2)));
    assert!(corner_eq(&v.maximum, (4, 9, 8)));
}

#[test]
fn surrounding_box_of_a_box_with_itself() {
    let a = AABB::new(Corner::new(1, 2, 3), Corner::new(4, 5, 6));
    let u = AABB::surrounding_box(&a, &a);
    assert!(corner_eq(&u.minimum, (1, 2, 3)));
    assert!(corner_eq(&u.maximum, (4, 5, 6)));
}

#[test]
fn surrounding_box_at_the_ends_of_the_code_range() {
    let a = AABB::new(Corner::new(i32::MIN, 0, 0), Corner::new(0, 0, i32::MAX));
    let b = AABB::new(Corner::new(0, 0, 0), Corner::new(1, 1, 1));
    let u = AABB::surrounding_box(&a, &b);
    assert!(corner_eq(&u.minimum, (i32::MIN, 0, 0)));
    assert!(corner_eq(&u.maximum, (1, 1, i32::MAX)));
}

#[test]
fn list_starts_empty_and_grows_in_order() {
    let mut list = HittableList::new();
    assert!(list.objects.is_empty());
    list.add(cube(4, 0, 1));
    list.add(cube(2, 5, 6));
    assert_eq!(list.objects.len(), 2);
    assert_eq!(list.objects[0].id, 4);
    assert_eq!(list.objects[1].id, 2);
    list.clear();
    assert!(list.objects.is_empty());
}

#[test]
fn list_from_one_object() {
    let list = HittableList::from(cube(9, 1, 2));
    assert_eq!(list.objects.len(), 1);
    assert_eq!(list.objects[0].id, 9);
    assert!(list.objects[0].bounding_box().is_some());
}

#[test]
fn empty_list_has_no_box() {
    let list = HittableList::new();
    assert!(list.bounding_box().is_none());
}

#[test]
fn list_with_an_unbounded_object_has_no_box() {
    let mut list = HittableList::from(cube(0, 0, 1));
    list.add(SceneObject::new(1, None));
    list.add(cube(2, 3, 4));
    assert!(list.bounding_box().is_none());
    let first = HittableList::from(SceneObject::new(0, None));
    assert!(first.bounding_box().is_none());
}

#[test]
fn list_box_is_the_union_of_all_boxes() {
    let mut list = HittableList::from(cube(0, 2, 3));
    list.add(SceneObject::new(
        1,
        Some(AABB::new(Corner::new(-7, 2, 2), Corner::new(0, 3, 11))),
    ));
    list.add(cube(2, 0, 1));
    let b = list.bounding_box().unwrap();
    assert!(corner_eq(&b.minimum, (-7, 0, 0)));
    assert!(corner_eq(&b.maximum, (3, 3, 11)));
}

#[test]
fn compare_orders_by_lowest_corner() {
    let a = SceneObject::new(0, Some(AABB::new(Corner::new(1, 9, 5), Corner::new(20, 20, 20))));
    let b = SceneObject::new(1, Some(AABB::new(Corner::new(2, 3, 5), Corner::new(3, 4, 6))));
    assert_eq!(min_coordinate(&a, 0), 1);
    assert_eq!(min_coordinate(&a, 1), 9);
    assert_eq!(min_coordinate(&b, 2), 5);
    assert!(box_compare(&a, &b, 0));
    assert!(!box_compare(&b, &a, 0));
    assert!(!box_compare(&a, &b, 1));
    assert!(box_compare(&b, &a, 1));
    assert!(!box_compare(&a, &b, 2));
    assert!(!box_compare(&b, &a, 2));
}

#[test]
fn hierarchy_of_one_object_has_it_on_both_sides() {
    let node = BVHNode::new(&[cube(5, 1, 2)]);
    assert_eq!(leaf_id(&node.left), Some(5));
    assert_eq!(leaf_id(&node.right), Some(5));
    assert!(corner_eq(&node.bounding_box.minimum, (1, 1, 1)));
    assert!(corner_eq(&node.bounding_box.maximum, (2, 2, 2)));
    assert!(node.bounding_box().is_some());
}

#[test]
fn hierarchy_of_two_objects_puts_the_lower_one_left() {
    for _ in 0..20 {
        let node = BVHNode::new(&[cube(0, 10, 11), cube(1, 0, 1)]);
        assert_eq!(leaf_id(&node.left), Some(1));
        assert_eq!(leaf_id(&node.right), Some(0));
        let node = BVHNode::new(&[cube(1, 0, 1), cube(0, 10, 11)]);
        assert_eq!(leaf_id(&node.left), Some(1));
        assert_eq!(leaf_id(&node.right), Some(0));
        assert!(corner_eq(&node.bounding_box.minimum, (0, 0, 0)));
        assert!(corner_eq(&node.bounding_box.maximum, (11, 11, 11)));
    }
}

#[test]
fn hierarchy_of_two_equal_keys_keeps_the_first_left() {
    for _ in 0..20 {
        let node = BVHNode::new(&[cube(7, 3, 4), cube(8, 3, 9)]);
        assert_eq!(leaf_id(&node.left), Some(7));
        assert_eq!(leaf_id(&node.right), Some(8));
    }
}

#[test]
fn hierarchy_of_three_objects_splits_after_the_lowest() {
    for _ in 0..20 {
        let node = BVHNode::new(&[cube(2, 20, 21), cube(0, 0, 1), cube(1, 10, 11)]);
        match (&node.left, &node.right) {
            (BVHChild::Node(l), BVHChild::Node(r)) => {
                assert_eq!(leaf_id(&l.left), Some(0));
                assert_eq!(leaf_id(&l.right), Some(0));
                assert_eq!(leaf_id(&r.left), Some(1));
                assert_eq!(leaf_id(&r.right), Some(2));
                assert!(corner_eq(&l.bounding_box.maximum, (1, 1, 1)));
                assert!(corner_eq(&r.bounding_box.minimum, (10, 10, 10)));
                assert!(corner_eq(&r.bounding_box.maximum, (21, 21, 21)));
            }
            _ => panic!("both children of the root must be nodes"),
        }
        assert!(corner_eq(&node.bounding_box.minimum, (0, 0, 0)));
        assert!(corner_eq(&node.bounding_box.maximum, (21, 21, 21)));
    }
}

#[test]
fn hierarchy_holds_every_object_and_nests_its_boxes() {
    let mut objects = Vec::new();
    let lows = [40, -3, 17, 8, 99, 23, -50, 61, 5, 30, 12];
    for (id, low) in lows.iter().enumerate() {
        objects.push(SceneObject::new(
            id,
            Some(AABB::new(
                Corner::new(*low, 100 - *low, (*low * 7) % 13),
                Corner::new(*low + 4, 103 - *low, (*low * 7) % 13 + 2),
            )),
        ));
    }
    for _ in 0..10 {
        let node = BVHNode::new(&objects);
        let mut ids = Vec::new();
        collect(&node.left, &mut ids);
        collect(&node.right, &mut ids);
        ids.sort();
        ids.dedup();
        assert_eq!(ids, (0..lows.len()).collect::<Vec<usize>>());
        assert!(boxes_nest(&node));
        let whole = HittableList { objects: objects.clone() }.bounding_box().unwrap();
        assert!(corner_eq(
            &node.bounding_box.minimum,
            (whole.minimum.x, whole.minimum.y, whole.minimum.z)
        ));
        assert!(corner_eq(
            &node.bounding_box.maximum,
            (whole.maximum.x, whole.maximum.y, whole.maximum.z)
        ));
    }
}

#[test]
fn hierarchy_halves_are_split_at_the_middle() {
    let mut objects = Vec::new();
    for id in [6usize, 1, 4, 0, 5, 3, 2] {
        objects.push(cube(id, 10 * id as i32, 10 * id as i32 + 1));
    }
    for _ in 0..10 {
        let node = BVHNode::new(&objects);
        let mut lower = Vec::new();
        collect(&node.left, &mut lower);
        let mut upper = Vec::new();
        collect(&node.right, &mut upper);
        assert_eq!(lower, vec![0, 0, 1, 2]);
        assert_eq!(upper, vec![3, 4, 5, 6]);
    }
}

#[test]
fn hierarchy_over_two_disjoint_boxes_has_both_nearer_first() {
    let near = SceneObject::new(
        0,
        Some(AABB::new(Corner::new(-5, -5, -15), Corner::new(5, 5, -5))),
    );
    let far = SceneObject::new(
        1,
        Some(AABB::new(Corner::new(15, 15, -5), Corner::new(25, 25, -3))),
    );
    let mut list = HittableList::from(far);
    list.add(near);
    let node = BVHNode::from(&list);
    assert_eq!(leaf_id(&node.left), Some(0));
    assert_eq!(leaf_id(&node.right), Some(1));
    assert!(corner_eq(&node.bounding_box.minimum, (-5, -5, -15)));
    assert!(corner_eq(&node.bounding_box.maximum, (25, 25, -3)));
}

fn slab(t0: i32, t1: i32, reversed: bool) -> Slab {
    Slab { t0, t1, reversed }
}

#[test]
fn slab_test_passes_where_the_slabs_overlap() {
    let slabs = [slab(2, 10, false), slab(4, 12, false), slab(0, 8, false)];
    assert!(AABB::hit(&slabs, 0, 100));
    assert!(AABB::hit(&slabs, 5, 6));
    assert!(AABB::hit(&slabs, 7, 100));
    assert!(!AABB::hit(&slabs, 8, 100));
    assert!(!AABB::hit(&slabs, 0, 4));
    assert!(AABB::hit(&slabs, 0, 5));
}

#[test]
fn slab_test_fails_where_one_slab_lies_apart() {
    let slabs = [slab(2, 10, false), slab(11, 12, false), slab(0, 8, false)];
    assert!(!AABB::hit(&slabs, 0, 100));
    let touching = [slab(2, 10, false), slab(10, 12, false), slab(0, 80, false)];
    assert!(!AABB::hit(&touching, 0, 100));
}

#[test]
fn slab_test_swaps_a_reversed_slab() {
    let slabs = [slab(10, 2, true), slab(12, 4, true), slab(0, 8, false)];
    assert!(AABB::hit(&slabs, 0, 100));
    let unswapped = [slab(10, 2, false), slab(4, 12, false), slab(0, 8, false)];
    assert!(!AABB::hit(&unswapped, 0, 100));
}

#[test]
fn slab_test_needs_a_proper_interval() {
    let slabs = [slab(-50, 50, false), slab(-50, 50, false), slab(-50, 50, false)];
    assert!(AABB::hit(&slabs, 0, 1));
    assert!(!AABB::hit(&slabs, 1, 1));
    assert!(!AABB::hit(&slabs, 2, 1));
    assert!(AABB::hit(&slabs, i32::MIN, i32::MAX));
}

#[test]
fn nearest_root_prefers_the_nearer_root() {
    assert_eq!(nearest_root(5, 15, 1, 100), Some(5));
    assert_eq!(nearest_root(5, 15, 5, 100), Some(15));
    assert_eq!(nearest_root(5, 15, 4, 6), Some(5));
    assert_eq!(nearest_root(-5, 15, 1, 100), Some(15));
}

#[test]
fn nearest_root_rejects_roots_out_of_range() {
    assert_eq!(nearest_root(5, 15, 15, 100), None);
    assert_eq!(nearest_root(5, 15, 1, 5), None);
    assert_eq!(nearest_root(5, 15, 6, 15), None);
    assert_eq!(nearest_root(5, 15, 6, 16), Some(15));
    assert_eq!(nearest_root(-9, -3, 1, 100), None);
    assert_eq!(nearest_root(7, 7, 1, 100), Some(7));
}

#[test]
fn rect_hit_needs_range_and_cover() {
    let r = XYRect::new(0, 10, 20, 30, 5, 4, 6);
    assert_eq!(r.hit(50, 3, 25, 1, 100), Some(50));
    assert_eq!(r.hit(50, 0, 20, 1, 100), Some(50));
    assert_eq!(r.hit(50, 10, 30, 1, 100), Some(50));
    assert_eq!(r.hit(50, 11, 25, 1, 100), None);
    assert_eq!(r.hit(50, -1, 25, 1, 100), None);
    assert_eq!(r.hit(50, 3, 19, 1, 100), None);
    assert_eq!(r.hit(50, 3, 31, 1, 100), None);
    assert_eq!(r.hit(1, 3, 25, 1, 100), None);
    assert_eq!(r.hit(100, 3, 25, 1, 100), None);
    assert_eq!(r.hit(0, 3, 25, 1, 100), None);
    assert_eq!(r.hit(2, 3, 25, 1, 100), Some(2));
    assert_eq!(r.hit(99, 3, 25, 1, 100), Some(99));
}

#[test]
fn rect_boxes_are_thickened_along_the_dropped_axis() {
    let xy = XYRect::new(0, 10, 20, 30, 5, 4, 6).bounding_box().unwrap();
    assert!(corner_eq(&xy.minimum, (0, 20, 4)));
    assert!(corner_eq(&xy.maximum, (10, 30, 6)));
    let xz = XZRect::new(0, 10, 20, 30, 5, 4, 6).bounding_box().unwrap();
    assert!(corner_eq(&xz.minimum, (0, 4, 20)));
    assert!(corner_eq(&xz.maximum, (10, 6, 30)));
    let yz = YZRect::new(0, 10, 20, 30, 5, 4, 6).bounding_box().unwrap();
    assert!(corner_eq(&yz.minimum, (4, 0, 20)));
    assert!(corner_eq(&yz.maximum, (6, 10, 30)));
}

#[test]
fn rects_of_the_other_planes_hit_alike() {
    let xz = XZRect::new(0, 10, 20, 30, 5, 4, 6);
    assert_eq!(xz.hit(9, 10, 20, 8, 10), Some(9));
    assert_eq!(xz.hit(9, 10, 31, 8, 10), None);
    let yz = YZRect::new(0, 10, 20, 30, 5, 4, 6);
    assert_eq!(yz.hit(9, 0, 30, 8, 10), Some(9));
    assert_eq!(yz.hit(10, 0, 30, 8, 10), None);
}

#[test]
fn hierarchy_keeps_the_order_of_equal_keys() {
    let mut objects = Vec::new();
    for id in 0..5usize {
        objects.push(SceneObject::new(
            id,
            Some(AABB::new(Corner::new(1, 1, 1), Corner::new(2 + id as i32, 2, 2))),
        ));
    }
    for _ in 0..10 {
        let node = BVHNode::new(&objects);
        let mut ids = Vec::new();
        collect(&node.left, &mut ids);
        collect(&node.right, &mut ids);
        assert_eq!(ids, vec![0, 1, 2, 2, 3, 4]);
    }
}

fn at(id: usize, x: i32, y: i32, z: i32) -> SceneObject {
    SceneObject::new(id, Some(AABB::new(Corner::new(x, y, z), Corner::new(x + 1, y + 1, z + 1))))
}

#[test]
fn root_orders_two_objects_along_the_given_axis() {
    let a = at(0, 0, 10, 5);
    let b = at(1, 10, 0, 5);
    let node = BVHNode::with_axis(&[a, b], 0);
    assert_eq!((leaf_id(&node.left), leaf_id(&node.right)), (Some(0), Some(1)));
    let node = BVHNode::with_axis(&[a, b], 1);
    assert_eq!((leaf_id(&node.left), leaf_id(&node.right)), (Some(1), Some(0)));
    let node = BVHNode::with_axis(&[a, b], 2);
    assert_eq!((leaf_id(&node.left), leaf_id(&node.right)), (Some(0), Some(1)));
    let node = BVHNode::with_axis(&[b, a], 2);
    assert_eq!((leaf_id(&node.left), leaf_id(&node.right)), (Some(1), Some(0)));
}

#[test]
fn root_splits_along_the_given_axis() {
    let objects = [at(0, 3, 0, 7), at(1, 1, 2, 7), at(2, 2, 1, 7), at(3, 0, 3, 7)];
    let halves = |axis: usize| {
        let node = BVHNode::with_axis(&objects, axis);
        let mut lower = Vec::new();
        collect(&node.left, &mut lower);
        lower.sort();
        let mut upper = Vec::new();
        collect(&node.right, &mut upper);
        upper.sort();
        (lower, upper)
    };
    assert_eq!(halves(0), (vec![1, 3], vec![0, 2]));
    assert_eq!(halves(1), (vec![0, 2], vec![1, 3]));
    assert_eq!(halves(2), (vec![0, 1], vec![2, 3]));
}

#[test]
fn no_hierarchy_without_objects_or_boxes() {
    assert!(BVHNode::try_new(&[]).is_none());
    assert!(BVHNode::try_new(&[SceneObject::new(0, None)]).is_none());
    assert!(BVHNode::try_new(&[cube(0, 1, 2), SceneObject::new(1, None), cube(2, 3, 4)]).is_none());
    assert!(BVHNode::try_new(&[cube(0, 1, 2), cube(1, 3, 4), SceneObject::new(2, None)]).is_none());
    let node = BVHNode::try_new(&[cube(0, 1, 2)]).unwrap();
    assert_eq!(leaf_id(&node.left), Some(0));
    let node = BVHNode::try_new(&[cube(1, 5, 6), cube(0, 1, 2)]).unwrap();
    assert_eq!(leaf_id(&node.left), Some(0));
    assert_eq!(leaf_id(&node.right), Some(1));
}
