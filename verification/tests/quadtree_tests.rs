//! Tests for the quadtree spatial index.

use std::rc::Rc;
use collide2d::vector::Point2;
use collide2d::primitive::{Circle, AABB2};
use collide2d::quadtree::{QuadTree, TestEntity, SpacialIndex};

fn ten_box() -> AABB2 {
    AABB2::new(Point2::new(-10, 10), Point2::new(10, -10))
}

#[test]
fn quad_tree() {
    let mut qt = QuadTree::<TestEntity>::with_capacity(ten_box(), 2);
    let mut entities = vec![
        Rc::new(TestEntity::new(Point2::new(-8, 8))),
        Rc::new(TestEntity::new(Point2::new(-9, 9))),
        Rc::new(TestEntity::new(Point2::new(2, 9))),
    ];
    for i in 0..entities.len() - 1 {
        qt.insert(&entities[i]);
    }

    assert_eq!(qt.bucket_len(), 2);

    qt.insert(&entities[2]);
    assert_eq!(qt.bucket_len(), 0);
    assert_eq!(qt.is_subdivided(), true);
    assert_eq!(qt.child(1).bucket_len(), 1);
    assert_eq!(qt.child(1).bucket_get(0), entities[2]);
    assert_eq!(qt.child(1).volume(), AABB2::new(Point2::new(0, 10), Point2::new(10, 0)));

    let old_pos = entities[2].get_position();
    Rc::make_mut(&mut entities[2]).pos.x = -2;
    qt.update(&old_pos, &entities[2]);

    assert_eq!(qt.child(0).child(1).bucket_len(), 1);
    assert_eq!(qt.child(0).child(1).bucket_get(0), entities[2]);

    // a circle that stays clear of the whole volume prunes the root
    assert_eq!(qt.get_in_radius(&Circle::new(Point2::new(-13, -13), 4)), None);
    // a circle reaching only the south-west quadrant's boundary finds
    // leaves there, but their buckets are empty
    assert_eq!(
        qt.get_in_radius(&Circle::new(Point2::new(-13, -13), 12)),
        Some(Vec::<Rc<TestEntity>>::new())
    );
    // a circle inside the north-west grandchild reaches the entities
    // kept there
    assert_eq!(
        qt.get_in_radius(&Circle::new(Point2::new(-8, 8), 1)),
        Some(entities.clone().into_iter().take(2).collect::<Vec<Rc<TestEntity>>>())
    );
}

#[test]
fn capacity_trigger_subdivides_once() {
    // three entities in disjoint quadrants of a two-capacity tree force
    // exactly one subdivision
    let mut qt = QuadTree::<TestEntity>::with_capacity(ten_box(), 2);
    let nw = Rc::new(TestEntity::new(Point2::new(-5, 5)));
    let ne = Rc::new(TestEntity::new(Point2::new(5, 5)));
    let se = Rc::new(TestEntity::new(Point2::new(5, -5)));

    assert!(qt.insert(&nw));
    assert!(qt.insert(&ne));
    assert!(!qt.is_subdivided());

    assert!(qt.insert(&se));
    assert!(qt.is_subdivided());
    assert_eq!(qt.bucket_len(), 0);
    for i in 0..4 {
        assert!(!qt.child(i).is_subdivided());
    }
    assert_eq!(qt.child(0).bucket_len(), 1);
    assert_eq!(qt.child(1).bucket_len(), 1);
    assert_eq!(qt.child(2).bucket_len(), 1);
    assert_eq!(qt.child(3).bucket_len(), 0);
    assert_eq!(qt.child(0).bucket_get(0), nw);
    assert_eq!(qt.child(1).bucket_get(0), ne);
    assert_eq!(qt.child(2).bucket_get(0), se);
}

#[test]
fn covering_query_returns_every_entity_once() {
    // corners of the volume sit at squared distance 200 from the
    // origin, and 15 * 15 = 225 strictly encloses them all
    let mut qt = QuadTree::<TestEntity>::with_capacity(ten_box(), 2);
    let e0 = Rc::new(TestEntity::new(Point2::new(-8, 8)));
    let e1 = Rc::new(TestEntity::new(Point2::new(-9, 9)));
    let e2 = Rc::new(TestEntity::new(Point2::new(2, 9)));
    qt.insert(&e0);
    qt.insert(&e1);
    qt.insert(&e2);

    let all = qt.get_in_radius(&Circle::new(Point2::new(0, 0), 15));
    assert_eq!(all, Some(vec![e1.clone(), e0.clone(), e2.clone()]));
}

#[test]
fn query_radius_covering_two_of_three() {
    let mut qt = QuadTree::<TestEntity>::with_capacity(ten_box(), 2);
    let e0 = Rc::new(TestEntity::new(Point2::new(-8, 8)));
    let e1 = Rc::new(TestEntity::new(Point2::new(-9, 9)));
    let e2 = Rc::new(TestEntity::new(Point2::new(2, 9)));
    qt.insert(&e0);
    qt.insert(&e1);
    // the third insertion exceeds the capacity of two and subdivides
    qt.insert(&e2);
    assert!(qt.is_subdivided());

    // a small circle inside the north-west quadrant reaches only the
    // two entities that live there
    let two = qt.get_in_radius(&Circle::new(Point2::new(-5, 5), 2));
    assert_eq!(two, Some(vec![e1.clone(), e0.clone()]));
}

#[test]
fn insert_outside_volume_is_refused() {
    let mut qt = QuadTree::<TestEntity>::with_capacity(ten_box(), 2);
    let far = Rc::new(TestEntity::new(Point2::new(50, 50)));
    assert!(!qt.insert(&far));
    assert_eq!(qt.bucket_len(), 0);
}

#[test]
fn remove_key_misses_return_none() {
    let mut qt = QuadTree::<TestEntity>::with_capacity(ten_box(), 2);
    let e0 = Rc::new(TestEntity::new(Point2::new(1, 1)));
    qt.insert(&e0);

    // inside the volume but not stored
    assert_eq!(qt.remove_key(&Point2::new(2, 2)), None);
    // outside the volume entirely
    assert_eq!(qt.remove_key(&Point2::new(40, 40)), None);
    // the stored entity is still there
    assert_eq!(qt.remove_key(&Point2::new(1, 1)), Some(e0));
    assert_eq!(qt.bucket_len(), 0);
}

#[test]
fn update_requires_a_match() {
    let mut qt = QuadTree::<TestEntity>::with_capacity(ten_box(), 2);
    let e0 = Rc::new(TestEntity::new(Point2::new(1, 1)));
    qt.insert(&e0);

    let moved = Rc::new(TestEntity::new(Point2::new(3, 3)));
    // no entity is stored at the stale position
    assert!(!qt.update(&Point2::new(2, 2), &moved));
    // relocation from the real position succeeds
    assert!(qt.update(&Point2::new(1, 1), &moved));
    assert_eq!(qt.bucket_len(), 1);
    assert_eq!(qt.bucket_get(0), moved);
}

#[test]
fn tiny_volume_keeps_growing_its_bucket() {
    // a one-by-one box cannot split into smaller quadrants, so the
    // bucket absorbs entities beyond the capacity instead
    let mut qt = QuadTree::<TestEntity>::with_capacity(
        AABB2::new(Point2::new(0, 1), Point2::new(1, 0)),
        1,
    );
    let a = Rc::new(TestEntity::new(Point2::new(0, 0)));
    let b = Rc::new(TestEntity::new(Point2::new(1, 1)));
    assert!(qt.insert(&a));
    assert!(qt.insert(&b));
    assert!(!qt.is_subdivided());
    assert_eq!(qt.bucket_len(), 2);
}
