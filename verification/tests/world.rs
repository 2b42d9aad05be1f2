use phusis::collision::CollisionPair;
use phusis::quad_tree::QuadTree;
use phusis::shape::AABB;
use phusis::world::store::BodyRecord;
use phusis::world::{resolution, BodyHandle, PhysicsWorld, Resolution};

fn world() -> PhysicsWorld<QuadTree<BodyHandle>> {
    PhysicsWorld::new(QuadTree::new(0, AABB::new(-1000, -1000, 2000, 2000)))
}

fn body(x: i32, y: i32, width: i32, height: i32) -> BodyRecord {
    BodyRecord { aabb: AABB::new(x, y, width, height), fixed: false, sensor: false }
}

fn joins(pair: &CollisionPair<BodyHandle>, a: BodyHandle, b: BodyHandle) -> bool {
    (pair.a == a && pair.b == b) || (pair.a == b && pair.b == a)
}

#[test]
fn a_new_world_has_no_bodies() {
    let world = world();
    assert!(world.get_body(&BodyHandle { index: 0, generation: 0 }).is_none());
    assert!(world.check_collisions().is_empty());
    assert!(world.broad_phase().is_empty());
}

#[test]
fn a_new_world_empties_its_index() {
    let mut tree = QuadTree::new(0, AABB::new(0, 0, 10, 10));
    tree.insert(phusis::world::broad::BroadPhaseElement {
        aabb: AABB::new(1, 1, 1, 1),
        handle: BodyHandle { index: 9, generation: 9 },
    });
    let world = PhysicsWorld::new(tree);
    assert!(world.broad_phase().is_empty());
}

#[test]
fn add_body_hands_out_distinct_handles() {
    let mut world = world();
    let a = world.add_body(body(0, 0, 10, 10));
    let b = world.add_body(body(50, 50, 10, 10));
    assert_ne!(a, b);
    assert_eq!(world.get_body(&a).unwrap().aabb.min.x, 0);
    assert_eq!(world.get_body(&b).unwrap().aabb.min.x, 50);
    assert_eq!(world.broad_phase().len(), 2);
}

#[test]
fn remove_body_returns_the_body_and_forgets_it() {
    let mut world = world();
    let a = world.add_body(BodyRecord { aabb: AABB::new(1, 2, 3, 4), fixed: true, sensor: false });
    let gone = world.remove_body(&a).unwrap();
    assert_eq!((gone.aabb.min.x, gone.aabb.min.y, gone.aabb.max.x, gone.aabb.max.y), (1, 2, 4, 6));
    assert!(gone.fixed);
    assert!(!gone.sensor);
    assert!(world.get_body(&a).is_none());
    assert!(world.broad_phase().is_empty());
}

#[test]
fn a_stale_handle_is_answered_with_nothing() {
    let mut world = world();
    let a = world.add_body(body(0, 0, 10, 10));
    assert!(world.remove_body(&a).is_some());
    assert!(world.remove_body(&a).is_none());
    assert!(world.get_body(&a).is_none());
    assert!(!world.replace_body(&a, body(5, 5, 1, 1)));
    assert!(!world.update(&a, |b| b));
    assert!(!world.move_body(&a, AABB::new(5, 5, 1, 1)));
    assert!(world.broad_phase().is_empty());
}

#[test]
fn a_freed_slot_gets_a_new_generation() {
    let mut world = world();
    let a = world.add_body(body(0, 0, 10, 10));
    world.remove_body(&a);
    let b = world.add_body(body(20, 20, 10, 10));
    assert_eq!(a.index, b.index);
    assert_ne!(a.generation, b.generation);
    assert!(world.get_body(&a).is_none());
    assert_eq!(world.get_body(&b).unwrap().aabb.min.x, 20);
}

#[test]
fn overlapping_bodies_are_candidates() {
    let mut world = world();
    // two circles of radius 10 around (0, 0) and (15, 0), as boxes
    let a = world.add_body(body(-10, -10, 20, 20));
    let b = world.add_body(body(5, -10, 20, 20));
    let c = world.add_body(body(500, 500, 20, 20));
    let pairs = world.check_collisions();
    assert_eq!(pairs.len(), 1);
    assert!(joins(&pairs[0], a, b));
    assert!(!joins(&pairs[0], a, c));
}

#[test]
fn a_body_added_and_removed_leaves_the_candidates_as_they_were() {
    let mut world = world();
    let a = world.add_body(body(-10, -10, 20, 20));
    let b = world.add_body(body(5, -10, 20, 20));
    let before = world.check_collisions();
    let c = world.add_body(body(0, 0, 20, 20));
    assert_eq!(world.check_collisions().len(), 3);
    world.remove_body(&c);
    let after = world.check_collisions();
    assert_eq!(before.len(), 1);
    assert_eq!(after.len(), 1);
    assert!(joins(&after[0], a, b));
}

#[test]
fn replace_body_files_the_body_anew() {
    let mut world = world();
    let a = world.add_body(body(-10, -10, 20, 20));
    let b = world.add_body(body(500, 500, 20, 20));
    assert!(world.check_collisions().is_empty());
    assert!(world.replace_body(
        &b,
        BodyRecord { aabb: AABB::new(0, 0, 20, 20), fixed: false, sensor: true }
    ));
    let moved = world.get_body(&b).unwrap();
    assert_eq!((moved.aabb.min.x, moved.aabb.max.x), (0, 20));
    assert!(moved.sensor);
    let pairs = world.check_collisions();
    assert_eq!(pairs.len(), 1);
    assert!(joins(&pairs[0], a, b));
    assert_eq!(world.broad_phase().len(), 2);
}

#[test]
fn update_applies_the_mutator() {
    let mut world = world();
    let a = world.add_body(body(-10, -10, 20, 20));
    assert!(world.update(&a, |mut b| {
        b.aabb = AABB::new(100, 100, 20, 20);
        b
    }));
    let moved = world.get_body(&a).unwrap();
    assert_eq!((moved.aabb.min.x, moved.aabb.min.y), (100, 100));
    assert_eq!(world.broad_phase().check(AABB::new(110, 110, 0, 0)), vec![a]);
    assert!(world.broad_phase().check(AABB::new(0, 0, 0, 0)).is_empty());
}

#[test]
fn move_body_spares_fixed_bodies_and_sensors() {
    let mut world = world();
    let fixed =
        world.add_body(BodyRecord { aabb: AABB::new(0, 0, 10, 10), fixed: true, sensor: false });
    let sensor =
        world.add_body(BodyRecord { aabb: AABB::new(20, 0, 10, 10), fixed: false, sensor: true });
    let free = world.add_body(body(40, 0, 10, 10));
    assert!(!world.move_body(&fixed, AABB::new(100, 100, 10, 10)));
    assert!(!world.move_body(&sensor, AABB::new(100, 100, 10, 10)));
    assert!(world.move_body(&free, AABB::new(100, 100, 10, 10)));
    assert_eq!(world.get_body(&fixed).unwrap().aabb.min.x, 0);
    assert_eq!(world.get_body(&sensor).unwrap().aabb.min.x, 20);
    assert_eq!(world.get_body(&free).unwrap().aabb.min.x, 100);
    assert_eq!(world.broad_phase().check(AABB::new(5, 5, 0, 0)), vec![fixed]);
    assert_eq!(world.broad_phase().check(AABB::new(105, 105, 0, 0)), vec![free]);
}

#[test]
fn a_body_outside_the_world_is_kept_but_not_filed() {
    let mut world = PhysicsWorld::new(QuadTree::new(0, AABB::new(0, 0, 10, 10)));
    let a = world.add_body(body(100, 100, 5, 5));
    let b = world.add_body(body(101, 101, 5, 5));
    assert!(world.get_body(&a).is_some());
    assert!(world.broad_phase().is_empty());
    assert!(world.check_collisions().is_empty());
    // moved into the world, it is filed
    assert!(world.move_body(&a, AABB::new(1, 1, 5, 5)));
    assert_eq!(world.broad_phase().len(), 1);
    assert!(world.remove_body(&b).is_some());
    assert!(world.remove_body(&a).is_some());
    assert!(world.broad_phase().is_empty());
}

#[test]
fn resolution_by_the_flags() {
    let free = body(0, 0, 1, 1);
    let fixed = BodyRecord { fixed: true, ..free };
    let sensor = BodyRecord { sensor: true, ..free };
    let fixed_sensor = BodyRecord { fixed: true, sensor: true, ..free };
    assert_eq!(resolution(&free, &free), Resolution::MoveBoth);
    assert_eq!(resolution(&free, &fixed), Resolution::MoveFirst);
    assert_eq!(resolution(&fixed, &free), Resolution::MoveSecond);
    assert_eq!(resolution(&fixed, &fixed), Resolution::Skip);
    assert_eq!(resolution(&sensor, &free), Resolution::Skip);
    assert_eq!(resolution(&free, &sensor), Resolution::Skip);
    assert_eq!(resolution(&fixed, &sensor), Resolution::Skip);
    assert_eq!(resolution(&fixed_sensor, &free), Resolution::Skip);
    assert!(Resolution::MoveBoth.moves_first() && Resolution::MoveBoth.moves_second());
    assert!(Resolution::MoveFirst.moves_first() && !Resolution::MoveFirst.moves_second());
    assert!(!Resolution::MoveSecond.moves_first() && Resolution::MoveSecond.moves_second());
    assert!(!Resolution::Skip.moves_first() && !Resolution::Skip.moves_second());
}

#[test]
fn resolution_of_a_pair_looks_the_bodies_up() {
    let mut world = world();
    let free = world.add_body(body(0, 0, 10, 10));
    let fixed =
        world.add_body(BodyRecord { aabb: AABB::new(5, 0, 10, 10), fixed: true, sensor: false });
    assert_eq!(world.resolution_of(&CollisionPair { a: free, b: fixed }), Resolution::MoveFirst);
    assert_eq!(world.resolution_of(&CollisionPair { a: fixed, b: free }), Resolution::MoveSecond);
    world.remove_body(&fixed);
    assert_eq!(world.resolution_of(&CollisionPair { a: free, b: fixed }), Resolution::Skip);
}

#[test]
fn clean_up_gives_back_the_nodes_of_bodies_that_left() {
    let mut world = world();
    let mut handles = vec![];
    for i in 0..40 {
        handles.push(world.add_body(body(-900 + 40 * i, -900 + 40 * i, 10, 10)));
    }
    assert!(world.get_quad_tree_aabb().len() > 1);
    for h in &handles {
        world.remove_body(h);
    }
    assert!(world.get_quad_tree_aabb().len() > 1);
    assert!(world.clean_up());
    assert_eq!(world.get_quad_tree_aabb().len(), 1);
}

#[test]
fn settle_moves_what_the_resolution_moves() {
    let mut world = world();
    let free = world.add_body(body(0, 0, 10, 10));
    let other = world.add_body(body(5, 0, 10, 10));
    let fixed =
        world.add_body(BodyRecord { aabb: AABB::new(8, 0, 10, 10), fixed: true, sensor: false });
    let sensor =
        world.add_body(BodyRecord { aabb: AABB::new(9, 0, 10, 10), fixed: false, sensor: true });

    let both = CollisionPair { a: free, b: other };
    assert_eq!(
        world.settle(&both, AABB::new(-1, 0, 10, 10), AABB::new(6, 0, 10, 10)),
        Resolution::MoveBoth
    );
    assert_eq!(world.get_body(&free).unwrap().aabb.min.x, -1);
    assert_eq!(world.get_body(&other).unwrap().aabb.min.x, 6);

    let against_fixed = CollisionPair { a: fixed, b: free };
    assert_eq!(
        world.settle(&against_fixed, AABB::new(100, 0, 10, 10), AABB::new(-3, 0, 10, 10)),
        Resolution::MoveSecond
    );
    assert_eq!(world.get_body(&fixed).unwrap().aabb.min.x, 8);
    assert!(world.get_body(&fixed).unwrap().fixed);
    assert_eq!(world.get_body(&free).unwrap().aabb.min.x, -3);

    let with_sensor = CollisionPair { a: other, b: sensor };
    assert_eq!(
        world.settle(&with_sensor, AABB::new(100, 0, 10, 10), AABB::new(200, 0, 10, 10)),
        Resolution::Skip
    );
    assert_eq!(world.get_body(&other).unwrap().aabb.min.x, 6);
    assert_eq!(world.get_body(&sensor).unwrap().aabb.min.x, 9);
    assert!(world.get_body(&sensor).unwrap().sensor);

    let stale = BodyHandle { index: 77, generation: 0 };
    assert_eq!(
        world.settle(&CollisionPair { a: free, b: stale }, AABB::new(50, 0, 1, 1), AABB::new(60, 0, 1, 1)),
        Resolution::Skip
    );
    assert_eq!(world.get_body(&free).unwrap().aabb.min.x, -3);
    assert_eq!(world.broad_phase().len(), 4);
    assert_eq!(world.broad_phase().check(AABB::new(-3, 0, 0, 0)), vec![free]);
}

#[test]
fn only_a_body_that_is_neither_fixed_nor_a_sensor_is_movable() {
    let free = body(0, 0, 1, 1);
    assert!(free.is_movable());
    assert!(!BodyRecord { fixed: true, ..free }.is_movable());
    assert!(!BodyRecord { sensor: true, ..free }.is_movable());
    assert!(!BodyRecord { fixed: true, sensor: true, ..free }.is_movable());
}
