use phusis::collision::CollisionPair;
use phusis::quad_tree::{Node, QuadTree, MAX_CHILDREN, MAX_DEPTH};
use phusis::shape::AABB;
use phusis::world::broad::{BroadPhase, BroadPhaseElement};
use phusis::world::BodyHandle;

fn handle(index: usize) -> BodyHandle {
    BodyHandle { index, generation: 0 }
}

fn element(index: usize, x: i32, y: i32, width: i32, height: i32) -> BroadPhaseElement<BodyHandle> {
    BroadPhaseElement { aabb: AABB::new(x, y, width, height), handle: handle(index) }
}

fn quadrant_lens(tree: &QuadTree<BodyHandle>) -> (usize, usize, usize, usize) {
    match tree.node() {
        Node::Branch { top_left, top_right, bottom_left, bottom_right, .. } => {
            (top_left.len(), top_right.len(), bottom_left.len(), bottom_right.len())
        },
        Node::Leaf(_) => panic!("the tree is a single leaf"),
    }
}

fn own_len(tree: &QuadTree<BodyHandle>) -> usize {
    match tree.node() {
        Node::Branch { elements, .. } => elements.len(),
        Node::Leaf(elements) => elements.len(),
    }
}

fn names(pairs: &[CollisionPair<BodyHandle>], a: usize, b: usize) -> bool {
    pairs.iter().any(|pair| {
        (pair.a == handle(a) && pair.b == handle(b)) || (pair.a == handle(b) && pair.b == handle(a))
    })
}

/// Sixteen elements in each quadrant of the region from (-10, -10) to
/// (10, 10), none of them on a centre line.
fn four_quadrants() -> (QuadTree<BodyHandle>, Vec<BroadPhaseElement<BodyHandle>>) {
    let mut tree = QuadTree::new(0, AABB::new(-10, -10, 20, 20));
    let mut elements = vec![];
    let length = MAX_CHILDREN * 4;
    for i in 0..length {
        let x = if (i / (length / 4)) % 2 == 0 { -8 } else { 4 };
        let y = if i / (length / 2) == 0 { -8 } else { 4 };
        let e = element(i, x, y, 2, 2);
        tree.insert(e);
        elements.push(e);
    }
    (tree, elements)
}

#[test]
fn it_inserts_maximum_children() {
    let mut tree = QuadTree::new(0, AABB::new(-1, -1, 2, 2));
    for i in 0..MAX_CHILDREN {
        tree.insert(element(i, 0, 0, 1, 1));
    }
    assert!(tree.node().is_leaf());
    assert_eq!(own_len(&tree), MAX_CHILDREN);
    assert_eq!(tree.len(), MAX_CHILDREN);
}

#[test]
fn one_more_than_the_capacity_splits_the_leaf() {
    let mut tree = QuadTree::new(0, AABB::new(-1, -1, 2, 2));
    for i in 0..MAX_CHILDREN {
        tree.insert(element(i, 0, 0, 1, 1));
        assert!(tree.node().is_leaf());
    }
    tree.insert(element(MAX_CHILDREN, 0, 0, 1, 1));
    assert!(tree.node().is_branch());
    assert_eq!(tree.len(), MAX_CHILDREN + 1);
}

#[test]
fn a_leaf_at_the_maximum_depth_is_never_split() {
    let mut tree = QuadTree::new(MAX_DEPTH, AABB::new(0, 0, 100, 100));
    for i in 0..(3 * MAX_CHILDREN) {
        tree.insert(element(i, 10, 10, 1, 1));
    }
    assert!(tree.node().is_leaf());
    assert_eq!(tree.len(), 3 * MAX_CHILDREN);
}

#[test]
fn limits_can_be_chosen() {
    let mut tree = QuadTree::with_limits(0, AABB::new(0, 0, 100, 100), 1, 2);
    tree.insert(element(0, 10, 10, 1, 1));
    tree.insert(element(1, 11, 11, 1, 1));
    assert!(tree.node().is_leaf());
    tree.insert(element(2, 12, 12, 1, 1));
    assert!(tree.node().is_branch());
    // the children stand at the maximum depth and keep all three
    assert_eq!(quadrant_lens(&tree), (3, 0, 0, 0));
    match tree.node() {
        Node::Branch { top_left, .. } => assert!(top_left.node().is_leaf()),
        Node::Leaf(_) => panic!("the tree is a single leaf"),
    }
}

#[test]
fn it_splits_into_quadrants() {
    let (tree, _) = four_quadrants();
    assert_eq!(own_len(&tree), 0);
    assert_eq!(
        quadrant_lens(&tree),
        (MAX_CHILDREN, MAX_CHILDREN, MAX_CHILDREN, MAX_CHILDREN)
    );
    assert_eq!(tree.len(), 4 * MAX_CHILDREN);
}

#[test]
fn it_removes_body() {
    let (mut tree, elements) = four_quadrants();
    for e in elements.iter().filter(|e| e.aabb.min.x == -8 && e.aabb.min.y == -8) {
        tree.remove(*e);
    }
    assert_eq!(own_len(&tree), 0);
    assert_eq!(quadrant_lens(&tree), (0, MAX_CHILDREN, MAX_CHILDREN, MAX_CHILDREN));
}

#[test]
fn children_are_the_four_quarters_in_order() {
    let (tree, _) = four_quadrants();
    let regions = tree.get_node_aabb();
    assert_eq!(regions.len(), 5);
    let corners: Vec<(i32, i32, i32, i32)> =
        regions.iter().map(|r| (r.min.x, r.min.y, r.max.x, r.max.y)).collect();
    assert_eq!(
        corners,
        vec![
            (-10, -10, 10, 10),
            (-10, -10, 0, 0),
            (0, -10, 10, 0),
            (-10, 0, 0, 10),
            (0, 0, 10, 10)
        ]
    );
}

#[test]
fn an_element_across_a_centre_line_stays_at_the_branch() {
    let (mut tree, _) = four_quadrants();
    tree.insert(element(100, -1, -8, 2, 2));
    assert_eq!(own_len(&tree), 1);
    assert_eq!(
        quadrant_lens(&tree),
        (MAX_CHILDREN, MAX_CHILDREN, MAX_CHILDREN, MAX_CHILDREN)
    );
}

#[test]
fn an_element_that_touches_a_centre_line_stays_at_the_branch() {
    let (mut tree, _) = four_quadrants();
    // its right edge lies on the line x = 0, which both left and right quarters own
    tree.insert(element(100, -2, -8, 2, 2));
    assert_eq!(own_len(&tree), 1);
}

#[test]
fn an_element_that_sticks_out_of_the_region_stays_at_the_branch() {
    let (mut tree, _) = four_quadrants();
    tree.insert(element(100, -11, -8, 2, 2));
    assert_eq!(own_len(&tree), 1);
    assert_eq!(tree.len(), 4 * MAX_CHILDREN + 1);
}

#[test]
fn an_element_outside_the_region_is_not_stored() {
    let mut tree = QuadTree::new(0, AABB::new(0, 0, 10, 10));
    tree.insert(element(0, 20, 20, 1, 1));
    assert_eq!(tree.len(), 0);
    assert!(tree.is_empty());
    // and removing it again is no error
    tree.remove(element(0, 20, 20, 1, 1));
    assert!(tree.is_empty());
}

#[test]
fn the_strip_that_halving_leaves_over_belongs_to_the_branch() {
    // width 5 halves to 2: the quarters end at 4, the region at 5
    let mut tree = QuadTree::with_limits(0, AABB::new(0, 0, 5, 5), 4, 1);
    tree.insert(element(0, 1, 1, 0, 0));
    tree.insert(element(1, 5, 5, 0, 0));
    assert!(tree.node().is_branch());
    assert_eq!(own_len(&tree), 1);
    assert_eq!(quadrant_lens(&tree), (1, 0, 0, 0));
    assert_eq!(tree.check(AABB::new(5, 5, 0, 0)), vec![handle(1)]);
}

#[test]
fn overlapping_boxes_are_reported_once() {
    let mut tree = QuadTree::new(0, AABB::new(0, 0, 100, 100));
    tree.insert(element(1, 10, 10, 10, 10));
    tree.insert(element(2, 15, 15, 10, 10));
    tree.insert(element(3, 60, 60, 5, 5));
    let pairs = tree.check_collisions();
    assert_eq!(pairs.len(), 1);
    assert!(names(&pairs, 1, 2));
}

#[test]
fn boxes_that_touch_are_reported() {
    let mut tree = QuadTree::new(0, AABB::new(0, 0, 100, 100));
    tree.insert(element(1, 10, 10, 10, 10));
    tree.insert(element(2, 20, 20, 10, 10));
    let pairs = tree.check_collisions();
    assert_eq!(pairs.len(), 1);
    assert!(names(&pairs, 1, 2));
}

#[test]
fn disjoint_boxes_are_not_reported() {
    let mut tree = QuadTree::new(0, AABB::new(0, 0, 100, 100));
    tree.insert(element(1, 10, 10, 10, 10));
    tree.insert(element(2, 21, 10, 10, 10));
    assert!(tree.check_collisions().is_empty());
}

#[test]
fn pairs_across_the_levels_of_a_split_tree_are_reported() {
    let (mut tree, _) = four_quadrants();
    // every element of the first quarter lies at (-8, -8) .. (-6, -6)
    let straddler = element(100, -7, -7, 10, 2);
    tree.insert(straddler);
    assert_eq!(own_len(&tree), 1);
    let pairs = tree.check_collisions();
    for i in 0..MAX_CHILDREN {
        assert!(names(&pairs, 100, i));
    }
    // the second quarter's elements lie at (4, -8) .. (6, -6); the straddler ends at x = 3
    for i in MAX_CHILDREN..(2 * MAX_CHILDREN) {
        assert!(!names(&pairs, 100, i));
    }
    // within one quarter all sixteen coincide: 16 * 15 / 2 pairs in each
    assert_eq!(pairs.len(), 4 * (MAX_CHILDREN * (MAX_CHILDREN - 1) / 2) + MAX_CHILDREN);
}

#[test]
fn no_pair_is_reported_twice() {
    let (tree, _) = four_quadrants();
    let pairs = tree.check_collisions();
    for (i, p) in pairs.iter().enumerate() {
        for q in &pairs[(i + 1)..] {
            assert!(!p.same_pair(q));
        }
    }
}

#[test]
fn brute_force_agrees_with_the_tree() {
    let mut tree = QuadTree::with_limits(0, AABB::new(0, 0, 64, 64), 4, 2);
    let mut elements = vec![];
    let mut seed: u32 = 12345;
    for i in 0..60 {
        seed = seed.wrapping_mul(1664525).wrapping_add(1013904223);
        let x = ((seed >> 8) % 60) as i32;
        seed = seed.wrapping_mul(1664525).wrapping_add(1013904223);
        let y = ((seed >> 8) % 60) as i32;
        seed = seed.wrapping_mul(1664525).wrapping_add(1013904223);
        let w = ((seed >> 8) % 6) as i32;
        seed = seed.wrapping_mul(1664525).wrapping_add(1013904223);
        let h = ((seed >> 8) % 6) as i32;
        let e = element(i, x, y, w, h);
        tree.insert(e);
        elements.push(e);
    }
    let pairs = tree.check_collisions();
    let mut expected = 0;
    for (i, a) in elements.iter().enumerate() {
        for b in &elements[(i + 1)..] {
            let hit = a.aabb.intersects(&b.aabb);
            assert_eq!(names(&pairs, a.handle.index, b.handle.index), hit);
            if hit {
                expected += 1;
            }
        }
    }
    assert_eq!(pairs.len(), expected);
    // and the same after half of them have left
    for e in elements.iter().take(30) {
        tree.remove(*e);
    }
    tree.clean_up();
    let pairs = tree.check_collisions();
    let mut expected = 0;
    for (i, a) in elements.iter().enumerate().skip(30) {
        for b in &elements[(i + 1)..] {
            let hit = a.aabb.intersects(&b.aabb);
            assert_eq!(names(&pairs, a.handle.index, b.handle.index), hit);
            if hit {
                expected += 1;
            }
        }
    }
    assert_eq!(pairs.len(), expected);
    assert_eq!(tree.len(), 30);
}

#[test]
fn check_finds_what_a_query_reaches() {
    let (mut tree, _) = four_quadrants();
    tree.insert(element(100, -1, -1, 2, 2));
    let mut found = tree.check(AABB::new(-9, -9, 2, 2));
    found.sort_by_key(|h| h.index);
    let expected: Vec<BodyHandle> = (0..MAX_CHILDREN).map(handle).collect();
    assert_eq!(found, expected);
    assert_eq!(tree.check(AABB::new(0, 0, 0, 0)), vec![handle(100)]);
    assert!(tree.check(AABB::new(-3, 7, 1, 1)).is_empty());
}

#[test]
fn check_finds_an_element_by_the_part_outside_the_region() {
    let mut tree = QuadTree::new(0, AABB::new(0, 0, 10, 10));
    tree.insert(element(7, 8, 8, 10, 10));
    assert_eq!(tree.check(AABB::new(15, 15, 1, 1)), vec![handle(7)]);
}

#[test]
fn check_names_a_handle_once() {
    let mut tree = QuadTree::new(0, AABB::new(0, 0, 10, 10));
    tree.insert(element(7, 1, 1, 2, 2));
    tree.insert(element(7, 2, 2, 2, 2));
    assert_eq!(tree.check(AABB::new(0, 0, 10, 10)), vec![handle(7)]);
}

#[test]
fn removal_goes_by_the_handle() {
    let mut tree = QuadTree::new(0, AABB::new(0, 0, 10, 10));
    tree.insert(element(1, 1, 1, 2, 2));
    tree.insert(element(2, 1, 1, 2, 2));
    tree.insert(element(3, 1, 1, 2, 2));
    tree.remove(element(2, 1, 1, 2, 2));
    let mut left = tree.check(AABB::new(0, 0, 10, 10));
    left.sort_by_key(|h| h.index);
    assert_eq!(left, vec![handle(1), handle(3)]);
}

#[test]
fn clear_leaves_an_empty_leaf() {
    let (mut tree, _) = four_quadrants();
    tree.clear();
    assert!(tree.node().is_leaf());
    assert!(tree.is_empty());
    assert_eq!(tree.get_node_aabb().len(), 1);
    assert_eq!(tree.bounds().min.x, -10);
    assert_eq!(tree.level(), 0);
}

#[test]
fn clean_up_collapses_empty_branches() {
    let (mut tree, elements) = four_quadrants();
    for e in &elements {
        tree.remove(*e);
    }
    assert!(tree.node().is_branch());
    assert!(tree.is_empty());
    assert!(tree.clean_up());
    assert!(tree.node().is_leaf());
}

#[test]
fn clean_up_keeps_what_is_stored() {
    let (mut tree, elements) = four_quadrants();
    for e in elements.iter().skip(1) {
        tree.remove(*e);
    }
    assert!(!tree.clean_up());
    assert!(tree.node().is_branch());
    assert_eq!(quadrant_lens(&tree), (1, 0, 0, 0));
    assert_eq!(tree.check(AABB::new(-10, -10, 20, 20)), vec![handle(0)]);
}

#[test]
fn clean_up_collapses_below_a_branch_that_stays() {
    let mut tree = QuadTree::with_limits(0, AABB::new(0, 0, 64, 64), 4, 1);
    let a = element(0, 1, 1, 1, 1);
    let b = element(1, 5, 5, 1, 1);
    let c = element(2, 40, 40, 1, 1);
    tree.insert(a);
    tree.insert(b);
    tree.insert(c);
    assert!(tree.get_node_aabb().len() > 5);
    tree.remove(a);
    tree.remove(b);
    assert!(!tree.clean_up());
    assert_eq!(tree.get_node_aabb().len(), 5);
    assert_eq!(quadrant_lens(&tree), (0, 0, 0, 1));
}

#[test]
fn insert_then_remove_restores_the_pairs() {
    let (mut tree, _) = four_quadrants();
    let (other, _) = four_quadrants();
    let extra = element(100, -7, -7, 12, 12);
    tree.insert(extra);
    assert_ne!(tree.check_collisions().len(), other.check_collisions().len());
    tree.remove(extra);
    let with = tree.check_collisions();
    let without = other.check_collisions();
    assert_eq!(with.len(), without.len());
    for p in &without {
        assert!(names(&with, p.a.index, p.b.index));
    }
}

#[test]
fn the_tree_serves_as_a_broad_phase() {
    fn pairs_of<B: BroadPhase<BodyHandle>>(index: &mut B) -> usize {
        index.insert(element(1, 1, 1, 2, 2));
        index.insert(element(2, 2, 2, 2, 2));
        index.insert(element(3, 8, 8, 1, 1));
        index.remove(element(3, 8, 8, 1, 1));
        assert_eq!(BroadPhase::len(index), 2);
        assert!(!BroadPhase::is_empty(index));
        assert_eq!(BroadPhase::check(index, AABB::new(3, 3, 0, 0)).len(), 2);
        let n = BroadPhase::check_collisions(index).len();
        assert!(!BroadPhase::clean_up(index));
        BroadPhase::clear(index);
        assert!(BroadPhase::is_empty(index));
        n
    }
    let mut tree = QuadTree::new(0, AABB::new(0, 0, 10, 10));
    assert_eq!(pairs_of(&mut tree), 1);
}

fn own_handles(tree: &QuadTree<BodyHandle>) -> Vec<usize> {
    match tree.node() {
        Node::Branch { elements, .. } => elements.iter().map(|e| e.handle.index).collect(),
        Node::Leaf(elements) => elements.iter().map(|e| e.handle.index).collect(),
    }
}

#[test]
fn a_leaf_takes_elements_at_the_end_of_its_list() {
    let mut tree = QuadTree::new(0, AABB::new(0, 0, 10, 10));
    for i in 0..5 {
        tree.insert(element(i, 1, 1, 1, 1));
    }
    assert_eq!(own_handles(&tree), vec![0, 1, 2, 3, 4]);
}

#[test]
fn the_last_element_takes_the_place_of_the_one_that_left() {
    let mut tree = QuadTree::new(0, AABB::new(0, 0, 10, 10));
    for i in 0..5 {
        tree.insert(element(i, 1, 1, 1, 1));
    }
    tree.remove(element(1, 1, 1, 1, 1));
    assert_eq!(own_handles(&tree), vec![0, 4, 2, 3]);
    tree.remove(element(3, 1, 1, 1, 1));
    assert_eq!(own_handles(&tree), vec![0, 4, 2]);
}

#[test]
fn of_two_elements_with_one_handle_the_first_leaves() {
    let mut tree = QuadTree::new(0, AABB::new(0, 0, 10, 10));
    tree.insert(element(7, 1, 1, 1, 1));
    tree.insert(element(8, 1, 1, 1, 1));
    tree.insert(element(7, 2, 2, 1, 1));
    tree.remove(element(7, 2, 2, 1, 1));
    match tree.node() {
        Node::Leaf(elements) => {
            assert_eq!(elements.len(), 2);
            assert_eq!((elements[0].handle.index, elements[0].aabb.min.x), (7, 2));
            assert_eq!(elements[1].handle.index, 8);
        },
        Node::Branch { .. } => panic!("the tree was split"),
    }
}

#[test]
fn a_branch_keeps_what_no_quadrant_takes_at_the_end_of_its_list() {
    let (mut tree, _) = four_quadrants();
    tree.insert(element(100, -1, -1, 2, 2));
    tree.insert(element(101, -1, -8, 2, 2));
    assert_eq!(own_handles(&tree), vec![100, 101]);
    tree.remove(element(100, -1, -1, 2, 2));
    assert_eq!(own_handles(&tree), vec![101]);
}

#[test]
fn a_split_continues_below_while_a_leaf_is_too_full() {
    let mut tree = QuadTree::with_limits(0, AABB::new(0, 0, 64, 64), 3, 1);
    tree.insert(element(0, 1, 1, 1, 1));
    tree.insert(element(1, 5, 5, 1, 1));
    // both lie in the first quarter of the first quarter: the tree is split
    // down to the maximum depth, where the two share a leaf
    let regions = tree.get_node_aabb();
    assert_eq!(regions.len(), 13);
    assert_eq!(tree.len(), 2);
    assert_eq!(quadrant_lens(&tree), (2, 0, 0, 0));
}

#[test]
fn any_handle_that_can_be_compared_will_do() {
    let mut tree: QuadTree<u32> = QuadTree::new(0, AABB::new(0, 0, 100, 100));
    tree.insert(BroadPhaseElement { aabb: AABB::new(10, 10, 10, 10), handle: 7 });
    tree.insert(BroadPhaseElement { aabb: AABB::new(15, 15, 10, 10), handle: 8 });
    tree.insert(BroadPhaseElement { aabb: AABB::new(60, 60, 10, 10), handle: 9 });
    let pairs = tree.check_collisions();
    assert_eq!(pairs.len(), 1);
    assert!(pairs[0].same_pair(&CollisionPair { a: 8, b: 7 }));
    tree.remove(BroadPhaseElement { aabb: AABB::new(15, 15, 10, 10), handle: 8 });
    assert!(tree.check_collisions().is_empty());
    let mut found = tree.check(AABB::new(0, 0, 100, 100));
    found.sort();
    assert_eq!(found, vec![7, 9]);
}

#[test]
fn the_limits_of_a_tree_can_be_read() {
    let tree: QuadTree<BodyHandle> = QuadTree::new(3, AABB::new(0, 0, 10, 10));
    assert_eq!((tree.level(), tree.max_depth(), tree.capacity()), (3, MAX_DEPTH, MAX_CHILDREN));
    let tree: QuadTree<BodyHandle> = QuadTree::with_limits(1, AABB::new(0, 0, 10, 10), 5, 2);
    assert_eq!((tree.level(), tree.max_depth(), tree.capacity()), (1, 5, 2));
    let bounds = tree.bounds();
    assert_eq!((bounds.min.x, bounds.min.y, bounds.max.x, bounds.max.y), (0, 0, 10, 10));
}

#[test]
fn the_order_of_insertion_decides_the_tree() {
    let build = || {
        let mut tree = QuadTree::with_limits(0, AABB::new(0, 0, 64, 64), 4, 2);
        for i in 0..40 {
            let x = ((i * 37) % 60) as i32;
            let y = ((i * 11) % 60) as i32;
            tree.insert(element(i, x, y, 2, 2));
        }
        tree
    };
    let one = build();
    let other = build();
    let regions = |tree: &QuadTree<BodyHandle>| -> Vec<(i32, i32, i32, i32)> {
        tree.get_node_aabb().iter().map(|r| (r.min.x, r.min.y, r.max.x, r.max.y)).collect()
    };
    assert_eq!(regions(&one), regions(&other));
    assert_eq!(own_handles(&one), own_handles(&other));
    assert_eq!(quadrant_lens(&one), quadrant_lens(&other));
    assert_eq!(one.len(), 40);
}
