use phusis::collision::{Collision, CollisionPair, Contact};
use phusis::shape::AABB;
use phusis::world::BodyHandle;
use phusis::Vec2;

#[test]
fn vec2_new_keeps_the_components() {
    let v = Vec2::new(3, -4);
    assert_eq!((v.x, v.y), (3, -4));
    let f = Vec2::new(1.5f32, 2.5f32);
    assert_eq!((f.x, f.y), (1.5, 2.5));
}

#[test]
fn vec2_dot() {
    assert_eq!(Vec2::new(2, 3).dot(&Vec2::new(4, -5)), -7);
    assert_eq!(Vec2::new(0, 0).dot(&Vec2::new(9, 9)), 0);
}

#[test]
fn vec2_len_is_the_sum_of_the_components() {
    assert_eq!(Vec2::new(2, 3).len(), 5);
    assert_eq!(Vec2::new(-2, 3).len(), 1);
}

#[test]
fn vec2_abs() {
    let a = Vec2::new(-2, 3).abs();
    assert_eq!((a.x, a.y), (2, 3));
    let b = Vec2::new(0, -7).abs();
    assert_eq!((b.x, b.y), (0, 7));
}

#[test]
fn vec2_elementwise_order() {
    assert!(Vec2::new(0, 0).all_lt(&Vec2::new(1, 1)));
    assert!(!Vec2::new(0, 2).all_lt(&Vec2::new(1, 1)));
    assert!(!Vec2::new(1, 0).all_lt(&Vec2::new(1, 1)));
}

#[test]
fn aabb_new_adds_the_extent_to_the_corner() {
    let b = AABB::new(-10, -5, 20, 10);
    assert_eq!((b.min.x, b.min.y, b.max.x, b.max.y), (-10, -5, 10, 5));
    assert_eq!(b.width(), 20);
    assert_eq!(b.height(), 10);
}

#[test]
fn aabb_intersects_on_both_axes() {
    let a = AABB::new(0, 0, 10, 10);
    assert!(a.intersects(&AABB::new(5, 5, 10, 10)));
    assert!(a.intersects(&AABB::new(2, 2, 1, 1)));
    assert!(AABB::new(2, 2, 1, 1).intersects(&a));
    // overlap on one axis only
    assert!(!a.intersects(&AABB::new(5, 11, 10, 10)));
    assert!(!a.intersects(&AABB::new(11, 5, 10, 10)));
    assert!(!a.intersects(&AABB::new(-20, 0, 5, 5)));
    assert!(!a.intersects(&AABB::new(0, -20, 5, 5)));
}

#[test]
fn aabb_touching_counts_as_intersecting() {
    let a = AABB::new(0, 0, 10, 10);
    assert!(a.intersects(&AABB::new(10, 0, 5, 5)));
    assert!(a.intersects(&AABB::new(10, 10, 5, 5)));
    assert!(a.intersects(&AABB::new(-5, -5, 5, 5)));
}

#[test]
fn aabb_is_within() {
    let a = AABB::new(0, 0, 10, 10);
    assert!(AABB::new(0, 0, 10, 10).is_within(&a));
    assert!(AABB::new(2, 3, 1, 1).is_within(&a));
    assert!(!AABB::new(2, 3, 9, 1).is_within(&a));
    assert!(!AABB::new(-1, 3, 2, 1).is_within(&a));
}

#[test]
fn a_pair_is_the_same_in_either_order() {
    let a = BodyHandle { index: 1, generation: 0 };
    let b = BodyHandle { index: 2, generation: 0 };
    let c = BodyHandle { index: 2, generation: 1 };
    assert!(CollisionPair { a, b }.same_pair(&CollisionPair { a: b, b: a }));
    assert!(CollisionPair { a, b }.same_pair(&CollisionPair { a, b }));
    assert!(!CollisionPair { a, b }.same_pair(&CollisionPair { a, b: c }));
}

#[test]
fn a_collision_carries_a_contact_of_any_number_type() {
    let a = BodyHandle { index: 1, generation: 0 };
    let b = BodyHandle { index: 2, generation: 0 };
    let collision = Collision {
        contact: Contact { penetration_depth: 5.0f32, normal: Vec2::new(1.0f32, 0.0f32) },
        pair: CollisionPair { a, b },
    };
    assert_eq!(collision.contact.penetration_depth, 5.0);
    assert_eq!(collision.contact.normal.x, 1.0);
    assert_eq!(collision.pair.b, b);
}

#[test]
fn vec2_arithmetic_is_componentwise() {
    let a = Vec2::new(7, -8);
    let b = Vec2::new(2, 3);
    let sum = a + b;
    assert_eq!((sum.x, sum.y), (9, -5));
    let difference = a - b;
    assert_eq!((difference.x, difference.y), (5, -11));
    let product = a * b;
    assert_eq!((product.x, product.y), (14, -24));
    let ratio = a / b;
    assert_eq!((ratio.x, ratio.y), (3, -2));
}

#[test]
fn vec2_arithmetic_with_a_number() {
    let a = Vec2::new(7, -8);
    let difference = a - 2;
    assert_eq!((difference.x, difference.y), (5, -10));
    let product = a * -3;
    assert_eq!((product.x, product.y), (-21, 24));
    let ratio = a / 3;
    assert_eq!((ratio.x, ratio.y), (2, -2));
    let negative = a / -3;
    assert_eq!((negative.x, negative.y), (-2, 2));
}

#[test]
fn vec2_assignment_operators() {
    let mut a = Vec2::new(1, 2);
    a += Vec2::new(10, 20);
    assert_eq!((a.x, a.y), (11, 22));
    a += 1;
    assert_eq!((a.x, a.y), (12, 23));
    a -= Vec2::new(2, 3);
    assert_eq!((a.x, a.y), (10, 20));
    a -= 10;
    assert_eq!((a.x, a.y), (0, 10));
}
