use vstd::prelude::*;

use crate::vec::Vec2;

verus! {

/// An axis-aligned box given by two opposite corners, both part of the box.
#[derive(Debug, Clone, Copy)]
pub struct AABB<T> {
    pub min: Vec2<T>,
    pub max: Vec2<T>,
}

impl AABB<i32> {
    /// `min` lies below and left of `max`, or on it.
    pub open spec fn wf(&self) -> bool {
        self.min.x <= self.max.x && self.min.y <= self.max.y
    }

    pub open spec fn spec_width(&self) -> int {
        self.max.x - self.min.x
    }

    pub open spec fn spec_height(&self) -> int {
        self.max.y - self.min.y
    }

    /// The two boxes share at least one point; touching edges count.
    pub open spec fn spec_intersects(&self, other: &AABB<i32>) -> bool {
        !(self.max.x < other.min.x || self.min.x > other.max.x || self.max.y < other.min.y
            || self.min.y > other.max.y)
    }

    /// Every point of `self` is a point of `outer`.
    pub open spec fn within(&self, outer: &AABB<i32>) -> bool {
        &&& outer.min.x <= self.min.x
        &&& self.max.x <= outer.max.x
        &&& outer.min.y <= self.min.y
        &&& self.max.y <= outer.max.y
    }

    /// The point with the coordinates `x / scale` and `y / scale` lies in
    /// the box. With a positive `scale` this speaks of every point whose
    /// coordinates are fractions.
    pub open spec fn holds_point(&self, x: int, y: int, scale: int) -> bool {
        &&& self.min.x * scale <= x <= self.max.x * scale
        &&& self.min.y * scale <= y <= self.max.y * scale
    }

    /// The box with corner `(x, y)` that extends `width` to the right and
    /// `height` upwards.
    pub fn new(x: i32, y: i32, width: i32, height: i32) -> (b: Self)
        requires
            i32::MIN <= x + width <= i32::MAX,
            i32::MIN <= y + height <= i32::MAX,
        ensures
            b.min.x == x,
            b.min.y == y,
            b.max.x == x + width,
            b.max.y == y + height,
            b.wf() <==> width >= 0 && height >= 0,
    {
        Self { min: Vec2::new(x, y), max: Vec2::new(x + width, y + height) }
    }

    pub fn width(&self) -> (w: i32)
        requires
            i32::MIN <= self.spec_width() <= i32::MAX,
        ensures
            w == self.spec_width(),
    {
        self.max.x - self.min.x
    }

    pub fn height(&self) -> (h: i32)
        requires
            i32::MIN <= self.spec_height() <= i32::MAX,
        ensures
            h == self.spec_height(),
    {
        self.max.y - self.min.y
    }

    #[verifier::when_used_as_spec(spec_intersects)]
    pub fn intersects(&self, other: &AABB<i32>) -> (hit: bool)
        ensures
            hit == self.spec_intersects(other),
    {
        !(self.max.x < other.min.x || self.min.x > other.max.x || self.max.y < other.min.y
            || self.min.y > other.max.y)
    }

    /// Whether `self` lies inside `outer`, edges included.
    pub fn is_within(&self, outer: &AABB<i32>) -> (inside: bool)
        ensures
            inside == self.within(outer),
    {
        outer.min.x <= self.min.x && self.max.x <= outer.max.x && outer.min.y <= self.min.y
            && self.max.y <= outer.max.y
    }
}

/// Two boxes that hold a common point intersect. So the boxes around two
/// shapes that overlap intersect, as long as each box holds all of its
/// shape.
pub proof fn lemma_common_point_intersects(a: AABB<i32>, b: AABB<i32>, x: int, y: int, scale: int)
    requires
        scale > 0,
        a.holds_point(x, y, scale),
        b.holds_point(x, y, scale),
    ensures
        a.spec_intersects(&b),
{
    assert(a.min.x <= b.max.x) by (nonlinear_arith)
        requires
            scale > 0,
            a.min.x * scale <= x <= b.max.x * scale,
    ;
    assert(b.min.x <= a.max.x) by (nonlinear_arith)
        requires
            scale > 0,
            b.min.x * scale <= x <= a.max.x * scale,
    ;
    assert(a.min.y <= b.max.y) by (nonlinear_arith)
        requires
            scale > 0,
            a.min.y * scale <= y <= b.max.y * scale,
    ;
    assert(b.min.y <= a.max.y) by (nonlinear_arith)
        requires
            scale > 0,
            b.min.y * scale <= y <= a.max.y * scale,
    ;
}

} // verus!
