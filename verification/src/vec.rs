use core::ops::{Add, AddAssign, Div, Mul, Sub, SubAssign};
use vstd::prelude::*;
use vstd::std_specs::ops::{AddSpecImpl, DivSpecImpl, MulSpecImpl, SubSpecImpl};

verus! {

/// A point or displacement in the plane.
#[derive(Debug, Clone, Copy)]
pub struct Vec2<T> {
    pub x: T,
    pub y: T,
}

impl<T> Vec2<T> {
    pub fn new(x: T, y: T) -> (v: Self)
        ensures
            v.x == x,
            v.y == y,
    {
        Self { x, y }
    }
}

/// `value` can be held in an `i32`.
pub open spec fn fits(value: int) -> bool {
    i32::MIN <= value <= i32::MAX
}

/// The quotient of two integers, rounded towards zero.
pub open spec fn quotient(dividend: int, divisor: int) -> int
    recommends
        divisor != 0,
{
    if dividend >= 0 {
        dividend / divisor
    } else {
        -((-dividend) / divisor)
    }
}

/// The division of `dividend` by `divisor` is defined in `i32`.
pub open spec fn divides(dividend: i32, divisor: i32) -> bool {
    divisor != 0 && !(dividend == i32::MIN && divisor == -1)
}

impl Vec2<i32> {
    /// The dot product, as a mathematical integer.
    pub open spec fn spec_dot(self, other: Self) -> int {
        self.x * other.x + self.y * other.y
    }

    /// The sum of the two components, as a mathematical integer.
    pub open spec fn spec_len(self) -> int {
        self.x + self.y
    }

    /// The componentwise absolute value, as mathematical integers.
    pub open spec fn spec_abs(self) -> (int, int) {
        (
            if self.x < 0 {
                -self.x
            } else {
                self.x as int
            },
            if self.y < 0 {
                -self.y
            } else {
                self.y as int
            },
        )
    }

    /// Both components of `self` lie strictly below those of `other`.
    pub open spec fn spec_all_lt(self, other: Self) -> bool {
        self.x < other.x && self.y < other.y
    }

    pub fn dot(&self, other: &Self) -> (d: i32)
        requires
            fits(self.x * other.x),
            fits(self.y * other.y),
            fits(self.spec_dot(*other)),
        ensures
            d == self.spec_dot(*other),
    {
        (self.x * other.x) + (self.y * other.y)
    }

    pub fn len(&self) -> (l: i32)
        requires
            fits(self.spec_len()),
        ensures
            l == self.spec_len(),
    {
        self.x + self.y
    }

    pub fn abs(&self) -> (a: Self)
        requires
            self.x > i32::MIN,
            self.y > i32::MIN,
        ensures
            (a.x as int, a.y as int) == self.spec_abs(),
    {
        Self {
            x: if self.x < 0 {
                -self.x
            } else {
                self.x
            },
            y: if self.y < 0 {
                -self.y
            } else {
                self.y
            },
        }
    }

    /// Elementwise ordering: whether each component of `self` is strictly
    /// smaller than the same component of `other`.
    pub fn all_lt(&self, other: &Self) -> (b: bool)
        ensures
            b == self.spec_all_lt(*other),
    {
        self.x < other.x && self.y < other.y
    }
}

impl Add for Vec2<i32> {
    type Output = Vec2<i32>;

    fn add(self, other: Vec2<i32>) -> (sum: Vec2<i32>) {
        Vec2 { x: self.x + other.x, y: self.y + other.y }
    }
}

impl AddSpecImpl for Vec2<i32> {
    open spec fn obeys_add_spec() -> bool {
        true
    }

    open spec fn add_req(self, other: Vec2<i32>) -> bool {
        fits(self.x + other.x) && fits(self.y + other.y)
    }

    open spec fn add_spec(self, other: Vec2<i32>) -> Vec2<i32> {
        Vec2 { x: (self.x + other.x) as i32, y: (self.y + other.y) as i32 }
    }
}

impl Sub for Vec2<i32> {
    type Output = Vec2<i32>;

    fn sub(self, other: Vec2<i32>) -> (difference: Vec2<i32>) {
        Vec2 { x: self.x - other.x, y: self.y - other.y }
    }
}

impl SubSpecImpl for Vec2<i32> {
    open spec fn obeys_sub_spec() -> bool {
        true
    }

    open spec fn sub_req(self, other: Vec2<i32>) -> bool {
        fits(self.x - other.x) && fits(self.y - other.y)
    }

    open spec fn sub_spec(self, other: Vec2<i32>) -> Vec2<i32> {
        Vec2 { x: (self.x - other.x) as i32, y: (self.y - other.y) as i32 }
    }
}

impl Sub<i32> for Vec2<i32> {
    type Output = Vec2<i32>;

    fn sub(self, other: i32) -> (difference: Vec2<i32>) {
        Vec2 { x: self.x - other, y: self.y - other }
    }
}

impl SubSpecImpl<i32> for Vec2<i32> {
    open spec fn obeys_sub_spec() -> bool {
        true
    }

    open spec fn sub_req(self, other: i32) -> bool {
        fits(self.x - other) && fits(self.y - other)
    }

    open spec fn sub_spec(self, other: i32) -> Vec2<i32> {
        Vec2 { x: (self.x - other) as i32, y: (self.y - other) as i32 }
    }
}

impl Mul for Vec2<i32> {
    type Output = Vec2<i32>;

    fn mul(self, other: Vec2<i32>) -> (product: Vec2<i32>) {
        Vec2 { x: self.x * other.x, y: self.y * other.y }
    }
}

impl MulSpecImpl for Vec2<i32> {
    open spec fn obeys_mul_spec() -> bool {
        true
    }

    open spec fn mul_req(self, other: Vec2<i32>) -> bool {
        fits(self.x * other.x) && fits(self.y * other.y)
    }

    open spec fn mul_spec(self, other: Vec2<i32>) -> Vec2<i32> {
        Vec2 { x: (self.x * other.x) as i32, y: (self.y * other.y) as i32 }
    }
}

impl Mul<i32> for Vec2<i32> {
    type Output = Vec2<i32>;

    fn mul(self, other: i32) -> (product: Vec2<i32>) {
        Vec2 { x: self.x * other, y: self.y * other }
    }
}

impl MulSpecImpl<i32> for Vec2<i32> {
    open spec fn obeys_mul_spec() -> bool {
        true
    }

    open spec fn mul_req(self, other: i32) -> bool {
        fits(self.x * other) && fits(self.y * other)
    }

    open spec fn mul_spec(self, other: i32) -> Vec2<i32> {
        Vec2 { x: (self.x * other) as i32, y: (self.y * other) as i32 }
    }
}

impl Div for Vec2<i32> {
    type Output = Vec2<i32>;

    fn div(self, other: Vec2<i32>) -> (ratio: Vec2<i32>) {
        Vec2 { x: self.x / other.x, y: self.y / other.y }
    }
}

impl DivSpecImpl for Vec2<i32> {
    open spec fn obeys_div_spec() -> bool {
        true
    }

    open spec fn div_req(self, other: Vec2<i32>) -> bool {
        divides(self.x, other.x) && divides(self.y, other.y)
    }

    open spec fn div_spec(self, other: Vec2<i32>) -> Vec2<i32> {
        Vec2 {
            x: quotient(self.x as int, other.x as int) as i32,
            y: quotient(self.y as int, other.y as int) as i32,
        }
    }
}

impl Div<i32> for Vec2<i32> {
    type Output = Vec2<i32>;

    fn div(self, other: i32) -> (ratio: Vec2<i32>) {
        Vec2 { x: self.x / other, y: self.y / other }
    }
}

impl DivSpecImpl<i32> for Vec2<i32> {
    open spec fn obeys_div_spec() -> bool {
        true
    }

    open spec fn div_req(self, other: i32) -> bool {
        divides(self.x, other) && divides(self.y, other)
    }

    open spec fn div_spec(self, other: i32) -> Vec2<i32> {
        Vec2 {
            x: quotient(self.x as int, other as int) as i32,
            y: quotient(self.y as int, other as int) as i32,
        }
    }
}

impl AddAssign for Vec2<i32> {
    fn add_assign(&mut self, other: Vec2<i32>)
        requires
            fits(old(self).x + other.x),
            fits(old(self).y + other.y),
        ensures
            final(self).x == old(self).x + other.x,
            final(self).y == old(self).y + other.y,
    {
        self.x = self.x + other.x;
        self.y = self.y + other.y;
    }
}

impl AddAssign<i32> for Vec2<i32> {
    fn add_assign(&mut self, other: i32)
        requires
            fits(old(self).x + other),
            fits(old(self).y + other),
        ensures
            final(self).x == old(self).x + other,
            final(self).y == old(self).y + other,
    {
        self.x = self.x + other;
        self.y = self.y + other;
    }
}

impl SubAssign for Vec2<i32> {
    fn sub_assign(&mut self, other: Vec2<i32>)
        requires
            fits(old(self).x - other.x),
            fits(old(self).y - other.y),
        ensures
            final(self).x == old(self).x - other.x,
            final(self).y == old(self).y - other.y,
    {
        self.x = self.x - other.x;
        self.y = self.y - other.y;
    }
}

impl SubAssign<i32> for Vec2<i32> {
    fn sub_assign(&mut self, other: i32)
        requires
            fits(old(self).x - other),
            fits(old(self).y - other),
        ensures
            final(self).x == old(self).x - other,
            final(self).y == old(self).y - other,
    {
        self.x = self.x - other;
        self.y = self.y - other;
    }
}

} // verus!
