use vstd::laws_eq::obeys_concrete_eq;
use vstd::prelude::*;

use crate::vec::Vec2;

verus! {

/// How two overlapping shapes are to be pushed apart.
#[derive(Debug)]
pub struct Contact<T> {
    pub penetration_depth: T,
    pub normal: Vec2<T>,
}

/// A contact together with the two bodies it was found between.
#[derive(Debug)]
pub struct Collision<T, Handle> {
    pub contact: Contact<T>,
    pub pair: CollisionPair<Handle>,
}

/// Two handles whose boxes overlap.
#[derive(Debug, Clone, Copy, PartialEq, Eq, Hash)]
pub struct CollisionPair<Handle> {
    pub a: Handle,
    pub b: Handle,
}

/// `x` and `y` are `a` and `b`, in either order.
pub open spec fn joined<Handle: PartialEq + Copy>(
    x: Handle,
    y: Handle,
    a: Handle,
    b: Handle,
) -> bool {
    (x == a && y == b) || (x == b && y == a)
}

impl<Handle: PartialEq + Copy> CollisionPair<Handle> {
    /// The two pairs name the same two handles, in either order.
    pub open spec fn spec_same_pair(&self, other: &CollisionPair<Handle>) -> bool {
        joined(self.a, self.b, other.a, other.b)
    }

    #[verifier::when_used_as_spec(spec_same_pair)]
    pub fn same_pair(&self, other: &CollisionPair<Handle>) -> (same: bool)
        requires
            obeys_concrete_eq::<Handle>(),
        ensures
            same == self.spec_same_pair(other),
    {
        proof {
            reveal(obeys_concrete_eq);
        }
        (self.a == other.a && self.b == other.b) || (self.a == other.b && self.b == other.a)
    }
}

} // verus!
