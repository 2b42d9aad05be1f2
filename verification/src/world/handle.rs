use vstd::laws_eq::obeys_concrete_eq;
use vstd::prelude::*;
use vstd::std_specs::cmp::PartialEqSpecImpl;

verus! {

/// Names one body of a world: the slot it occupies and the generation of
/// that slot at the time the body was added.
#[derive(Debug, Clone, Copy, Eq, Hash)]
pub struct BodyHandle {
    pub index: usize,
    pub generation: u64,
}

impl PartialEq for BodyHandle {
    fn eq(&self, other: &BodyHandle) -> (same: bool) {
        self.index == other.index && self.generation == other.generation
    }
}

impl PartialEqSpecImpl for BodyHandle {
    open spec fn obeys_eq_spec() -> bool {
        true
    }

    open spec fn eq_spec(&self, other: &BodyHandle) -> bool {
        self.index == other.index && self.generation == other.generation
    }
}

/// Two handles compare equal exactly if they are the same handle.
pub proof fn law_handles_compare()
    ensures
        obeys_concrete_eq::<BodyHandle>(),
{
    reveal(obeys_concrete_eq);
}

} // verus!
