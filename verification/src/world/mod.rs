use generational_arena::Arena;
use vstd::prelude::*;

use crate::collision::CollisionPair;
use crate::quad_tree::pairs::{distinct_pairs, overlapping, reports, two_entries};
use crate::quad_tree::QuadTree;
use crate::shape::aabb::AABB;
use crate::world::broad::{same_reach, stored_alone, BroadPhase, BroadPhaseElement};
use crate::world::store::{
    arena_entries, arena_get, arena_get_mut, arena_insert, arena_new, arena_remove, BodyRecord,
};

pub mod broad;
pub mod handle;
pub mod laws;
pub mod store;

pub use handle::BodyHandle;

verus! {

/// Which of the two bodies of a contact are to be moved by its resolution.
#[derive(Debug, Clone, Copy, PartialEq, Eq, Structural)]
pub enum Resolution {
    /// Neither: the contact is reported and nothing else.
    Skip,
    /// Only the first; the second is immovable.
    MoveFirst,
    /// Only the second; the first is immovable.
    MoveSecond,
    /// Both share the correction.
    MoveBoth,
}

/// The resolution of a contact between two bodies with the given flags: none
/// where a sensor takes part or both bodies are fixed, else every body that
/// is not fixed moves.
pub open spec fn spec_resolution(first: BodyRecord, second: BodyRecord) -> Resolution {
    if first.sensor || second.sensor || (first.fixed && second.fixed) {
        Resolution::Skip
    } else if second.fixed {
        Resolution::MoveFirst
    } else if first.fixed {
        Resolution::MoveSecond
    } else {
        Resolution::MoveBoth
    }
}

impl Resolution {
    pub open spec fn spec_moves_first(&self) -> bool {
        *self == Resolution::MoveFirst || *self == Resolution::MoveBoth
    }

    pub open spec fn spec_moves_second(&self) -> bool {
        *self == Resolution::MoveSecond || *self == Resolution::MoveBoth
    }

    /// Whether the first body of the contact is moved.
    #[verifier::when_used_as_spec(spec_moves_first)]
    pub fn moves_first(&self) -> (moves: bool)
        ensures
            moves == self.spec_moves_first(),
    {
        match self {
            Resolution::MoveFirst => true,
            Resolution::MoveBoth => true,
            _ => false,
        }
    }

    /// Whether the second body of the contact is moved.
    #[verifier::when_used_as_spec(spec_moves_second)]
    pub fn moves_second(&self) -> (moves: bool)
        ensures
            moves == self.spec_moves_second(),
    {
        match self {
            Resolution::MoveSecond => true,
            Resolution::MoveBoth => true,
            _ => false,
        }
    }
}

/// Decides which bodies of a contact its resolution moves.
pub fn resolution(first: &BodyRecord, second: &BodyRecord) -> (decision: Resolution)
    ensures
        decision == spec_resolution(*first, *second),
{
    if first.sensor || second.sensor || (first.fixed && second.fixed) {
        Resolution::Skip
    } else if second.fixed {
        Resolution::MoveFirst
    } else if first.fixed {
        Resolution::MoveSecond
    } else {
        Resolution::MoveBoth
    }
}

/// The bodies after the body under `handle` was moved to the box `aabb`: a
/// live body that is neither fixed nor a sensor has the new box; otherwise
/// nothing changes.
pub open spec fn moved(
    bodies: Map<BodyHandle, BodyRecord>,
    handle: BodyHandle,
    aabb: AABB<i32>,
) -> Map<BodyHandle, BodyRecord> {
    if bodies.contains_key(handle) && bodies[handle].spec_is_movable() {
        bodies.insert(handle, bodies[handle].spec_moved_to(aabb))
    } else {
        bodies
    }
}

/// The resolution of a contact between the bodies of `pair`; none where one
/// of the handles names no body.
pub open spec fn resolution_in(
    bodies: Map<BodyHandle, BodyRecord>,
    pair: CollisionPair<BodyHandle>,
) -> Resolution {
    if bodies.contains_key(pair.a) && bodies.contains_key(pair.b) {
        spec_resolution(bodies[pair.a], bodies[pair.b])
    } else {
        Resolution::Skip
    }
}

/// The bodies after a contact between the bodies of `pair` was resolved and
/// left them under the boxes `first` and `second`: each body that the
/// resolution moves has its new box, the first before the second.
pub open spec fn settled(
    bodies: Map<BodyHandle, BodyRecord>,
    pair: CollisionPair<BodyHandle>,
    first: AABB<i32>,
    second: AABB<i32>,
) -> Map<BodyHandle, BodyRecord> {
    let decision = resolution_in(bodies, pair);
    let half = if decision.spec_moves_first() {
        moved(bodies, pair.a, first)
    } else {
        bodies
    };
    if decision.spec_moves_second() {
        moved(half, pair.b, second)
    } else {
        half
    }
}

/// The index entry of a body: its handle with the box of its record.
pub open spec fn entry_of(handle: BodyHandle, record: BodyRecord) -> BroadPhaseElement<BodyHandle> {
    BroadPhaseElement { aabb: record.aabb, handle }
}

/// The index holds one entry for each body whose box it keeps, and nothing
/// else.
pub open spec fn in_step<Broad: BroadPhase<BodyHandle>>(
    bodies: Map<BodyHandle, BodyRecord>,
    index: Broad,
) -> bool {
    forall|e: BroadPhaseElement<BodyHandle>|
        #[trigger] index.contents().count(e) == if bodies.contains_key(e.handle)
            && bodies[e.handle].aabb == e.aabb && index.keeps(e.aabb) {
            1nat
        } else {
            0nat
        }
}

/// The bodies of a simulation, each under its handle, with the spatial
/// index that is kept in step with them.
pub struct PhysicsWorld<Broad: BroadPhase<BodyHandle>> {
    bodies: Arena<BodyRecord>,
    broad_phase: Broad,
}

impl<Broad: BroadPhase<BodyHandle>> View for PhysicsWorld<Broad> {
    type V = Map<BodyHandle, BodyRecord>;

    /// The live bodies, each under its handle.
    closed spec fn view(&self) -> Map<BodyHandle, BodyRecord> {
        arena_entries(self.bodies)
    }
}

impl<Broad: BroadPhase<BodyHandle>> PhysicsWorld<Broad> {
    /// The spatial index of the world.
    pub closed spec fn index(&self) -> Broad {
        self.broad_phase
    }

    /// The invariant of the world: a valid index in step with the bodies.
    pub open spec fn wf(&self) -> bool {
        &&& self.index().valid()
        &&& in_step(self@, self.index())
    }

    /// The bodies under `a` and `b` are two live bodies whose boxes share a
    /// point and are both kept by the index.
    pub open spec fn colliding(&self, a: BodyHandle, b: BodyHandle) -> bool {
        &&& a != b
        &&& self@.contains_key(a)
        &&& self@.contains_key(b)
        &&& self.index().keeps(self@[a].aabb)
        &&& self.index().keeps(self@[b].aabb)
        &&& self@[a].aabb.spec_intersects(&self@[b].aabb)
    }

    /// What adding `body` does to a world: the body stands under a handle
    /// that named no body before, and the index is in step again.
    pub open spec fn body_added(
        before: Self,
        body: BodyRecord,
        handle: BodyHandle,
        after: Self,
    ) -> bool {
        &&& after.wf()
        &&& !before@.contains_key(handle)
        &&& after@ == before@.insert(handle, body)
        &&& same_reach(after.index(), before.index())
    }

    /// What removing the body under `handle` does to a world.
    pub open spec fn body_removed(before: Self, handle: BodyHandle, after: Self) -> bool {
        &&& after.wf()
        &&& after@ == before@.remove(handle)
        &&& same_reach(after.index(), before.index())
    }

    /// What moving the body under `handle` to the box `aabb` does to a
    /// world: a live body that is neither fixed nor a sensor is filed under
    /// the new box; otherwise the bodies stay as they were.
    pub open spec fn body_moved(
        before: Self,
        handle: BodyHandle,
        aabb: AABB<i32>,
        after: Self,
    ) -> bool {
        &&& after.wf()
        &&& after@ == moved(before@, handle, aabb)
        &&& same_reach(after.index(), before.index())
    }

    /// A world without bodies over the given index, which is emptied.
    pub fn new(broad_phase: Broad) -> (world: Self)
        requires
            broad_phase.valid(),
        ensures
            world.wf(),
            world@.dom() == Set::<BodyHandle>::empty(),
            same_reach(world.index(), broad_phase),
    {
        let mut broad_phase = broad_phase;
        broad_phase.clear();
        let world = Self { bodies: arena_new(), broad_phase };
        assert(in_step(world@, world.index())) by {
            assert forall|e: BroadPhaseElement<BodyHandle>|
                #[trigger] world.index().contents().count(e) == 0nat by {}
        }
        world
    }

    /// The spatial index, to look at.
    pub fn broad_phase(&self) -> (index: &Broad)
        ensures
            *index == self.index(),
    {
        &self.broad_phase
    }

    /// Adds a body and files it in the index. The handle that comes back
    /// names no body that is in the world at the time of the call.
    pub fn add_body(&mut self, body: BodyRecord) -> (handle: BodyHandle)
        requires
            old(self).wf(),
        ensures
            Self::body_added(*old(self), body, handle, *final(self)),
            final(self).index().contents() == if old(self).index().keeps(body.aabb) {
                old(self).index().contents().insert(entry_of(handle, body))
            } else {
                old(self).index().contents()
            },
    {
        let handle = arena_insert(&mut self.bodies, body);
        self.broad_phase.insert(BroadPhaseElement { aabb: body.aabb, handle });
        proof {
            Self::lemma_filed(old(self)@, old(self).index(), self.index(), handle, body);
        }
        handle
    }

    /// Removes the body under `handle` and its index entry, and returns what
    /// was kept of it. A handle that names no body changes nothing.
    pub fn remove_body(&mut self, handle: &BodyHandle) -> (body: Option<BodyRecord>)
        requires
            old(self).wf(),
        ensures
            body == if old(self)@.contains_key(*handle) {
                Some(old(self)@[*handle])
            } else {
                None
            },
            Self::body_removed(*old(self), *handle, *final(self)),
            final(self).index().contents() == if old(self)@.contains_key(*handle) && old(
                self,
            ).index().keeps(old(self)@[*handle].aabb) {
                old(self).index().contents().remove(entry_of(*handle, old(self)@[*handle]))
            } else {
                old(self).index().contents()
            },
    {
        match arena_remove(&mut self.bodies, *handle) {
            Some(body) => {
                let element = BroadPhaseElement { aabb: body.aabb, handle: *handle };
                proof {
                    Self::lemma_stored_alone(old(self)@, old(self).index(), *handle);
                }
                self.broad_phase.remove(element);
                proof {
                    Self::lemma_unfiled(old(self)@, old(self).index(), self.index(), *handle);
                }
                Some(body)
            },
            None => {
                None
            },
        }
    }

    /// What is kept of the body under `handle`, if there is one.
    pub fn get_body(&self, handle: &BodyHandle) -> (body: Option<BodyRecord>)
        ensures
            body == if self@.contains_key(*handle) {
                Some(self@[*handle])
            } else {
                None
            },
    {
        arena_get(&self.bodies, *handle)
    }

    /// The index entry of a live body is stored once, and nothing else in
    /// the index carries its handle.
    proof fn lemma_stored_alone(
        bodies: Map<BodyHandle, BodyRecord>,
        index: Broad,
        handle: BodyHandle,
    )
        requires
            in_step(bodies, index),
            bodies.contains_key(handle),
        ensures
            index.keeps(bodies[handle].aabb) ==> stored_alone(
                index.contents(),
                entry_of(handle, bodies[handle]),
            ),
    {
        let element = entry_of(handle, bodies[handle]);
        if index.keeps(bodies[handle].aabb) {
            assert forall|e: BroadPhaseElement<BodyHandle>| #[trigger]
                index.contents().count(e) > 0 && e.handle == handle implies e == element by {}
        }
    }

    /// Filing the entry of a new body keeps the index in step.
    proof fn lemma_filed(
        bodies: Map<BodyHandle, BodyRecord>,
        before: Broad,
        after: Broad,
        handle: BodyHandle,
        body: BodyRecord,
    )
        requires
            in_step(bodies, before),
            !bodies.contains_key(handle),
            same_reach(after, before),
            after.contents() == if before.keeps(body.aabb) {
                before.contents().insert(entry_of(handle, body))
            } else {
                before.contents()
            },
        ensures
            in_step(bodies.insert(handle, body), after),
    {
        assert forall|e: BroadPhaseElement<BodyHandle>|
            #[trigger] after.contents().count(e) == if bodies.insert(handle, body).contains_key(
                e.handle,
            ) && bodies.insert(handle, body)[e.handle].aabb == e.aabb && after.keeps(e.aabb) {
                1nat
            } else {
                0nat
            } by {}
    }

    /// Taking out the entry of a body that left keeps the index in step.
    proof fn lemma_unfiled(
        bodies: Map<BodyHandle, BodyRecord>,
        before: Broad,
        after: Broad,
        handle: BodyHandle,
    )
        requires
            in_step(bodies, before),
            bodies.contains_key(handle),
            same_reach(after, before),
            after.contents() == if before.keeps(bodies[handle].aabb) {
                before.contents().remove(entry_of(handle, bodies[handle]))
            } else {
                before.contents()
            },
        ensures
            in_step(bodies.remove(handle), after),
    {
        assert forall|e: BroadPhaseElement<BodyHandle>|
            #[trigger] after.contents().count(e) == if bodies.remove(handle).contains_key(e.handle)
                && bodies.remove(handle)[e.handle].aabb == e.aabb && after.keeps(e.aabb) {
                1nat
            } else {
                0nat
            } by {}
    }
}

impl<Broad: BroadPhase<BodyHandle>> PhysicsWorld<Broad> {
    /// Replaces what is kept of the body under `handle` and files it anew:
    /// its old entry leaves the index and the entry for the new box is put
    /// in. Says whether there was such a body; if not, nothing changes.
    pub fn replace_body(&mut self, handle: &BodyHandle, body: BodyRecord) -> (found: bool)
        requires
            old(self).wf(),
        ensures
            final(self).wf(),
            found == old(self)@.contains_key(*handle),
            final(self)@ == if found {
                old(self)@.insert(*handle, body)
            } else {
                old(self)@
            },
            same_reach(final(self).index(), old(self).index()),
    {
        match arena_get_mut(&mut self.bodies, *handle) {
            Some(place) => {
                let ghost before = old(self)@;
                proof {
                    Self::lemma_stored_alone(before, old(self).index(), *handle);
                }
                self.broad_phase.remove(BroadPhaseElement { aabb: place.aabb, handle: *handle });
                let ghost between = self.broad_phase;
                proof {
                    Self::lemma_unfiled(before, old(self).index(), between, *handle);
                }
                *place = body;
                self.broad_phase.insert(BroadPhaseElement { aabb: body.aabb, handle: *handle });
                proof {
                    Self::lemma_filed(before.remove(*handle), between, self.index(), *handle, body);
                }
                true
            },
            None => false,
        }
    }

    /// Lets `mutator` change what is kept of the body under `handle`, and
    /// files the body anew under the box that comes out. Says whether there
    /// was such a body; if not, `mutator` is not called and nothing changes.
    pub fn update<F: FnOnce(BodyRecord) -> BodyRecord>(
        &mut self,
        handle: &BodyHandle,
        mutator: F,
    ) -> (found: bool)
        requires
            old(self).wf(),
            old(self)@.contains_key(*handle) ==> call_requires(mutator, (old(self)@[*handle],)),
        ensures
            final(self).wf(),
            found == old(self)@.contains_key(*handle),
            found ==> call_ensures(mutator, (old(self)@[*handle],), final(self)@[*handle]),
            found ==> final(self)@ == old(self)@.insert(*handle, final(self)@[*handle]),
            !found ==> final(self)@ == old(self)@,
            same_reach(final(self).index(), old(self).index()),
    {
        match arena_get(&self.bodies, *handle) {
            Some(body) => {
                let changed = mutator(body);
                self.replace_body(handle, changed)
            },
            None => false,
        }
    }

    /// Files the body under `handle` under a new box after a contact moved
    /// it. Only a body that is neither fixed nor a sensor is moved; for any
    /// other, and for a handle that names no body, nothing changes and the
    /// answer is `false`.
    pub fn move_body(&mut self, handle: &BodyHandle, aabb: AABB<i32>) -> (done: bool)
        requires
            old(self).wf(),
        ensures
            Self::body_moved(*old(self), *handle, aabb, *final(self)),
            done == (old(self)@.contains_key(*handle) && old(self)@[*handle].spec_is_movable()),
    {
        match arena_get(&self.bodies, *handle) {
            Some(body) => {
                if body.is_movable() {
                    self.replace_body(
                        handle,
                        BodyRecord { aabb, fixed: body.fixed, sensor: body.sensor },
                    )
                } else {
                    false
                }
            },
            None => false,
        }
    }

    /// Files the bodies of a contact under the boxes that its resolution
    /// left them with, and says what the resolution was. Only the bodies that
    /// the resolution moves are filed anew: none where a sensor takes part,
    /// and never a fixed body.
    pub fn settle(
        &mut self,
        pair: &CollisionPair<BodyHandle>,
        first: AABB<i32>,
        second: AABB<i32>,
    ) -> (decision: Resolution)
        requires
            old(self).wf(),
        ensures
            final(self).wf(),
            decision == resolution_in(old(self)@, *pair),
            final(self)@ == settled(old(self)@, *pair, first, second),
            same_reach(final(self).index(), old(self).index()),
    {
        let decision = self.resolution_of(pair);
        if decision.moves_first() {
            self.move_body(&pair.a, first);
        }
        if decision.moves_second() {
            self.move_body(&pair.b, second);
        }
        decision
    }

    /// The pairs of bodies whose boxes share a point, each pair once, in one
    /// of its two orders: the candidates for the exact contact tests.
    pub fn check_collisions(&self) -> (pairs: Vec<CollisionPair<BodyHandle>>)
        requires
            self.wf(),
        ensures
            distinct_pairs(pairs@),
            forall|a: BodyHandle, b: BodyHandle|
                #![trigger reports(pairs@, a, b)]
                reports(pairs@, a, b) <==> self.colliding(a, b),
    {
        let pairs = self.broad_phase.check_collisions();
        proof {
            assert forall|a: BodyHandle, b: BodyHandle|
                #![trigger reports(pairs@, a, b)]
                reports(pairs@, a, b) <==> self.colliding(a, b) by {
                self.lemma_colliding(a, b);
            }
        }
        pairs
    }

    /// Two entries of the index overlap under two handles exactly if the
    /// bodies under those handles collide.
    pub proof fn lemma_colliding(&self, a: BodyHandle, b: BodyHandle)
        requires
            self.wf(),
        ensures
            overlapping(self.index().contents(), a, b) <==> self.colliding(a, b),
    {
        let contents = self.index().contents();
        if overlapping(contents, a, b) {
            let (e1, e2) = choose|e1: BroadPhaseElement<BodyHandle>, e2: BroadPhaseElement<BodyHandle>| #[trigger]
                two_entries(contents, e1, e2) && e1.handle == a && e2.handle == b
                    && e1.aabb.spec_intersects(&e2.aabb);
        }
        if self.colliding(a, b) {
            let e1 = entry_of(a, self@[a]);
            let e2 = entry_of(b, self@[b]);
            assert(two_entries(contents, e1, e2));
        }
    }

    /// Decides which bodies of a candidate pair a contact between them
    /// moves. A handle that names no body gives `Skip`.
    pub fn resolution_of(&self, pair: &CollisionPair<BodyHandle>) -> (decision: Resolution)
        ensures
            decision == resolution_in(self@, *pair),
    {
        match (arena_get(&self.bodies, pair.a), arena_get(&self.bodies, pair.b)) {
            (Some(first), Some(second)) => resolution(&first, &second),
            _ => Resolution::Skip,
        }
    }

    /// Lets the index give up what it keeps for bodies that have left, at
    /// the end of a step. Says whether the index is empty.
    pub fn clean_up(&mut self) -> (empty: bool)
        requires
            old(self).wf(),
        ensures
            final(self).wf(),
            final(self)@ == old(self)@,
            final(self).index().contents() == old(self).index().contents(),
            same_reach(final(self).index(), old(self).index()),
            empty == (old(self).index().contents().len() == 0),
    {
        self.broad_phase.clean_up()
    }
}

impl PhysicsWorld<QuadTree<BodyHandle>> {
    /// The region of every node of the world's tree, the root's first.
    pub fn get_quad_tree_aabb(&self) -> (regions: Vec<AABB<i32>>)
        ensures
            regions@ == self.index().node_bounds(),
    {
        self.broad_phase.get_node_aabb()
    }
}

} // verus!
