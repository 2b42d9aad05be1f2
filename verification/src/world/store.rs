//! The body store: a generational arena, seen through its entries.

use generational_arena::{Arena, Index};
use vstd::prelude::*;

use crate::shape::aabb::AABB;
use crate::world::BodyHandle;

verus! {

/// What the world keeps of a body to maintain its index: the box the body
/// is filed under, and whether the body is immovable or a pure sensor.
#[derive(Debug, Clone, Copy)]
pub struct BodyRecord {
    pub aabb: AABB<i32>,
    pub fixed: bool,
    pub sensor: bool,
}

impl BodyRecord {
    /// The body is neither fixed nor a sensor: a step may move it.
    pub open spec fn spec_is_movable(&self) -> bool {
        !self.fixed && !self.sensor
    }

    /// Whether a step may move the body: it is neither fixed nor a sensor.
    #[verifier::when_used_as_spec(spec_is_movable)]
    pub fn is_movable(&self) -> (movable: bool)
        ensures
            movable == self.spec_is_movable(),
    {
        !self.fixed && !self.sensor
    }

    /// The record of the same body filed under another box.
    pub open spec fn spec_moved_to(&self, aabb: AABB<i32>) -> BodyRecord {
        BodyRecord { aabb, fixed: self.fixed, sensor: self.sensor }
    }
}

/// `generational_arena::Arena`, taken as it is: nothing is known of an arena
/// but the entries that `arena_entries` names.
#[verifier::external_type_specification]
#[verifier::external_body]
#[verifier::reject_recursive_types(T)]
pub struct ExArena<T>(Arena<T>);

/// The live entries of an arena, each under the handle that
/// `generational_arena::Arena::insert` gave out for it.
pub uninterp spec fn arena_entries(arena: Arena<BodyRecord>) -> Map<BodyHandle, BodyRecord>;

/// `generational_arena::Arena::new`: an arena without entries.
#[verifier::external_body]
pub(crate) fn arena_new() -> (fresh: Arena<BodyRecord>)
    ensures
        arena_entries(fresh).dom() == Set::<BodyHandle>::empty(),
{
    Arena::new()
}

/// `generational_arena::Arena::insert`: the value becomes an entry under a
/// handle that names no entry of the arena before the call; the other
/// entries stay. The handle is the index that the arena returns, taken apart
/// by `Index::into_raw_parts`.
#[verifier::external_body]
pub(crate) fn arena_insert(arena: &mut Arena<BodyRecord>, record: BodyRecord) -> (handle:
    BodyHandle)
    ensures
        !arena_entries(*old(arena)).contains_key(handle),
        arena_entries(*final(arena)) == arena_entries(*old(arena)).insert(handle, record),
{
    let (index, generation) = arena.insert(record).into_raw_parts();
    BodyHandle { index, generation }
}

/// `generational_arena::Arena::remove`: the entry under the handle leaves the
/// arena and is returned; a handle that names no entry changes nothing and
/// gives `None`. The arena counts removals in a `u64`, which is taken not to
/// run out.
#[verifier::external_body]
pub(crate) fn arena_remove(arena: &mut Arena<BodyRecord>, handle: BodyHandle) -> (record: Option<
    BodyRecord,
>)
    ensures
        record == if arena_entries(*old(arena)).contains_key(handle) {
            Some(arena_entries(*old(arena))[handle])
        } else {
            None
        },
        arena_entries(*final(arena)) == arena_entries(*old(arena)).remove(handle),
{
    arena.remove(Index::from_raw_parts(handle.index, handle.generation))
}

/// `generational_arena::Arena::get`: a copy of the entry under the handle, or
/// `None` where the handle names no entry.
#[verifier::external_body]
pub(crate) fn arena_get(arena: &Arena<BodyRecord>, handle: BodyHandle) -> (record: Option<
    BodyRecord,
>)
    ensures
        record == if arena_entries(*arena).contains_key(handle) {
            Some(arena_entries(*arena)[handle])
        } else {
            None
        },
{
    arena.get(Index::from_raw_parts(handle.index, handle.generation)).copied()
}

/// `generational_arena::Arena::get_mut`: the place of the entry under the
/// handle, or `None` where the handle names no entry. What is written to the
/// place becomes the entry; the other entries stay.
#[verifier::external_body]
pub(crate) fn arena_get_mut(arena: &mut Arena<BodyRecord>, handle: BodyHandle) -> (place: Option<
    &mut BodyRecord,
>)
    ensures
        match place {
            Some(record) => {
                &&& arena_entries(*old(arena)).contains_key(handle)
                &&& *record == arena_entries(*old(arena))[handle]
                &&& arena_entries(*final(arena)) == arena_entries(*old(arena)).insert(
                    handle,
                    *final(record),
                )
            },
            None => {
                &&& !arena_entries(*old(arena)).contains_key(handle)
                &&& arena_entries(*final(arena)) == arena_entries(*old(arena))
            },
        },
{
    arena.get_mut(Index::from_raw_parts(handle.index, handle.generation))
}

} // verus!
