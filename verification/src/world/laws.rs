//! What holds of every valid world, stated over its bodies and the
//! contents of its index.

use vstd::prelude::*;

use crate::shape::aabb::{lemma_common_point_intersects, AABB};
use crate::world::broad::{same_reach, BroadPhase};
use crate::world::store::BodyRecord;
use crate::collision::CollisionPair;
use crate::world::{
    moved, resolution_in, settled, spec_resolution, BodyHandle, PhysicsWorld, Resolution,
};

verus! {

/// The bodies of a world decide what its index holds: two valid worlds
/// with the same bodies, whose indexes keep the same boxes, hold the same
/// index entries, and the same pairs of bodies collide in both.
pub proof fn law_bodies_decide_index<Broad: BroadPhase<BodyHandle>>(
    one: PhysicsWorld<Broad>,
    other: PhysicsWorld<Broad>,
)
    requires
        one.wf(),
        other.wf(),
        one@ == other@,
        same_reach(one.index(), other.index()),
    ensures
        one.index().contents() == other.index().contents(),
        forall|a: BodyHandle, b: BodyHandle| one.colliding(a, b) == other.colliding(a, b),
{
    assert(one.index().contents() =~= other.index().contents()) by {
        assert forall|e| one.index().contents().count(e) == other.index().contents().count(e) by {}
    }
    assert forall|a: BodyHandle, b: BodyHandle| one.colliding(a, b) == other.colliding(a, b) by {}
}

/// Two different bodies whose boxes hold a common point collide, if the
/// index keeps both boxes: the candidate pairs of the world miss no pair of
/// bodies that overlap, as long as the box of each body holds all of the
/// body.
pub proof fn law_meeting_bodies_collide<Broad: BroadPhase<BodyHandle>>(
    world: PhysicsWorld<Broad>,
    a: BodyHandle,
    b: BodyHandle,
    x: int,
    y: int,
    scale: int,
)
    requires
        world.wf(),
        a != b,
        world@.contains_key(a),
        world@.contains_key(b),
        world.index().keeps(world@[a].aabb),
        world.index().keeps(world@[b].aabb),
        scale > 0,
        world@[a].aabb.holds_point(x, y, scale),
        world@[b].aabb.holds_point(x, y, scale),
    ensures
        world.colliding(a, b),
{
    lemma_common_point_intersects(world@[a].aabb, world@[b].aabb, x, y, scale);
}

/// A body that is added to a world and removed again leaves the world as
/// it was: the same bodies, the same index entries, and the same pairs of
/// colliding bodies as if the body had never been added.
pub proof fn law_add_then_remove<Broad: BroadPhase<BodyHandle>>(
    start: PhysicsWorld<Broad>,
    body: BodyRecord,
    handle: BodyHandle,
    filled: PhysicsWorld<Broad>,
    end: PhysicsWorld<Broad>,
)
    requires
        start.wf(),
        PhysicsWorld::body_added(start, body, handle, filled),
        PhysicsWorld::body_removed(filled, handle, end),
    ensures
        end@ == start@,
        end.index().contents() == start.index().contents(),
        forall|a: BodyHandle, b: BodyHandle| end.colliding(a, b) == start.colliding(a, b),
{
    assert(end@ =~= start@);
    law_bodies_decide_index(end, start);
}

/// The resolution of a contact moves no body that is fixed or a sensor, and
/// moves nothing at all where a sensor takes part or both bodies are fixed.
/// Where it moves nothing of a body, it moves the other unless that one is
/// spared for the same reasons.
pub proof fn law_resolution_spares(first: BodyRecord, second: BodyRecord)
    ensures
        spec_resolution(first, second).spec_moves_first() <==> !first.fixed && !first.sensor
            && !second.sensor,
        spec_resolution(first, second).spec_moves_second() <==> !second.fixed && !second.sensor
            && !first.sensor,
        first.sensor || second.sensor || (first.fixed && second.fixed) <==> spec_resolution(
            first,
            second,
        ) == Resolution::Skip,
{
}

/// Moving a body after a contact leaves every body that is fixed or a
/// sensor with the record it had, whichever handle the move names.
pub proof fn law_move_spares_fixed_and_sensors(
    bodies: Map<BodyHandle, BodyRecord>,
    handle: BodyHandle,
    aabb: AABB<i32>,
    spared: BodyHandle,
)
    requires
        bodies.contains_key(spared),
        bodies[spared].fixed || bodies[spared].sensor,
    ensures
        moved(bodies, handle, aabb).contains_key(spared),
        moved(bodies, handle, aabb)[spared] == bodies[spared],
{
}

/// Settling a contact changes nothing but the boxes of its two bodies, and
/// those only as far as the resolution moves them: a fixed body and a
/// sensor keep their record, every body keeps its flags, and where a sensor
/// takes part or both bodies are fixed, all bodies stay as they were.
pub proof fn law_settle_spares(
    bodies: Map<BodyHandle, BodyRecord>,
    pair: CollisionPair<BodyHandle>,
    first: AABB<i32>,
    second: AABB<i32>,
    handle: BodyHandle,
)
    requires
        bodies.contains_key(handle),
    ensures
        settled(bodies, pair, first, second).dom() == bodies.dom(),
        settled(bodies, pair, first, second)[handle].fixed == bodies[handle].fixed,
        settled(bodies, pair, first, second)[handle].sensor == bodies[handle].sensor,
        bodies[handle].fixed || bodies[handle].sensor ==> settled(
            bodies,
            pair,
            first,
            second,
        )[handle] == bodies[handle],
        handle != pair.a && handle != pair.b ==> settled(bodies, pair, first, second)[handle]
            == bodies[handle],
        resolution_in(bodies, pair) == Resolution::Skip ==> settled(bodies, pair, first, second)
            == bodies,
{
}

} // verus!
