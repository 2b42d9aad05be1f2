use vstd::multiset::Multiset;
use vstd::prelude::*;

use crate::collision::CollisionPair;
use crate::quad_tree::query::hit_by;
use crate::quad_tree::pairs::{distinct_pairs, overlapping, reports};
use crate::shape::aabb::AABB;

verus! {

/// One entry of a spatial index: a handle and the box it is filed under.
#[derive(Debug, Clone, Copy)]
pub struct BroadPhaseElement<Handle> {
    pub aabb: AABB<i32>,
    pub handle: Handle,
}

/// `element` is stored in `contents`, and nothing else there carries its
/// handle.
pub open spec fn stored_alone<Handle: PartialEq + Copy>(
    contents: Multiset<BroadPhaseElement<Handle>>,
    element: BroadPhaseElement<Handle>,
) -> bool {
    &&& contents.count(element) > 0
    &&& forall|e: BroadPhaseElement<Handle>| #[trigger]
        contents.count(e) > 0 && e.handle == element.handle ==> e == element
}

/// A spatial index: a collection of elements that can name every pair of
/// them whose boxes share a point.
pub trait BroadPhase<Handle: PartialEq + Copy>: Sized {
    /// The invariant of the index.
    spec fn valid(&self) -> bool;

    /// The elements the index holds, each as often as it holds it.
    spec fn contents(&self) -> Multiset<BroadPhaseElement<Handle>>;

    /// Whether the index stores an element that is filed under `aabb`. An
    /// index over a bounded region keeps no element that lies outside it.
    spec fn keeps(&self, aabb: AABB<i32>) -> bool;

    /// Stores `element`, if the index keeps elements with its box.
    fn insert(&mut self, element: BroadPhaseElement<Handle>)
        requires
            old(self).valid(),
        ensures
            final(self).valid(),
            forall|aabb: AABB<i32>|
                #![trigger final(self).keeps(aabb)]
                #![trigger old(self).keeps(aabb)]
                final(self).keeps(aabb) == old(self).keeps(aabb),
            final(self).contents() == if old(self).keeps(element.aabb) {
                old(self).contents().insert(element)
            } else {
                old(self).contents()
            },
    ;

    /// Takes out an element that was stored under the same handle and box,
    /// where no other element carries the handle.
    fn remove(&mut self, element: BroadPhaseElement<Handle>)
        requires
            old(self).valid(),
            old(self).keeps(element.aabb) ==> stored_alone(old(self).contents(), element),
        ensures
            final(self).valid(),
            forall|aabb: AABB<i32>|
                #![trigger final(self).keeps(aabb)]
                #![trigger old(self).keeps(aabb)]
                final(self).keeps(aabb) == old(self).keeps(aabb),
            final(self).contents() == if old(self).keeps(element.aabb) {
                old(self).contents().remove(element)
            } else {
                old(self).contents()
            },
    ;

    /// The handles of the elements whose box shares a point with `query`,
    /// each handle once.
    fn check(&self, query: AABB<i32>) -> (handles: Vec<Handle>)
        requires
            self.valid(),
        ensures
            handles@.no_duplicates(),
            forall|h: Handle| handles@.contains(h) <==> hit_by(self.contents(), query, h),
    ;

    /// The pairs of handles whose elements have boxes that share a point,
    /// each pair once, in one of its two orders.
    fn check_collisions(&self) -> (pairs: Vec<CollisionPair<Handle>>)
        requires
            self.valid(),
        ensures
            distinct_pairs(pairs@),
            forall|a: Handle, b: Handle|
                #![trigger reports(pairs@, a, b)]
                reports(pairs@, a, b) <==> overlapping(self.contents(), a, b),
    ;

    /// Takes every element out.
    fn clear(&mut self)
        requires
            old(self).valid(),
        ensures
            final(self).valid(),
            forall|aabb: AABB<i32>|
                #![trigger final(self).keeps(aabb)]
                #![trigger old(self).keeps(aabb)]
                final(self).keeps(aabb) == old(self).keeps(aabb),
            final(self).contents() == Multiset::<BroadPhaseElement<Handle>>::empty(),
    ;

    /// The number of elements.
    fn len(&self) -> (n: usize)
        requires
            self.contents().len() <= usize::MAX,
        ensures
            n == self.contents().len(),
    ;

    /// Whether the index holds no element.
    fn is_empty(&self) -> (empty: bool)
        ensures
            empty == (self.contents().len() == 0),
    ;

    /// Gives up what the index keeps for elements that have left, and says
    /// whether the index is empty. The contents stay.
    fn clean_up(&mut self) -> (empty: bool)
        requires
            old(self).valid(),
        ensures
            final(self).valid(),
            forall|aabb: AABB<i32>|
                #![trigger final(self).keeps(aabb)]
                #![trigger old(self).keeps(aabb)]
                final(self).keeps(aabb) == old(self).keeps(aabb),
            final(self).contents() == old(self).contents(),
            empty == (old(self).contents().len() == 0),
    ;
}

/// The two indexes keep elements under the same boxes.
pub open spec fn same_reach<Handle: PartialEq + Copy, Broad: BroadPhase<Handle>>(
    one: Broad,
    other: Broad,
) -> bool {
    forall|aabb: AABB<i32>|
        #![trigger one.keeps(aabb)]
        #![trigger other.keeps(aabb)]
        one.keeps(aabb) == other.keeps(aabb)
}

} // verus!
