use vstd::laws_eq::obeys_concrete_eq;
use vstd::prelude::*;

use crate::quad_tree::{route, route_among, Node, QuadTree, Quadrant};
use crate::shape::aabb::AABB;
use crate::world::broad::BroadPhaseElement;

verus! {

broadcast use vstd::seq_lib::group_to_multiset_ensures;

/// `index` is the place of the first element of `list` that carries `handle`.
pub open spec fn is_first_with<Handle: PartialEq + Copy>(
    list: Seq<BroadPhaseElement<Handle>>,
    handle: Handle,
    index: int,
) -> bool {
    &&& 0 <= index < list.len()
    &&& list[index].handle == handle
    &&& forall|j: int| 0 <= j < index ==> (#[trigger] list[j]).handle != handle
}

/// Some element of `list` carries `handle`.
pub open spec fn has_handle<Handle: PartialEq + Copy>(
    list: Seq<BroadPhaseElement<Handle>>,
    handle: Handle,
) -> bool {
    exists|k: int| 0 <= k < list.len() && (#[trigger] list[k]).handle == handle
}

/// The first element of `list` that carries `handle`.
pub open spec fn first_with<Handle: PartialEq + Copy>(
    list: Seq<BroadPhaseElement<Handle>>,
    handle: Handle,
) -> BroadPhaseElement<Handle>
    recommends
        has_handle(list, handle),
{
    list[choose|k: int| is_first_with(list, handle, k)]
}

/// `list` without its first element that carries `handle`: the last
/// element stands in its place.
pub open spec fn taken<Handle: PartialEq + Copy>(
    list: Seq<BroadPhaseElement<Handle>>,
    handle: Handle,
) -> Seq<BroadPhaseElement<Handle>>
    recommends
        has_handle(list, handle),
{
    list.update(choose|k: int| is_first_with(list, handle, k), list.last()).drop_last()
}

/// Takes the first element with the given handle out of a list, moving the
/// last element into its place.
fn remove_first<Handle: PartialEq + Copy>(
    list: &mut Vec<BroadPhaseElement<Handle>>,
    handle: Handle,
) -> (removed:
    BroadPhaseElement<Handle>)
    requires
        obeys_concrete_eq::<Handle>(),
        has_handle(old(list)@, handle),
    ensures
        final(list)@ == taken(old(list)@, handle),
        removed == first_with(old(list)@, handle),
        removed.handle == handle,
        old(list)@.contains(removed),
        final(list)@.to_multiset() == old(list)@.to_multiset().remove(removed),
        final(list)@.len() == old(list)@.len() - 1,
        forall|i: int| 0 <= i < final(list)@.len() ==> old(list)@.contains(#[trigger] final(list)@[i]),
{
    proof {
        reveal(obeys_concrete_eq);
    }
    let mut index: usize = 0;
    while list[index].handle != handle
        invariant
            obeys_concrete_eq::<Handle>(),
            *list == *old(list),
            has_handle(list@, handle),
            0 <= index < list.len(),
            forall|j: int| 0 <= j < index ==> (#[trigger] list@[j]).handle != handle,
        decreases list.len() - index,
    {
        proof {
            reveal(obeys_concrete_eq);
        }
        index += 1;
    }
    proof {
        let k = choose|k: int| is_first_with(list@, handle, k);
        assert(is_first_with(list@, handle, index as int));
        assert(k == index) by {
            if k < index {
            } else if index < k {
            }
        }
        let s = list@;
        let last = s.last();
        let moved = s.update(index as int, last);
        assert(moved.drop_last() =~= moved.remove(moved.len() - 1));
    }
    let removed = list.swap_remove(index);
    removed
}

impl<Handle: PartialEq + Copy> QuadTree<Handle> {
    /// The list of the node that a box is filed at: the leaf it reaches, or
    /// the branch on the way at which it fits in no single quadrant.
    pub open spec fn filed_at(&self, aabb: AABB<i32>) -> Seq<BroadPhaseElement<Handle>>
        decreases self,
    {
        if self.is_leaf() {
            self.own()
        } else {
            match route(self.spec_bounds(), aabb) {
                Some(quadrant) => self.child(quadrant).filed_at(aabb),
                None => self.own(),
            }
        }
    }

    /// The node that `aabb` is filed at holds an element with `handle`.
    pub open spec fn holds(&self, handle: Handle, aabb: AABB<i32>) -> bool {
        has_handle(self.filed_at(aabb), handle)
    }

    /// The element that removing `handle` under `aabb` takes out: the first
    /// one with that handle in the list of the node that `aabb` is filed at.
    pub open spec fn located(&self, handle: Handle, aabb: AABB<i32>) -> BroadPhaseElement<Handle>
        recommends
            self.holds(handle, aabb),
    {
        first_with(self.filed_at(aabb), handle)
    }

    /// Takes an element out of the list of the node that its box is filed
    /// at, found there by its handle.
    fn inner_remove(
        &mut self,
        element: BroadPhaseElement<Handle>,
    ) -> (removed: BroadPhaseElement<Handle>)
        requires
            old(self).wf(),
            old(self).holds(element.handle, element.aabb),
        ensures
            final(self).wf(),
            removed == old(self).located(element.handle, element.aabb),
            removed.handle == element.handle,
            old(self)@.contains(removed),
            final(self)@ == old(self)@.remove(removed),
            final(self).bounds == old(self).bounds,
            final(self).level == old(self).level,
            final(self).max_depth == old(self).max_depth,
            final(self).capacity == old(self).capacity,
            final(self).is_leaf() == old(self).is_leaf(),
            Self::unfiled(*old(self), element.handle, element.aabb, *final(self)),
        decreases *old(self),
    {
        let removed = match &mut self.node {
            Node::Branch { elements, top_left, top_right, bottom_left, bottom_right } => {
                match route_among(
                    &element.aabb,
                    &top_left.bounds,
                    &top_right.bounds,
                    &bottom_left.bounds,
                    &bottom_right.bounds,
                ) {
                    Some(Quadrant::TopLeft) => {
                        top_left.inner_remove(element)
                    },
                    Some(Quadrant::TopRight) => {
                        top_right.inner_remove(element)
                    },
                    Some(Quadrant::BottomLeft) => {
                        bottom_left.inner_remove(element)
                    },
                    Some(Quadrant::BottomRight) => {
                        bottom_right.inner_remove(element)
                    },
                    None => remove_first(elements, element.handle),
                }
            },
            Node::Leaf(children) => remove_first(children, element.handle),
        };
        removed
    }

    /// Where `remove` takes an element from. The list of the node that the
    /// box is filed at loses its first element with the handle, and the last
    /// element of that list takes its place. Every other list, and the shape
    /// of the tree, stay as they are.
    pub open spec fn unfiled(
        before: QuadTree<Handle>,
        handle: Handle,
        aabb: AABB<i32>,
        after: QuadTree<Handle>,
    ) -> bool
        decreases before,
    {
        &&& Self::same_frame(before, after)
        &&& after.is_leaf() == before.is_leaf()
        &&& if before.is_leaf() {
            after.own() == taken(before.own(), handle)
        } else {
            &&& Self::children_kept(before, after, route(before.spec_bounds(), aabb))
            &&& match route(before.spec_bounds(), aabb) {
                None => after.own() == taken(before.own(), handle),
                Some(quadrant) => {
                    &&& after.own() == before.own()
                    &&& Self::unfiled(before.child(quadrant), handle, aabb, after.child(quadrant))
                },
            }
        }
    }

    /// What `remove` does to a tree: nothing if the element's box misses the
    /// tree's region; else the first element with the same handle leaves the
    /// list of the node that the box is filed at, as `unfiled` says.
    pub open spec fn remove_step(
        before: QuadTree<Handle>,
        element: BroadPhaseElement<Handle>,
        after: QuadTree<Handle>,
    ) -> bool {
        &&& after.wf()
        &&& Self::same_frame(before, after)
        &&& after.is_leaf() == before.is_leaf()
        &&& if element.aabb.spec_intersects(&before.spec_bounds()) {
            &&& after@ == before@.remove(before.located(element.handle, element.aabb))
            &&& Self::unfiled(before, element.handle, element.aabb, after)
        } else {
            after == before
        }
    }

    /// Removes the element that was filed with `element`'s handle under
    /// `element`'s box. Nothing is stored under a box that misses the tree's
    /// region, so there is nothing to remove for one.
    pub fn remove(&mut self, element: BroadPhaseElement<Handle>)
        requires
            old(self).wf(),
            element.aabb.spec_intersects(&old(self).spec_bounds()) ==> old(self).holds(
                element.handle,
                element.aabb,
            ),
        ensures
            Self::remove_step(*old(self), element, *final(self)),
            element.aabb.spec_intersects(&old(self).spec_bounds()) ==> {
                &&& old(self)@.count(old(self).located(element.handle, element.aabb)) > 0
                &&& old(self).located(element.handle, element.aabb).handle == element.handle
            },
    {
        if !element.aabb.intersects(&self.bounds) {
            return ;
        }
        self.inner_remove(element);
    }
}

} // verus!
