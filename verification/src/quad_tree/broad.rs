use vstd::multiset::Multiset;
use vstd::prelude::*;

use crate::collision::CollisionPair;
use crate::quad_tree::laws::{law_filed_where_routed, law_sole_handle_located};
use crate::quad_tree::QuadTree;
use crate::shape::aabb::AABB;
use crate::world::broad::{BroadPhase, BroadPhaseElement};

verus! {

impl<Handle: PartialEq + Copy> BroadPhase<Handle> for QuadTree<Handle> {
    open spec fn valid(&self) -> bool {
        self.wf()
    }

    open spec fn contents(&self) -> Multiset<BroadPhaseElement<Handle>> {
        self@
    }

    /// A tree keeps the elements whose box reaches its region.
    open spec fn keeps(&self, aabb: AABB<i32>) -> bool {
        aabb.spec_intersects(&self.spec_bounds())
    }

    fn insert(&mut self, element: BroadPhaseElement<Handle>) {
        QuadTree::insert(self, element)
    }

    fn remove(&mut self, element: BroadPhaseElement<Handle>) {
        proof {
            if element.aabb.spec_intersects(&self.spec_bounds()) {
                law_filed_where_routed(*self, element);
                law_sole_handle_located(*self, element);
            }
        }
        QuadTree::remove(self, element)
    }

    fn check(&self, query: AABB<i32>) -> (handles: Vec<Handle>) {
        QuadTree::check(self, query)
    }

    fn check_collisions(&self) -> (pairs: Vec<CollisionPair<Handle>>) {
        QuadTree::check_collisions(self)
    }

    fn clear(&mut self) {
        proof {
            self.lemma_region_ok();
        }
        QuadTree::clear(self)
    }

    fn len(&self) -> (n: usize) {
        QuadTree::len(self)
    }

    fn is_empty(&self) -> (empty: bool) {
        QuadTree::is_empty(self)
    }

    fn clean_up(&mut self) -> (empty: bool) {
        QuadTree::clean_up(self)
    }
}

} // verus!
