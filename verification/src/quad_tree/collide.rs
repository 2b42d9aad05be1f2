use vstd::laws_eq::obeys_concrete_eq;
use vstd::prelude::*;

use crate::collision::CollisionPair;
use crate::quad_tree::pairs::{
    apart, distinct_pairs, lemma_overlapping_parts, lemma_touching_sum, overlapping,
    pairs_against, pairs_within, reports, touching,
};
use crate::quad_tree::{region_ok, Node, QuadTree, Quadrant};
use crate::shape::aabb::AABB;
use crate::world::broad::BroadPhaseElement;

verus! {

broadcast use vstd::seq_lib::group_to_multiset_ensures;

impl<Handle: PartialEq + Copy> QuadTree<Handle> {
    /// Notes the pair of `probe` with every element of the tree whose box
    /// shares a point with the box of `probe`.
    fn collect_against(
        &self,
        probe: &BroadPhaseElement<Handle>,
        out: &mut Vec<CollisionPair<Handle>>,
    )
        requires
            self.wf(),
            distinct_pairs(old(out)@),
        ensures
            distinct_pairs(final(out)@),
            forall|x: Handle, y: Handle|
                #![trigger reports(final(out)@, x, y)]
                reports(final(out)@, x, y) <==> reports(old(out)@, x, y) || touching(
                    self@,
                    *probe,
                    x,
                    y,
                ),
        decreases self,
    {
        match &self.node {
            Node::Leaf(children) => {
                pairs_against(children, probe, out);
            },
            Node::Branch { elements, top_left, top_right, bottom_left, bottom_right } => {
                pairs_against(elements, probe, out);
                if probe.aabb.intersects(&top_left.bounds) {
                    top_left.collect_against(probe, out);
                }
                if probe.aabb.intersects(&top_right.bounds) {
                    top_right.collect_against(probe, out);
                }
                if probe.aabb.intersects(&bottom_left.bounds) {
                    bottom_left.collect_against(probe, out);
                }
                if probe.aabb.intersects(&bottom_right.bounds) {
                    bottom_right.collect_against(probe, out);
                }
                proof {
                    let own = elements@.to_multiset();
                    let tl = top_left.contents();
                    let tr = top_right.contents();
                    let bl = bottom_left.contents();
                    let br = bottom_right.contents();
                    assert forall|x: Handle, y: Handle|
                        #![trigger reports(out@, x, y)]
                        reports(out@, x, y) <==> reports(old(out)@, x, y) || touching(
                            self@,
                            *probe,
                            x,
                            y,
                        ) by {
                        lemma_touching_sum(own, tl, *probe, x, y);
                        lemma_touching_sum(own.add(tl), tr, *probe, x, y);
                        lemma_touching_sum(own.add(tl).add(tr), bl, *probe, x, y);
                        lemma_touching_sum(own.add(tl).add(tr).add(bl), br, *probe, x, y);
                    }
                }
            },
        }
    }

    /// The elements of two different children of a branch lie apart.
    proof fn lemma_children_apart(
        bounds: AABB<i32>,
        level: u8,
        max_depth: u8,
        capacity: usize,
        kid1: QuadTree<Handle>,
        quadrant1: Quadrant,
        kid2: QuadTree<Handle>,
        quadrant2: Quadrant,
    )
        requires
            region_ok(bounds),
            Self::child_wf(bounds, level, max_depth, capacity, kid1, quadrant1),
            Self::child_wf(bounds, level, max_depth, capacity, kid2, quadrant2),
            quadrant1 != quadrant2,
        ensures
            apart(kid1.contents(), kid2.contents()),
    {
        let left = kid1.contents();
        let right = kid2.contents();
        assert forall|e1: BroadPhaseElement<Handle>, e2: BroadPhaseElement<Handle>|
            #![trigger left.count(e1), right.count(e2)]
            left.count(e1) > 0 && right.count(e2) > 0 implies !e1.aabb.spec_intersects(
            &e2.aabb,
        ) by {}
    }

    /// Notes every pair of elements of the tree whose boxes share a point.
    fn inner_check_collisions(&self, out: &mut Vec<CollisionPair<Handle>>)
        requires
            self.wf(),
            distinct_pairs(old(out)@),
        ensures
            distinct_pairs(final(out)@),
            forall|x: Handle, y: Handle|
                #![trigger reports(final(out)@, x, y)]
                reports(final(out)@, x, y) <==> reports(old(out)@, x, y) || overlapping(
                    self@,
                    x,
                    y,
                ),
        decreases self,
    {
        match &self.node {
            Node::Leaf(children) => {
                pairs_within(children, out);
            },
            Node::Branch { elements, top_left, top_right, bottom_left, bottom_right } => {
                let ghost own = elements@.to_multiset();
                let ghost tl = top_left.contents();
                let ghost tr = top_right.contents();
                let ghost bl = bottom_left.contents();
                let ghost br = bottom_right.contents();
                let ghost below = tl.add(tr).add(bl).add(br);
                pairs_within(elements, out);
                let ghost out1 = out@;
                let mut i: usize = 0;
                while i < elements.len()
                    invariant
                        obeys_concrete_eq::<Handle>(),
                        i <= elements.len(),
                        distinct_pairs(out@),
                        top_left.wf(),
                        top_right.wf(),
                        bottom_left.wf(),
                        bottom_right.wf(),
                        tl == top_left.contents(),
                        tr == top_right.contents(),
                        bl == bottom_left.contents(),
                        br == bottom_right.contents(),
                        below == tl.add(tr).add(bl).add(br),
                        forall|x: Handle, y: Handle|
                            #![trigger reports(out@, x, y)]
                            reports(out@, x, y) <==> reports(out1, x, y) || exists|k: int|
                                0 <= k < i && #[trigger] touching(below, elements@[k], x, y),
                    decreases elements.len() - i,
                {
                    let probe = &elements[i];
                    top_left.collect_against(probe, out);
                    top_right.collect_against(probe, out);
                    bottom_left.collect_against(probe, out);
                    bottom_right.collect_against(probe, out);
                    assert forall|x: Handle, y: Handle|
                        #![trigger reports(out@, x, y)]
                        reports(out@, x, y) <==> reports(out1, x, y) || exists|k: int|
                            0 <= k < i + 1 && #[trigger] touching(below, elements@[k], x, y) by {
                        lemma_touching_sum(tl, tr, *probe, x, y);
                        lemma_touching_sum(tl.add(tr), bl, *probe, x, y);
                        lemma_touching_sum(tl.add(tr).add(bl), br, *probe, x, y);
                    }
                    i += 1;
                }
                top_left.inner_check_collisions(out);
                top_right.inner_check_collisions(out);
                bottom_left.inner_check_collisions(out);
                bottom_right.inner_check_collisions(out);
                proof {
                    let (b, l, m, c) = (self.bounds, self.level, self.max_depth, self.capacity);
                    let (k1, k2, k3, k4) = (**top_left, **top_right, **bottom_left, **bottom_right);
                    Self::lemma_children_apart(b, l, m, c, k1, Quadrant::TopLeft, k2, Quadrant::TopRight);
                    Self::lemma_children_apart(b, l, m, c, k1, Quadrant::TopLeft, k3, Quadrant::BottomLeft);
                    Self::lemma_children_apart(b, l, m, c, k1, Quadrant::TopLeft, k4, Quadrant::BottomRight);
                    Self::lemma_children_apart(b, l, m, c, k2, Quadrant::TopRight, k3, Quadrant::BottomLeft);
                    Self::lemma_children_apart(b, l, m, c, k2, Quadrant::TopRight, k4, Quadrant::BottomRight);
                    Self::lemma_children_apart(b, l, m, c, k3, Quadrant::BottomLeft, k4, Quadrant::BottomRight);
                    assert forall|x: Handle, y: Handle|
                        #![trigger reports(out@, x, y)]
                        reports(out@, x, y) <==> reports(old(out)@, x, y) || overlapping(
                            self@,
                            x,
                            y,
                        ) by {
                        lemma_overlapping_parts(own, tl, tr, bl, br, x, y);
                        if exists|k: int|
                            0 <= k < elements@.len() && #[trigger] touching(
                                below,
                                elements@[k],
                                x,
                                y,
                            ) {
                            let k = choose|k: int|
                                0 <= k < elements@.len() && #[trigger] touching(
                                    below,
                                    elements@[k],
                                    x,
                                    y,
                                );
                            assert(own.count(elements@[k]) > 0);
                        }
                    }
                }
            },
        }
    }

    /// The pairs of handles whose elements have boxes that share a point,
    /// each pair once, in one of its two orders.
    pub fn check_collisions(&self) -> (pairs: Vec<CollisionPair<Handle>>)
        requires
            self.wf(),
        ensures
            distinct_pairs(pairs@),
            forall|a: Handle, b: Handle|
                #![trigger reports(pairs@, a, b)]
                reports(pairs@, a, b) <==> overlapping(self@, a, b),
    {
        let mut pairs: Vec<CollisionPair<Handle>> = Vec::new();
        self.inner_check_collisions(&mut pairs);
        pairs
    }
}

} // verus!
