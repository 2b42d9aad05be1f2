use vstd::laws_eq::obeys_concrete_eq;
use vstd::prelude::*;

use crate::quad_tree::{
    kept_here, nothing, region_ok, route, route_among, sent_to, Node, QuadTree, Quadrant,
};
use crate::shape::aabb::AABB;
use crate::world::broad::BroadPhaseElement;

verus! {

broadcast use vstd::seq_lib::group_to_multiset_ensures;

/// What a filter keeps of a list with one more element at its end.
pub proof fn lemma_filter_push<Handle: PartialEq + Copy>(
    list: Seq<BroadPhaseElement<Handle>>,
    element: BroadPhaseElement<Handle>,
    pred: spec_fn(BroadPhaseElement<Handle>) -> bool,
)
    ensures
        list.push(element).filter(pred) == if pred(element) {
            list.filter(pred).push(element)
        } else {
            list.filter(pred)
        },
{
    reveal(Seq::filter);
    assert(list.push(element).drop_last() =~= list);
}

/// A filter keeps nothing of an empty list.
pub proof fn lemma_filter_empty<Handle: PartialEq + Copy>(
    pred: spec_fn(BroadPhaseElement<Handle>) -> bool,
)
    ensures
        nothing::<Handle>().filter(pred) == nothing::<Handle>(),
{
    reveal(Seq::filter);
}

impl<Handle: PartialEq + Copy> QuadTree<Handle> {
    /// Turns a leaf into a branch and files its elements again, each under
    /// the quadrant it fits in or, failing that, at the branch itself.
    fn split(&mut self)
        requires
            old(self).node is Leaf,
            old(self).level < old(self).max_depth,
            old(self).own().len() > old(self).capacity,
            region_ok(old(self).bounds),
            obeys_concrete_eq::<Handle>(),
            forall|i: int|
                0 <= i < old(self).own().len() ==> (#[trigger] old(self).own()[i]).aabb.spec_intersects(
                    &old(self).bounds,
                ),
        ensures
            final(self).wf(),
            final(self).tight(),
            final(self).grown_from(old(self).own()),
            final(self)@ == old(self)@,
            !final(self).is_leaf(),
            final(self).bounds == old(self).bounds,
            final(self).level == old(self).level,
            final(self).max_depth == old(self).max_depth,
            final(self).capacity == old(self).capacity,
        decreases old(self).max_depth - old(self).level, 0nat,
    {
        let half_width = self.bounds.width() / 2;
        let half_height = self.bounds.height() / 2;
        let x = self.bounds.min.x;
        let y = self.bounds.min.y;
        let level = self.level + 1;
        let mut top_left = QuadTree::with_limits(
            level,
            AABB::new(x, y, half_width, half_height),
            self.max_depth,
            self.capacity,
        );
        let mut top_right = QuadTree::with_limits(
            level,
            AABB::new(x + half_width, y, half_width, half_height),
            self.max_depth,
            self.capacity,
        );
        let mut bottom_left = QuadTree::with_limits(
            level,
            AABB::new(x, y + half_height, half_width, half_height),
            self.max_depth,
            self.capacity,
        );
        let mut bottom_right = QuadTree::with_limits(
            level,
            AABB::new(x + half_width, y + half_height, half_width, half_height),
            self.max_depth,
            self.capacity,
        );
        let mut elements: Vec<BroadPhaseElement<Handle>> = Vec::new();
        let ghost bounds = self.bounds;
        let ghost before = self.own();
        if let Node::Leaf(children) = &self.node {
            let mut i: usize = 0;
            assert(before.subrange(0, 0) =~= nothing::<Handle>());
            proof {
                lemma_filter_empty(kept_here::<Handle>(bounds));
                lemma_filter_empty(sent_to::<Handle>(bounds, Quadrant::TopLeft));
                lemma_filter_empty(sent_to::<Handle>(bounds, Quadrant::TopRight));
                lemma_filter_empty(sent_to::<Handle>(bounds, Quadrant::BottomLeft));
                lemma_filter_empty(sent_to::<Handle>(bounds, Quadrant::BottomRight));
            }
            while i < children.len()
                invariant
                    i <= children.len(),
                    children@ == before,
                    bounds == self.bounds,
                    region_ok(bounds),
                    obeys_concrete_eq::<Handle>(),
                    self.level < self.max_depth,
                    level == self.level + 1,
                    forall|j: int|
                        0 <= j < before.len() ==> (#[trigger] before[j]).aabb.spec_intersects(
                            &bounds,
                        ),
                    top_left.wf(),
                    top_right.wf(),
                    bottom_left.wf(),
                    bottom_right.wf(),
                    top_left.tight(),
                    top_right.tight(),
                    bottom_left.tight(),
                    bottom_right.tight(),
                    elements@ == before.subrange(0, i as int).filter(kept_here(bounds)),
                    top_left.grown_from(
                        before.subrange(0, i as int).filter(sent_to(bounds, Quadrant::TopLeft)),
                    ),
                    top_right.grown_from(
                        before.subrange(0, i as int).filter(sent_to(bounds, Quadrant::TopRight)),
                    ),
                    bottom_left.grown_from(
                        before.subrange(0, i as int).filter(sent_to(bounds, Quadrant::BottomLeft)),
                    ),
                    bottom_right.grown_from(
                        before.subrange(0, i as int).filter(sent_to(bounds, Quadrant::BottomRight)),
                    ),
                    Self::child_wf(bounds, self.level, self.max_depth, self.capacity, top_left, Quadrant::TopLeft),
                    Self::child_wf(bounds, self.level, self.max_depth, self.capacity, top_right, Quadrant::TopRight),
                    Self::child_wf(bounds, self.level, self.max_depth, self.capacity, bottom_left, Quadrant::BottomLeft),
                    Self::child_wf(bounds, self.level, self.max_depth, self.capacity, bottom_right, Quadrant::BottomRight),
                    forall|j: int|
                        0 <= j < elements@.len() ==> {
                            &&& (#[trigger] elements@[j]).aabb.spec_intersects(&bounds)
                            &&& route(bounds, elements@[j].aabb) is None
                        },
                    elements@.to_multiset().add(top_left.contents()).add(top_right.contents()).add(
                        bottom_left.contents(),
                    ).add(bottom_right.contents()) == before.subrange(0, i as int).to_multiset(),
                decreases children.len() - i,
            {
                let child = children[i];
                let ghost sofar = before.subrange(0, i as int);
                assert(before.subrange(0, i + 1) =~= sofar.push(child));
                proof {
                    lemma_filter_push(sofar, child, kept_here(bounds));
                    lemma_filter_push(sofar, child, sent_to(bounds, Quadrant::TopLeft));
                    lemma_filter_push(sofar, child, sent_to(bounds, Quadrant::TopRight));
                    lemma_filter_push(sofar, child, sent_to(bounds, Quadrant::BottomLeft));
                    lemma_filter_push(sofar, child, sent_to(bounds, Quadrant::BottomRight));
                }
                match route_among(
                    &child.aabb,
                    &top_left.bounds,
                    &top_right.bounds,
                    &bottom_left.bounds,
                    &bottom_right.bounds,
                ) {
                    Some(Quadrant::TopLeft) => {
                        let ghost kid = top_left;
                        top_left.inner_insert(child);
                        proof {
                            Self::lemma_growth(
                                kid,
                                child,
                                top_left,
                                sofar.filter(sent_to(bounds, Quadrant::TopLeft)),
                            );
                        }
                    },
                    Some(Quadrant::TopRight) => {
                        let ghost kid = top_right;
                        top_right.inner_insert(child);
                        proof {
                            Self::lemma_growth(
                                kid,
                                child,
                                top_right,
                                sofar.filter(sent_to(bounds, Quadrant::TopRight)),
                            );
                        }
                    },
                    Some(Quadrant::BottomLeft) => {
                        let ghost kid = bottom_left;
                        bottom_left.inner_insert(child);
                        proof {
                            Self::lemma_growth(
                                kid,
                                child,
                                bottom_left,
                                sofar.filter(sent_to(bounds, Quadrant::BottomLeft)),
                            );
                        }
                    },
                    Some(Quadrant::BottomRight) => {
                        let ghost kid = bottom_right;
                        bottom_right.inner_insert(child);
                        proof {
                            Self::lemma_growth(
                                kid,
                                child,
                                bottom_right,
                                sofar.filter(sent_to(bounds, Quadrant::BottomRight)),
                            );
                        }
                    },
                    None => {
                        elements.push(child);
                    },
                }
                i += 1;
            }
            assert(before.subrange(0, i as int) =~= before);
        }
        self.node = Node::Branch {
            elements,
            top_left: Box::new(top_left),
            top_right: Box::new(top_right),
            bottom_left: Box::new(bottom_left),
            bottom_right: Box::new(bottom_right),
        };
    }

    /// Files an element that reaches this node's region.
    fn inner_insert(&mut self, element: BroadPhaseElement<Handle>)
        requires
            old(self).wf(),
            element.aabb.spec_intersects(&old(self).bounds),
        ensures
            final(self).wf(),
            final(self)@ == old(self)@.insert(element),
            final(self).bounds == old(self).bounds,
            final(self).level == old(self).level,
            final(self).max_depth == old(self).max_depth,
            final(self).capacity == old(self).capacity,
            final(self).is_leaf() <==> old(self).is_leaf() && (old(self).own().len() < old(
                self,
            ).capacity || old(self).level >= old(self).max_depth),
            Self::filed(*old(self), element, *final(self)),
            old(self).tight() ==> final(self).tight(),
        decreases old(self).max_depth - old(self).level, 1nat,
    {
        match &mut self.node {
            Node::Branch { elements, top_left, top_right, bottom_left, bottom_right } => {
                match route_among(
                    &element.aabb,
                    &top_left.bounds,
                    &top_right.bounds,
                    &bottom_left.bounds,
                    &bottom_right.bounds,
                ) {
                    Some(Quadrant::TopLeft) => {
                        top_left.inner_insert(element);
                    },
                    Some(Quadrant::TopRight) => {
                        top_right.inner_insert(element);
                    },
                    Some(Quadrant::BottomLeft) => {
                        bottom_left.inner_insert(element);
                    },
                    Some(Quadrant::BottomRight) => {
                        bottom_right.inner_insert(element);
                    },
                    None => {
                        elements.push(element);
                    },
                }
            },
            Node::Leaf(children) => {
                children.push(element);
                if children.len() > self.capacity && self.level < self.max_depth {
                    self.split();
                }
            },
        }
    }

    /// Putting one more element into a tree that has grown from a list gives
    /// the tree that grows from the longer list.
    pub proof fn lemma_growth(
        before: QuadTree<Handle>,
        element: BroadPhaseElement<Handle>,
        after: QuadTree<Handle>,
        list: Seq<BroadPhaseElement<Handle>>,
    )
        requires
            Self::filed(before, element, after),
            before.grown_from(list),
        ensures
            after.grown_from(list.push(element)),
        decreases before,
    {
        if !before.is_leaf() {
            let bounds = before.spec_bounds();
            lemma_filter_push(list, element, kept_here(bounds));
            lemma_filter_push(list, element, sent_to(bounds, Quadrant::TopLeft));
            lemma_filter_push(list, element, sent_to(bounds, Quadrant::TopRight));
            lemma_filter_push(list, element, sent_to(bounds, Quadrant::BottomLeft));
            lemma_filter_push(list, element, sent_to(bounds, Quadrant::BottomRight));
            match route(bounds, element.aabb) {
                None => {},
                Some(quadrant) => {
                    Self::lemma_growth(
                        before.child(quadrant),
                        element,
                        after.child(quadrant),
                        list.filter(sent_to(bounds, quadrant)),
                    );
                },
            }
        }
    }

    /// Where `insert` files an element that reaches the region of the tree.
    /// A leaf with room, or one that cannot be split, takes the element at
    /// the end of its list. A full leaf that can be split becomes the branch
    /// that grows from its list with the element at the end. A branch hands
    /// the element to the child for the quadrant that it is filed under, and
    /// keeps it at the end of its own list if there is none; its other
    /// children stay as they are.
    pub open spec fn filed(
        before: QuadTree<Handle>,
        element: BroadPhaseElement<Handle>,
        after: QuadTree<Handle>,
    ) -> bool
        decreases before,
    {
        &&& Self::same_frame(before, after)
        &&& if before.is_leaf() {
            if before.own().len() < before.spec_capacity() || before.spec_level()
                >= before.spec_max_depth() {
                after.is_leaf() && after.own() == before.own().push(element)
            } else {
                !after.is_leaf() && after.grown_from(before.own().push(element))
            }
        } else {
            &&& !after.is_leaf()
            &&& Self::children_kept(before, after, route(before.spec_bounds(), element.aabb))
            &&& match route(before.spec_bounds(), element.aabb) {
                None => after.own() == before.own().push(element),
                Some(quadrant) => {
                    &&& after.own() == before.own()
                    &&& Self::filed(before.child(quadrant), element, after.child(quadrant))
                },
            }
        }
    }

    /// What `insert` does to a tree: nothing if the element's box misses the
    /// tree's region; else the element joins the contents, filed as `filed`
    /// says. A tree in which no branch could be a leaf again stays so.
    pub open spec fn insert_step(
        before: QuadTree<Handle>,
        element: BroadPhaseElement<Handle>,
        after: QuadTree<Handle>,
    ) -> bool {
        &&& after.wf()
        &&& Self::same_frame(before, after)
        &&& before.tight() ==> after.tight()
        &&& if element.aabb.spec_intersects(&before.spec_bounds()) {
            &&& after@ == before@.insert(element)
            &&& Self::filed(before, element, after)
            &&& after.is_leaf() <==> before.is_leaf() && (before@.len() < before.spec_capacity()
                || before.spec_level() >= before.spec_max_depth())
        } else {
            after == before
        }
    }

    /// Files `element` under the deepest node whose region holds its box
    /// alone. An element whose box misses the tree's region is not stored.
    pub fn insert(&mut self, element: BroadPhaseElement<Handle>)
        requires
            old(self).wf(),
        ensures
            Self::insert_step(*old(self), element, *final(self)),
    {
        if !element.aabb.intersects(&self.bounds) {
            return ;
        }
        self.inner_insert(element);
    }
}

} // verus!
