use vstd::laws_eq::obeys_concrete_eq;
use vstd::multiset::Multiset;
use vstd::prelude::*;

pub mod broad;
pub mod collide;
pub mod insert;
pub mod laws;
pub mod pairs;
pub mod query;
pub mod remove;

use crate::shape::aabb::AABB;
use crate::vec::Vec2;
use crate::world::broad::BroadPhaseElement;

verus! {

broadcast use vstd::seq_lib::group_to_multiset_ensures;

/// Depth below which a full leaf is split, unless a tree is made with
/// another limit.
pub const MAX_DEPTH: u8 = 8;

/// Number of elements a leaf holds before it is split, unless a tree is made
/// with another limit.
pub const MAX_CHILDREN: usize = 16;

/// One of the four regions a branch divides its own region into.
#[derive(Debug, Clone, Copy, PartialEq, Eq, Structural)]
pub enum Quadrant {
    /// The quarter at the corner of the region with the smallest `x` and `y`.
    TopLeft,
    /// The quarter next to `TopLeft` along `x`.
    TopRight,
    /// The quarter next to `TopLeft` along `y`.
    BottomLeft,
    /// The quarter opposite `TopLeft`.
    BottomRight,
}

/// What a node of the tree holds.
#[derive(Debug)]
pub enum Node<Handle> {
    /// Four children, and the elements that fit in none of them alone.
    Branch {
        elements: Vec<BroadPhaseElement<Handle>>,
        top_left: Box<QuadTree<Handle>>,
        top_right: Box<QuadTree<Handle>>,
        bottom_left: Box<QuadTree<Handle>>,
        bottom_right: Box<QuadTree<Handle>>,
    },
    /// The elements of an undivided region.
    Leaf(Vec<BroadPhaseElement<Handle>>),
}

/// A region of the plane with the elements filed under it.
#[derive(Debug)]
pub struct QuadTree<Handle> {
    bounds: AABB<i32>,
    level: u8,
    max_depth: u8,
    capacity: usize,
    node: Node<Handle>,
}

/// The part of `bounds` that a branch hands to its child `quadrant`: half as
/// wide and half as high, rounded down, starting at the corner of `bounds` or
/// at its centre.
pub open spec fn quadrant_bounds(bounds: AABB<i32>, quadrant: Quadrant) -> AABB<i32> {
    let half_width = bounds.spec_width() / 2;
    let half_height = bounds.spec_height() / 2;
    let x = bounds.min.x + if quadrant is TopRight || quadrant is BottomRight {
        half_width
    } else {
        0
    };
    let y = bounds.min.y + if quadrant is BottomLeft || quadrant is BottomRight {
        half_height
    } else {
        0
    };
    AABB {
        min: Vec2 { x: x as i32, y: y as i32 },
        max: Vec2 { x: (x + half_width) as i32, y: (y + half_height) as i32 },
    }
}

/// `aabb` lies in `region` and reaches none of the three other regions.
pub open spec fn fits_only(
    aabb: AABB<i32>,
    region: AABB<i32>,
    other1: AABB<i32>,
    other2: AABB<i32>,
    other3: AABB<i32>,
) -> bool {
    &&& aabb.spec_intersects(&region)
    &&& aabb.within(&region)
    &&& !aabb.spec_intersects(&other1)
    &&& !aabb.spec_intersects(&other2)
    &&& !aabb.spec_intersects(&other3)
}

/// Which of four regions a box lies in while it reaches none of the other
/// three, if there is one.
pub open spec fn spec_route_among(
    aabb: AABB<i32>,
    tl: AABB<i32>,
    tr: AABB<i32>,
    bl: AABB<i32>,
    br: AABB<i32>,
) -> Option<Quadrant> {
    if fits_only(aabb, tl, tr, bl, br) {
        Some(Quadrant::TopLeft)
    } else if fits_only(aabb, tr, tl, bl, br) {
        Some(Quadrant::TopRight)
    } else if fits_only(aabb, bl, tl, tr, br) {
        Some(Quadrant::BottomLeft)
    } else if fits_only(aabb, br, tl, tr, bl) {
        Some(Quadrant::BottomRight)
    } else {
        None
    }
}

/// The quadrant of `bounds` that a box is filed under: the one that contains
/// it while no other quadrant touches it. A box that straddles two quadrants,
/// or sticks out of all of them, has none.
pub open spec fn route(bounds: AABB<i32>, aabb: AABB<i32>) -> Option<Quadrant> {
    spec_route_among(
        aabb,
        quadrant_bounds(bounds, Quadrant::TopLeft),
        quadrant_bounds(bounds, Quadrant::TopRight),
        quadrant_bounds(bounds, Quadrant::BottomLeft),
        quadrant_bounds(bounds, Quadrant::BottomRight),
    )
}

fn route_among(
    aabb: &AABB<i32>,
    tl: &AABB<i32>,
    tr: &AABB<i32>,
    bl: &AABB<i32>,
    br: &AABB<i32>,
) -> (quadrant: Option<Quadrant>)
    ensures
        quadrant == spec_route_among(*aabb, *tl, *tr, *bl, *br),
{
    let in_tl = aabb.intersects(tl);
    let in_tr = aabb.intersects(tr);
    let in_bl = aabb.intersects(bl);
    let in_br = aabb.intersects(br);
    if in_tl && !in_tr && !in_bl && !in_br && aabb.is_within(tl) {
        Some(Quadrant::TopLeft)
    } else if in_tr && !in_tl && !in_bl && !in_br && aabb.is_within(tr) {
        Some(Quadrant::TopRight)
    } else if in_bl && !in_tl && !in_tr && !in_br && aabb.is_within(bl) {
        Some(Quadrant::BottomLeft)
    } else if in_br && !in_tl && !in_tr && !in_bl && aabb.is_within(br) {
        Some(Quadrant::BottomRight)
    } else {
        None
    }
}

/// The elements that a branch over `bounds` keeps in its own list: those
/// that are filed under none of its quadrants.
pub open spec fn kept_here<Handle: PartialEq + Copy>(
    bounds: AABB<i32>,
) -> spec_fn(BroadPhaseElement<Handle>) -> bool {
    |e: BroadPhaseElement<Handle>| route(bounds, e.aabb) is None
}

/// The elements that a branch over `bounds` hands to its child for
/// `quadrant`.
pub open spec fn sent_to<Handle: PartialEq + Copy>(
    bounds: AABB<i32>,
    quadrant: Quadrant,
) -> spec_fn(BroadPhaseElement<Handle>) -> bool {
    |e: BroadPhaseElement<Handle>| route(bounds, e.aabb) == Some(quadrant)
}

/// The list without elements.
pub open spec fn nothing<Handle: PartialEq + Copy>() -> Seq<BroadPhaseElement<Handle>> {
    Seq::empty()
}

/// A region a tree can be made over: a valid box whose width and height are
/// representable.
pub open spec fn region_ok(bounds: AABB<i32>) -> bool {
    &&& bounds.wf()
    &&& bounds.spec_width() <= i32::MAX
    &&& bounds.spec_height() <= i32::MAX
}

impl<Handle: PartialEq + Copy> Node<Handle> {
    pub open spec fn spec_is_branch(&self) -> bool {
        self is Branch
    }

    pub open spec fn spec_is_leaf(&self) -> bool {
        self is Leaf
    }

    #[verifier::when_used_as_spec(spec_is_branch)]
    pub fn is_branch(&self) -> (b: bool)
        ensures
            b == self.spec_is_branch(),
    {
        match self {
            Node::Branch { .. } => true,
            Node::Leaf(_) => false,
        }
    }

    #[verifier::when_used_as_spec(spec_is_leaf)]
    pub fn is_leaf(&self) -> (b: bool)
        ensures
            b == self.spec_is_leaf(),
    {
        match self {
            Node::Branch { .. } => false,
            Node::Leaf(_) => true,
        }
    }
}

impl<Handle: PartialEq + Copy> View for QuadTree<Handle> {
    type V = Multiset<BroadPhaseElement<Handle>>;

    /// Every element filed anywhere in the tree, as often as it was filed.
    open spec fn view(&self) -> Multiset<BroadPhaseElement<Handle>> {
        self.contents()
    }
}

impl<Handle: PartialEq + Copy> QuadTree<Handle> {
    pub closed spec fn spec_bounds(&self) -> AABB<i32> {
        self.bounds
    }

    pub closed spec fn spec_level(&self) -> u8 {
        self.level
    }

    pub closed spec fn spec_max_depth(&self) -> u8 {
        self.max_depth
    }

    pub closed spec fn spec_capacity(&self) -> usize {
        self.capacity
    }

    pub closed spec fn spec_node(&self) -> Node<Handle> {
        self.node
    }

    pub open spec fn is_leaf(&self) -> bool {
        self.spec_node() is Leaf
    }

    /// A valid tree stands over a region that a tree can be made over, and
    /// its handles are compared as they are equal.
    pub proof fn lemma_region_ok(&self)
        requires
            self.wf(),
        ensures
            region_ok(self.spec_bounds()),
            obeys_concrete_eq::<Handle>(),
    {
    }

    /// The elements kept at this node itself, in the order they are stored.
    pub open spec fn own(&self) -> Seq<BroadPhaseElement<Handle>> {
        match self.spec_node() {
            Node::Leaf(elements) => elements@,
            Node::Branch { elements, .. } => elements@,
        }
    }

    /// The child for `quadrant` of a branch.
    pub open spec fn child(&self, quadrant: Quadrant) -> QuadTree<Handle>
        recommends
            !self.is_leaf(),
    {
        match self.spec_node() {
            Node::Branch { top_left, top_right, bottom_left, bottom_right, .. } => match quadrant {
                Quadrant::TopLeft => *top_left,
                Quadrant::TopRight => *top_right,
                Quadrant::BottomLeft => *bottom_left,
                Quadrant::BottomRight => *bottom_right,
            },
            Node::Leaf(_) => *self,
        }
    }

    pub closed spec fn contents(&self) -> Multiset<BroadPhaseElement<Handle>>
        decreases self,
    {
        match self.node {
            Node::Leaf(elements) => elements@.to_multiset(),
            Node::Branch { elements, top_left, top_right, bottom_left, bottom_right } => {
                elements@.to_multiset().add(top_left.contents()).add(top_right.contents()).add(
                    bottom_left.contents(),
                ).add(bottom_right.contents())
            },
        }
    }

    /// `kid` is a tree over `quadrant` of `bounds`, one level below `level`,
    /// with the given limits, and holds only elements that are filed under
    /// that quadrant.
    pub closed spec fn child_wf(
        bounds: AABB<i32>,
        level: u8,
        max_depth: u8,
        capacity: usize,
        kid: QuadTree<Handle>,
        quadrant: Quadrant,
    ) -> bool {
        &&& kid.bounds == quadrant_bounds(bounds, quadrant)
        &&& kid.level == level + 1
        &&& kid.max_depth == max_depth
        &&& kid.capacity == capacity
        &&& forall|e: BroadPhaseElement<Handle>| #[trigger]
            kid.contents().count(e) > 0 ==> route(bounds, e.aabb) == Some(quadrant)
    }

    /// The invariant of the tree. Its region is a box of representable
    /// width and height, and its handles are compared as they are equal.
    /// Every element of a leaf reaches the region of the leaf, and a leaf
    /// short of the maximum depth holds no more than its capacity. A branch
    /// stands short of the maximum depth; its children are valid trees over its
    /// four quadrants, in their order and one level down; every element is
    /// stored below the child for the quadrant it is filed under, and in the
    /// list of the branch itself if there is none.
    pub closed spec fn wf(&self) -> bool
        decreases self,
    {
        &&& obeys_concrete_eq::<Handle>()
        &&& region_ok(self.bounds)
        &&& match self.node {
            Node::Leaf(elements) => {
                &&& forall|i: int|
                    0 <= i < elements@.len() ==> (#[trigger] elements@[i]).aabb.spec_intersects(
                        &self.bounds,
                    )
                &&& self.level < self.max_depth ==> elements@.len() <= self.capacity
            },
            Node::Branch { elements, top_left, top_right, bottom_left, bottom_right } => {
                &&& self.level < self.max_depth
                &&& forall|i: int|
                    0 <= i < elements@.len() ==> {
                        &&& (#[trigger] elements@[i]).aabb.spec_intersects(&self.bounds)
                        &&& route(self.bounds, elements@[i].aabb) is None
                    }
                &&& top_left.wf()
                &&& top_right.wf()
                &&& bottom_left.wf()
                &&& bottom_right.wf()
                &&& Self::child_wf(
                    self.bounds,
                    self.level,
                    self.max_depth,
                    self.capacity,
                    *top_left,
                    Quadrant::TopLeft,
                )
                &&& Self::child_wf(
                    self.bounds,
                    self.level,
                    self.max_depth,
                    self.capacity,
                    *top_right,
                    Quadrant::TopRight,
                )
                &&& Self::child_wf(
                    self.bounds,
                    self.level,
                    self.max_depth,
                    self.capacity,
                    *bottom_left,
                    Quadrant::BottomLeft,
                )
                &&& Self::child_wf(
                    self.bounds,
                    self.level,
                    self.max_depth,
                    self.capacity,
                    *bottom_right,
                    Quadrant::BottomRight,
                )
            },
        }
    }

    /// An empty tree over `bounds` at depth `level`, with the default limits.
    pub fn new(level: u8, bounds: AABB<i32>) -> (tree: Self)
        requires
            region_ok(bounds),
            obeys_concrete_eq::<Handle>(),
        ensures
            tree.wf(),
            tree@ == Multiset::<BroadPhaseElement<Handle>>::empty(),
            tree.is_leaf(),
            tree.spec_bounds() == bounds,
            tree.spec_level() == level,
            tree.spec_max_depth() == MAX_DEPTH,
            tree.spec_capacity() == MAX_CHILDREN,
            tree.tight(),
            tree.grown_from(nothing::<Handle>()),
    {
        Self::with_limits(level, bounds, MAX_DEPTH, MAX_CHILDREN)
    }

    /// An empty tree over `bounds` at depth `level` whose leaves are split
    /// once they hold more than `capacity` elements, down to `max_depth`.
    pub fn with_limits(level: u8, bounds: AABB<i32>, max_depth: u8, capacity: usize) -> (tree:
        Self)
        requires
            region_ok(bounds),
            obeys_concrete_eq::<Handle>(),
        ensures
            tree.wf(),
            tree@ == Multiset::<BroadPhaseElement<Handle>>::empty(),
            tree.is_leaf(),
            tree.spec_bounds() == bounds,
            tree.spec_level() == level,
            tree.spec_max_depth() == max_depth,
            tree.spec_capacity() == capacity,
            tree.tight(),
            tree.grown_from(nothing::<Handle>()),
    {
        let elements: Vec<BroadPhaseElement<Handle>> = Vec::new();
        QuadTree { bounds, level, max_depth, capacity, node: Node::Leaf(elements) }
    }
}

impl<Handle: PartialEq + Copy> QuadTree<Handle> {
    /// The bounds of this node followed by those of every node below it,
    /// children in the order top-left, top-right, bottom-left, bottom-right.
    pub open spec fn node_bounds(&self) -> Seq<AABB<i32>>
        decreases self,
    {
        if self.is_leaf() {
            seq![self.spec_bounds()]
        } else {
            seq![self.spec_bounds()] + self.child(Quadrant::TopLeft).node_bounds() + self.child(
                Quadrant::TopRight,
            ).node_bounds() + self.child(Quadrant::BottomLeft).node_bounds() + self.child(
                Quadrant::BottomRight,
            ).node_bounds()
        }
    }

    /// No branch of the tree is empty: every branch holds an element itself
    /// or somewhere below it.
    pub open spec fn pruned(&self) -> bool
        decreases self,
    {
        self.is_leaf() || {
            &&& self@.len() > 0
            &&& self.child(Quadrant::TopLeft).pruned()
            &&& self.child(Quadrant::TopRight).pruned()
            &&& self.child(Quadrant::BottomLeft).pruned()
            &&& self.child(Quadrant::BottomRight).pruned()
        }
    }

    /// The tree is the one that comes of putting the elements of `list`, in
    /// their order, into an empty tree: a leaf holds the list as it is, a
    /// branch was needed because the list is longer than a leaf takes, and
    /// each of its lists holds, in the order of `list`, the elements that are
    /// filed there.
    pub open spec fn grown_from(&self, list: Seq<BroadPhaseElement<Handle>>) -> bool
        decreases self,
    {
        if self.is_leaf() {
            &&& self.own() == list
            &&& list.len() <= self.spec_capacity() || self.spec_level() >= self.spec_max_depth()
        } else {
            &&& list.len() > self.spec_capacity()
            &&& self.spec_level() < self.spec_max_depth()
            &&& self.own() == list.filter(kept_here(self.spec_bounds()))
            &&& self.child(Quadrant::TopLeft).grown_from(
                list.filter(sent_to(self.spec_bounds(), Quadrant::TopLeft)),
            )
            &&& self.child(Quadrant::TopRight).grown_from(
                list.filter(sent_to(self.spec_bounds(), Quadrant::TopRight)),
            )
            &&& self.child(Quadrant::BottomLeft).grown_from(
                list.filter(sent_to(self.spec_bounds(), Quadrant::BottomLeft)),
            )
            &&& self.child(Quadrant::BottomRight).grown_from(
                list.filter(sent_to(self.spec_bounds(), Quadrant::BottomRight)),
            )
        }
    }

    /// Every branch of the tree holds more elements than a leaf takes: no
    /// branch could be a leaf again. A tree that has only been added to is
    /// like this.
    pub open spec fn tight(&self) -> bool
        decreases self,
    {
        self.is_leaf() || {
            &&& self@.len() > self.spec_capacity()
            &&& self.child(Quadrant::TopLeft).tight()
            &&& self.child(Quadrant::TopRight).tight()
            &&& self.child(Quadrant::BottomLeft).tight()
            &&& self.child(Quadrant::BottomRight).tight()
        }
    }

    /// Every child of `after` but the one for `except` is the child that
    /// `before` has for the same quadrant.
    pub open spec fn children_kept(
        before: QuadTree<Handle>,
        after: QuadTree<Handle>,
        except: Option<Quadrant>,
    ) -> bool {
        forall|quadrant: Quadrant|
            Some(quadrant) != except ==> #[trigger] after.child(quadrant) == before.child(quadrant)
    }

    /// The two trees stand over the same region at the same depth and have
    /// the same limits.
    pub open spec fn same_frame(before: QuadTree<Handle>, after: QuadTree<Handle>) -> bool {
        &&& after.spec_bounds() == before.spec_bounds()
        &&& after.spec_level() == before.spec_level()
        &&& after.spec_max_depth() == before.spec_max_depth()
        &&& after.spec_capacity() == before.spec_capacity()
    }

    /// The region this node covers.
    pub fn bounds(&self) -> (bounds: AABB<i32>)
        ensures
            bounds == self.spec_bounds(),
    {
        self.bounds
    }

    /// The depth of this node, as given when the tree was made.
    pub fn level(&self) -> (level: u8)
        ensures
            level == self.spec_level(),
    {
        self.level
    }

    /// The depth at which leaves are no longer split.
    pub fn max_depth(&self) -> (max_depth: u8)
        ensures
            max_depth == self.spec_max_depth(),
    {
        self.max_depth
    }

    /// The number of elements that a leaf holds before it is split.
    pub fn capacity(&self) -> (capacity: usize)
        ensures
            capacity == self.spec_capacity(),
    {
        self.capacity
    }

    /// What this node holds.
    pub fn node(&self) -> (node: &Node<Handle>)
        ensures
            *node == self.spec_node(),
    {
        &self.node
    }

    /// The number of elements in the tree.
    pub fn len(&self) -> (n: usize)
        requires
            self@.len() <= usize::MAX,
        ensures
            n == self@.len(),
        decreases self,
    {
        match &self.node {
            Node::Leaf(children) => children.len(),
            Node::Branch { elements, top_left, top_right, bottom_left, bottom_right } => {
                elements.len() + top_left.len() + top_right.len() + bottom_left.len()
                    + bottom_right.len()
            },
        }
    }

    /// Whether the tree holds no element.
    pub fn is_empty(&self) -> (empty: bool)
        ensures
            empty == (self@.len() == 0),
        decreases self,
    {
        match &self.node {
            Node::Leaf(children) => children.len() == 0,
            Node::Branch { elements, top_left, top_right, bottom_left, bottom_right } => {
                elements.len() == 0 && top_left.is_empty() && top_right.is_empty()
                    && bottom_left.is_empty() && bottom_right.is_empty()
            },
        }
    }

    /// Empties the tree back to a single leaf.
    pub fn clear(&mut self)
        requires
            region_ok(old(self).spec_bounds()),
            obeys_concrete_eq::<Handle>(),
        ensures
            final(self).wf(),
            final(self).is_leaf(),
            final(self)@ == Multiset::<BroadPhaseElement<Handle>>::empty(),
            final(self).spec_bounds() == old(self).spec_bounds(),
            final(self).spec_level() == old(self).spec_level(),
            final(self).spec_max_depth() == old(self).spec_max_depth(),
            final(self).spec_capacity() == old(self).spec_capacity(),
    {
        let elements: Vec<BroadPhaseElement<Handle>> = Vec::new();
        self.node = Node::Leaf(elements);
    }

    /// What `clean_up` does to a tree: a leaf stays as it is; a branch that
    /// holds nothing, itself or below, becomes an empty leaf; any other
    /// branch keeps its own list, and its children are cleaned up likewise.
    pub open spec fn cleaned(before: QuadTree<Handle>, after: QuadTree<Handle>) -> bool
        decreases before,
    {
        &&& Self::same_frame(before, after)
        &&& if before.is_leaf() {
            after == before
        } else if before@.len() == 0 {
            after.is_leaf() && after.own().len() == 0
        } else {
            &&& !after.is_leaf()
            &&& after.own() == before.own()
            &&& Self::cleaned(before.child(Quadrant::TopLeft), after.child(Quadrant::TopLeft))
            &&& Self::cleaned(before.child(Quadrant::TopRight), after.child(Quadrant::TopRight))
            &&& Self::cleaned(
                before.child(Quadrant::BottomLeft),
                after.child(Quadrant::BottomLeft),
            )
            &&& Self::cleaned(
                before.child(Quadrant::BottomRight),
                after.child(Quadrant::BottomRight),
            )
        }
    }

    /// Turns every branch that holds nothing, itself or below, back into an
    /// empty leaf, and says whether the whole tree is empty.
    pub fn clean_up(&mut self) -> (empty: bool)
        requires
            old(self).wf(),
        ensures
            final(self).wf(),
            final(self).pruned(),
            Self::cleaned(*old(self), *final(self)),
            final(self)@ == old(self)@,
            empty == (old(self)@.len() == 0),
            empty ==> final(self).is_leaf(),
            old(self).is_leaf() ==> final(self).is_leaf(),
            final(self).spec_bounds() == old(self).spec_bounds(),
            final(self).spec_level() == old(self).spec_level(),
            final(self).spec_max_depth() == old(self).spec_max_depth(),
            final(self).spec_capacity() == old(self).spec_capacity(),
        decreases *old(self),
    {
        let empty = match &mut self.node {
            Node::Branch { elements, top_left, top_right, bottom_left, bottom_right } => {
                let top_left_empty = top_left.clean_up();
                let top_right_empty = top_right.clean_up();
                let bottom_left_empty = bottom_left.clean_up();
                let bottom_right_empty = bottom_right.clean_up();
                elements.len() == 0 && top_left_empty && top_right_empty && bottom_left_empty
                    && bottom_right_empty
            },
            Node::Leaf(children) => children.len() == 0,
        };
        if empty && self.node.is_branch() {
            assert(old(self)@ =~= Multiset::<BroadPhaseElement<Handle>>::empty());
            self.clear();
        }
        empty
    }

    /// The region of every node of the tree, this node's first.
    pub fn get_node_aabb(&self) -> (regions: Vec<AABB<i32>>)
        ensures
            regions@ == self.node_bounds(),
    {
        let mut regions: Vec<AABB<i32>> = Vec::new();
        self.push_node_aabb(&mut regions);
        regions
    }

    fn push_node_aabb(&self, regions: &mut Vec<AABB<i32>>)
        ensures
            final(regions)@ == old(regions)@ + self.node_bounds(),
        decreases self,
    {
        regions.push(self.bounds);
        match &self.node {
            Node::Leaf(_) => {},
            Node::Branch { top_left, top_right, bottom_left, bottom_right, .. } => {
                top_left.push_node_aabb(regions);
                top_right.push_node_aabb(regions);
                bottom_left.push_node_aabb(regions);
                bottom_right.push_node_aabb(regions);
            },
        }
    }
}

} // verus!
