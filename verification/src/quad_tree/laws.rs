//! What holds of every valid tree, stated over the tree's contents and its
//! public shape.

use vstd::multiset::Multiset;
use vstd::prelude::*;

use crate::collision::CollisionPair;
use crate::quad_tree::pairs::{overlapping, reports, two_entries};
use crate::quad_tree::insert::{lemma_filter_empty, lemma_filter_push};
use crate::quad_tree::{kept_here, nothing, route, sent_to, QuadTree, Quadrant};
use crate::shape::aabb::{lemma_common_point_intersects, AABB};
use crate::world::broad::BroadPhaseElement;

verus! {

broadcast use vstd::seq_lib::group_to_multiset_ensures;

/// The contents of a leaf are the elements of its own list.
pub proof fn law_leaf_contents<Handle: PartialEq + Copy>(tree: QuadTree<Handle>)
    requires
        tree.is_leaf(),
    ensures
        tree@ == tree.own().to_multiset(),
{
}

/// The contents of a branch are the elements of its own list and the
/// contents of its four children.
pub proof fn law_branch_contents<Handle: PartialEq + Copy>(tree: QuadTree<Handle>)
    requires
        !tree.is_leaf(),
    ensures
        tree@ == tree.own().to_multiset().add(tree.child(Quadrant::TopLeft)@).add(
            tree.child(Quadrant::TopRight)@,
        ).add(tree.child(Quadrant::BottomLeft)@).add(tree.child(Quadrant::BottomRight)@),
{
}

/// In a valid branch each child is a valid tree one level down, and an
/// element is stored below the child for a quadrant exactly if it is filed
/// under that quadrant. What the branch keeps itself is filed under none.
pub proof fn law_branch_shape<Handle: PartialEq + Copy>(
    tree: QuadTree<Handle>,
    quadrant: Quadrant,
)
    requires
        tree.wf(),
        !tree.is_leaf(),
    ensures
        tree.spec_level() < tree.spec_max_depth(),
        tree.child(quadrant).wf(),
        tree.child(quadrant).spec_level() == tree.spec_level() + 1,
        tree.child(quadrant).spec_max_depth() == tree.spec_max_depth(),
        tree.child(quadrant).spec_capacity() == tree.spec_capacity(),
        tree.child(quadrant).spec_bounds() == crate::quad_tree::quadrant_bounds(
            tree.spec_bounds(),
            quadrant,
        ),
        forall|e: BroadPhaseElement<Handle>| #[trigger]
            tree.child(quadrant)@.count(e) > 0 ==> route(tree.spec_bounds(), e.aabb) == Some(
                quadrant,
            ),
        forall|e: BroadPhaseElement<Handle>| #[trigger]
            tree.own().to_multiset().count(e) > 0 ==> route(tree.spec_bounds(), e.aabb) is None,
{
    assert forall|e: BroadPhaseElement<Handle>| #[trigger]
        tree.child(quadrant)@.count(e) > 0 implies route(tree.spec_bounds(), e.aabb) == Some(
        quadrant,
    ) by {}
    assert forall|e: BroadPhaseElement<Handle>| #[trigger]
        tree.own().to_multiset().count(e) > 0 implies route(tree.spec_bounds(), e.aabb) is None by {}
}

/// Every element stored in a valid tree has a box that reaches the tree's
/// region.
pub proof fn law_stored_reach_region<Handle: PartialEq + Copy>(
    tree: QuadTree<Handle>,
    element: BroadPhaseElement<Handle>,
)
    requires
        tree.wf(),
        tree@.count(element) > 0,
    ensures
        element.aabb.spec_intersects(&tree.spec_bounds()),
{
    if !tree.is_leaf() {
        law_branch_contents(tree);
        if !(tree.own().to_multiset().count(element) > 0) {
            let quadrant = if tree.child(Quadrant::TopLeft)@.count(element) > 0 {
                Quadrant::TopLeft
            } else if tree.child(Quadrant::TopRight)@.count(element) > 0 {
                Quadrant::TopRight
            } else if tree.child(Quadrant::BottomLeft)@.count(element) > 0 {
                Quadrant::BottomLeft
            } else {
                Quadrant::BottomRight
            };
            law_branch_shape(tree, quadrant);
        }
    }
}

/// An element stored in a valid tree stands in the list of the node that
/// its box is filed at.
pub proof fn law_filed_where_routed<Handle: PartialEq + Copy>(
    tree: QuadTree<Handle>,
    element: BroadPhaseElement<Handle>,
)
    requires
        tree.wf(),
        tree@.count(element) > 0,
    ensures
        tree.filed_at(element.aabb).contains(element),
        tree.holds(element.handle, element.aabb),
    decreases tree,
{
    if !tree.is_leaf() {
        law_branch_contents(tree);
        law_branch_shape(tree, Quadrant::TopLeft);
        law_branch_shape(tree, Quadrant::TopRight);
        law_branch_shape(tree, Quadrant::BottomLeft);
        law_branch_shape(tree, Quadrant::BottomRight);
        match route(tree.spec_bounds(), element.aabb) {
            None => {
            },
            Some(quadrant) => {
                law_filed_where_routed(tree.child(quadrant), element);
            },
        }
    }
}

/// Whatever stands in the list of the node that a box is filed at is stored
/// in the tree.
pub proof fn lemma_filed_are_stored<Handle: PartialEq + Copy>(
    tree: QuadTree<Handle>,
    aabb: AABB<i32>,
    element: BroadPhaseElement<Handle>,
)
    requires
        tree.filed_at(aabb).contains(element),
    ensures
        tree@.count(element) > 0,
    decreases tree,
{
    if !tree.is_leaf() {
        law_branch_contents(tree);
        match route(tree.spec_bounds(), aabb) {
            None => {
            },
            Some(quadrant) => {
                lemma_filed_are_stored(tree.child(quadrant), aabb, element);
            },
        }
    }
}

/// If an element is the only one stored under its handle, then removing
/// that handle under the element's box takes out this element.
pub proof fn law_sole_handle_located<Handle: PartialEq + Copy>(
    tree: QuadTree<Handle>,
    element: BroadPhaseElement<Handle>,
)
    requires
        tree.wf(),
        tree@.count(element) > 0,
        forall|e: BroadPhaseElement<Handle>| #[trigger]
            tree@.count(e) > 0 && e.handle == element.handle ==> e == element,
    ensures
        tree.located(element.handle, element.aabb) == element,
{
    law_filed_where_routed(tree, element);
    let list = tree.filed_at(element.aabb);
    let k0 = choose|k: int| 0 <= k < list.len() && (#[trigger] list[k]).handle == element.handle;
    lemma_first_exists(list, element.handle, k0);
    let k = choose|k: int| crate::quad_tree::remove::is_first_with(list, element.handle, k);
    lemma_filed_are_stored(tree, element.aabb, list[k]);
}

/// A list that holds a handle at some place has a first place that holds
/// it.
pub proof fn lemma_first_exists<Handle: PartialEq + Copy>(
    list: Seq<BroadPhaseElement<Handle>>,
    handle: Handle,
    at: int,
)
    requires
        0 <= at < list.len(),
        list[at].handle == handle,
    ensures
        exists|k: int| crate::quad_tree::remove::is_first_with(list, handle, k),
    decreases at,
{
    if exists|j: int| 0 <= j < at && (#[trigger] list[j]).handle == handle {
        let j = choose|j: int| 0 <= j < at && (#[trigger] list[j]).handle == handle;
        lemma_first_exists(list, handle, j);
    } else {
        assert(crate::quad_tree::remove::is_first_with(list, handle, at));
    }
}

/// Elements put one after another into a fresh tree leave it a single leaf
/// for as long as no more than its capacity have been put in. If every one
/// of them reaches the tree's region and the tree may still be split, the
/// element after that turns the leaf into a branch.
pub proof fn law_capacity<Handle: PartialEq + Copy>(
    trees: Seq<QuadTree<Handle>>,
    elements: Seq<BroadPhaseElement<Handle>>,
)
    requires
        trees.len() == elements.len() + 1,
        trees[0].wf(),
        trees[0].is_leaf(),
        trees[0]@.len() == 0,
        forall|i: int|
            0 <= i < elements.len() ==> #[trigger] QuadTree::insert_step(
                trees[i],
                elements[i],
                trees[i + 1],
            ),
    ensures
        forall|i: int|
            0 <= i <= elements.len() && i <= trees[0].spec_capacity() ==> (#[trigger] trees[i]).is_leaf(),
        elements.len() > trees[0].spec_capacity() && trees[0].spec_level() < trees[0].spec_max_depth()
            && (forall|i: int|
            0 <= i < elements.len() ==> (#[trigger] elements[i]).aabb.spec_intersects(
                &trees[0].spec_bounds(),
            )) ==> !trees[trees[0].spec_capacity() + 1].is_leaf(),
{
    let capacity = trees[0].spec_capacity() as int;
    assert forall|i: int| 0 <= i <= elements.len() && i <= capacity implies (#[trigger] trees[i]).is_leaf() by {
        lemma_capacity_prefix(trees, elements, i);
    }
    if elements.len() > capacity && trees[0].spec_level() < trees[0].spec_max_depth() && (forall|
        i: int,
    |
        0 <= i < elements.len() ==> (#[trigger] elements[i]).aabb.spec_intersects(
            &trees[0].spec_bounds(),
        )) {
        lemma_capacity_prefix(trees, elements, capacity);
        assert(QuadTree::insert_step(trees[capacity], elements[capacity], trees[capacity + 1]));
    }
}

/// After `count` insertions into a fresh tree, with `count` within the
/// capacity, the tree is a leaf over the same region that holds at most
/// `count` elements, and exactly `count` where every element so far reached
/// the region.
proof fn lemma_capacity_prefix<Handle: PartialEq + Copy>(
    trees: Seq<QuadTree<Handle>>,
    elements: Seq<BroadPhaseElement<Handle>>,
    count: int,
)
    requires
        trees.len() == elements.len() + 1,
        trees[0].wf(),
        trees[0].is_leaf(),
        trees[0]@.len() == 0,
        forall|i: int|
            0 <= i < elements.len() ==> #[trigger] QuadTree::insert_step(
                trees[i],
                elements[i],
                trees[i + 1],
            ),
        0 <= count <= elements.len(),
        count <= trees[0].spec_capacity(),
    ensures
        trees[count].is_leaf(),
        trees[count].wf(),
        trees[count].spec_bounds() == trees[0].spec_bounds(),
        trees[count].spec_level() == trees[0].spec_level(),
        trees[count].spec_max_depth() == trees[0].spec_max_depth(),
        trees[count].spec_capacity() == trees[0].spec_capacity(),
        trees[count]@.len() <= count,
        (forall|i: int|
            0 <= i < count ==> (#[trigger] elements[i]).aabb.spec_intersects(
                &trees[0].spec_bounds(),
            )) ==> trees[count]@.len() == count,
    decreases count,
{
    if count > 0 {
        lemma_capacity_prefix(trees, elements, count - 1);
        let i = count - 1;
        assert(QuadTree::insert_step(trees[i], elements[i], trees[i + 1]));
    }
}

/// In a valid tree in which no branch could be a leaf again, the number of
/// elements decides whether the tree is a single leaf: it is one exactly if
/// it holds no more than its capacity or stands at its maximum depth.
pub proof fn law_tight_leaf<Handle: PartialEq + Copy>(tree: QuadTree<Handle>)
    requires
        tree.wf(),
        tree.tight(),
    ensures
        tree.is_leaf() <==> tree@.len() <= tree.spec_capacity() || tree.spec_level()
            >= tree.spec_max_depth(),
{
}

/// The child of a valid branch for a quadrant holds exactly those elements
/// of the tree that are filed under that quadrant, each as often as the tree
/// holds it. So the number of elements below the child is the number of
/// stored elements that are filed under its quadrant.
pub proof fn law_partition<Handle: PartialEq + Copy>(tree: QuadTree<Handle>, quadrant: Quadrant)
    requires
        tree.wf(),
        !tree.is_leaf(),
    ensures
        tree.child(quadrant)@ == tree@.filter(
            |e: BroadPhaseElement<Handle>| route(tree.spec_bounds(), e.aabb) == Some(quadrant),
        ),
        forall|e: BroadPhaseElement<Handle>|
            tree.child(quadrant)@.count(e) == if route(tree.spec_bounds(), e.aabb) == Some(
                quadrant,
            ) {
                #[trigger] tree@.count(e)
            } else {
                0
            },
{
    law_branch_contents(tree);
    law_branch_shape(tree, Quadrant::TopLeft);
    law_branch_shape(tree, Quadrant::TopRight);
    law_branch_shape(tree, Quadrant::BottomLeft);
    law_branch_shape(tree, Quadrant::BottomRight);
    let kept = |e: BroadPhaseElement<Handle>| route(tree.spec_bounds(), e.aabb) == Some(quadrant);
    assert forall|e: BroadPhaseElement<Handle>|
        tree.child(quadrant)@.count(e) == if route(tree.spec_bounds(), e.aabb) == Some(quadrant) {
            #[trigger] tree@.count(e)
        } else {
            0
        } by {}
    assert(tree.child(quadrant)@ =~= tree@.filter(kept)) by {
        assert forall|e: BroadPhaseElement<Handle>|
            tree.child(quadrant)@.count(e) == tree@.filter(kept).count(e) by {}
    }
}

/// Removing an element from a branch changes the contents of one child at
/// most: the one under whose quadrant the element that left was filed. The
/// contents of every other child stay as they were.
pub proof fn law_removal<Handle: PartialEq + Copy>(
    before: QuadTree<Handle>,
    element: BroadPhaseElement<Handle>,
    after: QuadTree<Handle>,
    quadrant: Quadrant,
)
    requires
        before.wf(),
        !before.is_leaf(),
        element.aabb.spec_intersects(&before.spec_bounds()),
        before.holds(element.handle, element.aabb),
        QuadTree::remove_step(before, element, after),
    ensures
        after.child(quadrant)@ == if route(
            before.spec_bounds(),
            before.located(element.handle, element.aabb).aabb,
        ) == Some(quadrant) {
            before.child(quadrant)@.remove(before.located(element.handle, element.aabb))
        } else {
            before.child(quadrant)@
        },
{
    let gone = before.located(element.handle, element.aabb);
    law_partition(before, quadrant);
    law_partition(after, quadrant);
    assert forall|e: BroadPhaseElement<Handle>|
        after.child(quadrant)@.count(e) == (if route(before.spec_bounds(), gone.aabb) == Some(
            quadrant,
        ) {
            before.child(quadrant)@.remove(gone)
        } else {
            before.child(quadrant)@
        }).count(e) by {}
}

/// A child of a valid branch is empty once the tree holds no element that
/// is filed under the child's quadrant.
pub proof fn law_quadrant_emptied<Handle: PartialEq + Copy>(
    tree: QuadTree<Handle>,
    quadrant: Quadrant,
)
    requires
        tree.wf(),
        !tree.is_leaf(),
        forall|e: BroadPhaseElement<Handle>| #[trigger]
            tree@.count(e) > 0 ==> route(tree.spec_bounds(), e.aabb) != Some(quadrant),
    ensures
        tree.child(quadrant)@.len() == 0,
{
    law_partition(tree, quadrant);
    assert forall|e: BroadPhaseElement<Handle>| tree.child(quadrant)@.count(e) == 0 by {}
    assert(tree.child(quadrant)@ =~= Multiset::<BroadPhaseElement<Handle>>::empty());
}

/// The element that a removal takes out is stored and carries the handle
/// that was asked for.
pub proof fn law_located_is_stored<Handle: PartialEq + Copy>(
    tree: QuadTree<Handle>,
    handle: Handle,
    aabb: AABB<i32>,
)
    requires
        tree.holds(handle, aabb),
    ensures
        tree@.count(tree.located(handle, aabb)) > 0,
        tree.located(handle, aabb).handle == handle,
{
    let list = tree.filed_at(aabb);
    let k0 = choose|k: int| 0 <= k < list.len() && (#[trigger] list[k]).handle == handle;
    lemma_first_exists(list, handle, k0);
    let k = choose|k: int| crate::quad_tree::remove::is_first_with(list, handle, k);
    lemma_filed_are_stored(tree, aabb, list[k]);
}

/// An element put into a tree that holds nothing under its handle, and
/// then removed again, leaves the contents of the tree as they were before.
pub proof fn law_insert_then_remove<Handle: PartialEq + Copy>(
    start: QuadTree<Handle>,
    element: BroadPhaseElement<Handle>,
    filled: QuadTree<Handle>,
    end: QuadTree<Handle>,
)
    requires
        start.wf(),
        forall|e: BroadPhaseElement<Handle>| #[trigger] start@.count(e) > 0 ==> e.handle != element.handle,
        QuadTree::insert_step(start, element, filled),
        QuadTree::remove_step(filled, element, end),
    ensures
        end@ == start@,
        !element.aabb.spec_intersects(&start.spec_bounds()) || filled.holds(
            element.handle,
            element.aabb,
        ),
{
    if element.aabb.spec_intersects(&start.spec_bounds()) {
        law_filed_where_routed(filled, element);
        law_sole_handle_located(filled, element);
    }
}

/// Two different entries of a tree whose boxes hold a common point overlap,
/// so `check_collisions` reports their handles.
pub proof fn law_meeting_entries_overlap<Handle: PartialEq + Copy>(
    tree: QuadTree<Handle>,
    e1: BroadPhaseElement<Handle>,
    e2: BroadPhaseElement<Handle>,
    x: int,
    y: int,
    scale: int,
)
    requires
        two_entries(tree@, e1, e2),
        scale > 0,
        e1.aabb.holds_point(x, y, scale),
        e2.aabb.holds_point(x, y, scale),
    ensures
        overlapping(tree@, e1.handle, e2.handle),
{
    lemma_common_point_intersects(e1.aabb, e2.aabb, x, y, scale);
}

/// Two lists of pairs that each report exactly the overlapping pairs of
/// their tree report the same pairs if the two trees hold the same
/// elements, whatever shape each tree has.
pub proof fn law_same_contents_same_pairs<Handle: PartialEq + Copy>(
    one: QuadTree<Handle>,
    other: QuadTree<Handle>,
    pairs_one: Seq<CollisionPair<Handle>>,
    pairs_other: Seq<CollisionPair<Handle>>,
)
    requires
        one@ == other@,
        forall|a: Handle, b: Handle|
            #![trigger reports(pairs_one, a, b)]
            reports(pairs_one, a, b) <==> overlapping(one@, a, b),
        forall|a: Handle, b: Handle|
            #![trigger reports(pairs_other, a, b)]
            reports(pairs_other, a, b) <==> overlapping(other@, a, b),
    ensures
        forall|a: Handle, b: Handle|
            reports(pairs_one, a, b) == reports(pairs_other, a, b),
{
}

/// What five filters keep of a list adds up to the list, where every element
/// passes exactly one of them.
proof fn lemma_filters_partition<Handle: PartialEq + Copy>(
    list: Seq<BroadPhaseElement<Handle>>,
    f0: spec_fn(BroadPhaseElement<Handle>) -> bool,
    f1: spec_fn(BroadPhaseElement<Handle>) -> bool,
    f2: spec_fn(BroadPhaseElement<Handle>) -> bool,
    f3: spec_fn(BroadPhaseElement<Handle>) -> bool,
    f4: spec_fn(BroadPhaseElement<Handle>) -> bool,
)
    requires
        forall|e: BroadPhaseElement<Handle>|
            (if f0(e) { 1int } else { 0int }) + (if f1(e) { 1int } else { 0int }) + (if f2(e) {
                1int
            } else {
                0int
            }) + (if f3(e) { 1int } else { 0int }) + (if #[trigger] f4(e) { 1int } else { 0int })
                == 1,
    ensures
        list.filter(f0).to_multiset().add(list.filter(f1).to_multiset()).add(
            list.filter(f2).to_multiset(),
        ).add(list.filter(f3).to_multiset()).add(list.filter(f4).to_multiset())
            == list.to_multiset(),
    decreases list.len(),
{
    if list.len() == 0 {
        lemma_filter_empty(f0);
        lemma_filter_empty(f1);
        lemma_filter_empty(f2);
        lemma_filter_empty(f3);
        lemma_filter_empty(f4);
    } else {
        let rest = list.drop_last();
        let e = list.last();
        assert(list =~= rest.push(e));
        lemma_filters_partition(rest, f0, f1, f2, f3, f4);
        lemma_filter_push(rest, e, f0);
        lemma_filter_push(rest, e, f1);
        lemma_filter_push(rest, e, f2);
        lemma_filter_push(rest, e, f3);
        lemma_filter_push(rest, e, f4);
    }
}

/// A tree that has grown from a list holds the elements of the list, each
/// as often as the list does.
pub proof fn law_grown_contents<Handle: PartialEq + Copy>(
    tree: QuadTree<Handle>,
    list: Seq<BroadPhaseElement<Handle>>,
)
    requires
        tree.grown_from(list),
    ensures
        tree@ == list.to_multiset(),
    decreases tree,
{
    if !tree.is_leaf() {
        let bounds = tree.spec_bounds();
        law_branch_contents(tree);
        law_grown_contents(
            tree.child(Quadrant::TopLeft),
            list.filter(sent_to(bounds, Quadrant::TopLeft)),
        );
        law_grown_contents(
            tree.child(Quadrant::TopRight),
            list.filter(sent_to(bounds, Quadrant::TopRight)),
        );
        law_grown_contents(
            tree.child(Quadrant::BottomLeft),
            list.filter(sent_to(bounds, Quadrant::BottomLeft)),
        );
        law_grown_contents(
            tree.child(Quadrant::BottomRight),
            list.filter(sent_to(bounds, Quadrant::BottomRight)),
        );
        assert forall|e: BroadPhaseElement<Handle>|
            (if kept_here(bounds)(e) { 1int } else { 0int }) + (if sent_to(
                bounds,
                Quadrant::TopLeft,
            )(e) { 1int } else { 0int }) + (if sent_to(bounds, Quadrant::TopRight)(e) {
                1int
            } else {
                0int
            }) + (if sent_to(bounds, Quadrant::BottomLeft)(e) { 1int } else { 0int }) + (if #[trigger] sent_to(
                bounds,
                Quadrant::BottomRight,
            )(e) { 1int } else { 0int }) == 1 by {}
        lemma_filters_partition(
            list,
            kept_here(bounds),
            sent_to(bounds, Quadrant::TopLeft),
            sent_to(bounds, Quadrant::TopRight),
            sent_to(bounds, Quadrant::BottomLeft),
            sent_to(bounds, Quadrant::BottomRight),
        );
    }
}

/// In a tree that has grown from a list no branch could be a leaf again.
pub proof fn law_grown_is_tight<Handle: PartialEq + Copy>(
    tree: QuadTree<Handle>,
    list: Seq<BroadPhaseElement<Handle>>,
)
    requires
        tree.grown_from(list),
    ensures
        tree.tight(),
    decreases tree,
{
    if !tree.is_leaf() {
        let bounds = tree.spec_bounds();
        law_grown_contents(tree, list);
        law_grown_is_tight(
            tree.child(Quadrant::TopLeft),
            list.filter(sent_to(bounds, Quadrant::TopLeft)),
        );
        law_grown_is_tight(
            tree.child(Quadrant::TopRight),
            list.filter(sent_to(bounds, Quadrant::TopRight)),
        );
        law_grown_is_tight(
            tree.child(Quadrant::BottomLeft),
            list.filter(sent_to(bounds, Quadrant::BottomLeft)),
        );
        law_grown_is_tight(
            tree.child(Quadrant::BottomRight),
            list.filter(sent_to(bounds, Quadrant::BottomRight)),
        );
    }
}

/// The two trees have the same shape and hold the same lists at the same
/// places.
pub open spec fn alike<Handle: PartialEq + Copy>(
    one: QuadTree<Handle>,
    other: QuadTree<Handle>,
) -> bool
    decreases one,
{
    &&& one.is_leaf() == other.is_leaf()
    &&& one.own() == other.own()
    &&& !one.is_leaf() ==> {
        &&& alike(one.child(Quadrant::TopLeft), other.child(Quadrant::TopLeft))
        &&& alike(one.child(Quadrant::TopRight), other.child(Quadrant::TopRight))
        &&& alike(one.child(Quadrant::BottomLeft), other.child(Quadrant::BottomLeft))
        &&& alike(one.child(Quadrant::BottomRight), other.child(Quadrant::BottomRight))
    }
}

/// The list that a tree has grown from decides the tree: two valid trees
/// over the same region, with the same limits, that have grown from the same
/// list are alike.
pub proof fn law_growth_decides<Handle: PartialEq + Copy>(
    one: QuadTree<Handle>,
    other: QuadTree<Handle>,
    list: Seq<BroadPhaseElement<Handle>>,
)
    requires
        one.wf(),
        other.wf(),
        QuadTree::same_frame(one, other),
        one.grown_from(list),
        other.grown_from(list),
    ensures
        alike(one, other),
    decreases one,
{
    if !one.is_leaf() {
        let bounds = one.spec_bounds();
        law_branch_shape(one, Quadrant::TopLeft);
        law_branch_shape(one, Quadrant::TopRight);
        law_branch_shape(one, Quadrant::BottomLeft);
        law_branch_shape(one, Quadrant::BottomRight);
        law_branch_shape(other, Quadrant::TopLeft);
        law_branch_shape(other, Quadrant::TopRight);
        law_branch_shape(other, Quadrant::BottomLeft);
        law_branch_shape(other, Quadrant::BottomRight);
        law_growth_decides(
            one.child(Quadrant::TopLeft),
            other.child(Quadrant::TopLeft),
            list.filter(sent_to(bounds, Quadrant::TopLeft)),
        );
        law_growth_decides(
            one.child(Quadrant::TopRight),
            other.child(Quadrant::TopRight),
            list.filter(sent_to(bounds, Quadrant::TopRight)),
        );
        law_growth_decides(
            one.child(Quadrant::BottomLeft),
            other.child(Quadrant::BottomLeft),
            list.filter(sent_to(bounds, Quadrant::BottomLeft)),
        );
        law_growth_decides(
            one.child(Quadrant::BottomRight),
            other.child(Quadrant::BottomRight),
            list.filter(sent_to(bounds, Quadrant::BottomRight)),
        );
    }
}

/// Elements that reach the region of a fresh tree and are put into it one
/// after another give the tree that grows from the list of them.
pub proof fn law_insertion_order<Handle: PartialEq + Copy>(
    trees: Seq<QuadTree<Handle>>,
    elements: Seq<BroadPhaseElement<Handle>>,
    count: int,
)
    requires
        trees.len() == elements.len() + 1,
        trees[0].wf(),
        trees[0].grown_from(nothing::<Handle>()),
        forall|i: int|
            0 <= i < elements.len() ==> #[trigger] QuadTree::insert_step(
                trees[i],
                elements[i],
                trees[i + 1],
            ),
        forall|i: int|
            0 <= i < elements.len() ==> (#[trigger] elements[i]).aabb.spec_intersects(
                &trees[0].spec_bounds(),
            ),
        0 <= count <= elements.len(),
    ensures
        trees[count].wf(),
        QuadTree::same_frame(trees[0], trees[count]),
        trees[count].grown_from(elements.take(count)),
        trees[count]@ == elements.take(count).to_multiset(),
    decreases count,
{
    if count == 0 {
        assert(elements.take(0) =~= nothing::<Handle>());
    } else {
        let i = count - 1;
        law_insertion_order(trees, elements, i);
        assert(QuadTree::insert_step(trees[i], elements[i], trees[i + 1]));
        QuadTree::lemma_growth(trees[i], elements[i], trees[i + 1], elements.take(i));
        assert(elements.take(count) =~= elements.take(i).push(elements[i]));
    }
    law_grown_contents(trees[count], elements.take(count));
}

} // verus!
