use vstd::laws_eq::obeys_concrete_eq;
use vstd::multiset::Multiset;
use vstd::prelude::*;

use crate::collision::{joined, CollisionPair};
use crate::world::broad::BroadPhaseElement;

verus! {

broadcast use vstd::seq_lib::group_to_multiset_ensures;

/// `e1` and `e2` are two different entries of `contents`: two different
/// elements, or one element that is stored at least twice.
pub open spec fn two_entries<Handle: PartialEq + Copy>(
    contents: Multiset<BroadPhaseElement<Handle>>,
    e1: BroadPhaseElement<Handle>,
    e2: BroadPhaseElement<Handle>,
) -> bool {
    if e1 == e2 {
        contents.count(e1) >= 2
    } else {
        contents.count(e1) >= 1 && contents.count(e2) >= 1
    }
}

/// Two different entries of `contents` carry the handles `a` and `b` and
/// have boxes that share a point.
pub open spec fn overlapping<Handle: PartialEq + Copy>(
    contents: Multiset<BroadPhaseElement<Handle>>,
    a: Handle,
    b: Handle,
) -> bool {
    exists|e1: BroadPhaseElement<Handle>, e2: BroadPhaseElement<Handle>| #[trigger]
        two_entries(contents, e1, e2) && e1.handle == a && e2.handle == b
            && e1.aabb.spec_intersects(&e2.aabb)
}

/// The box of `probe` shares a point with the box of some element of
/// `contents`, and the two carry the handles `a` and `b`, in either order.
pub open spec fn touching<Handle: PartialEq + Copy>(
    contents: Multiset<BroadPhaseElement<Handle>>,
    probe: BroadPhaseElement<Handle>,
    a: Handle,
    b: Handle,
) -> bool {
    exists|e: BroadPhaseElement<Handle>| #[trigger]
        contents.count(e) > 0 && probe.aabb.spec_intersects(&e.aabb) && joined(
            probe.handle,
            e.handle,
            a,
            b,
        )
}

/// Some pair of the list names `a` and `b`, in either order.
pub open spec fn reports<Handle: PartialEq + Copy>(
    pairs: Seq<CollisionPair<Handle>>,
    a: Handle,
    b: Handle,
) -> bool {
    exists|i: int| 0 <= i < pairs.len() && #[trigger] joined(pairs[i].a, pairs[i].b, a, b)
}

/// No two pairs of the list name the same two handles.
pub open spec fn distinct_pairs<Handle: PartialEq + Copy>(
    pairs: Seq<CollisionPair<Handle>>,
) -> bool {
    forall|i: int, j: int|
        #![trigger pairs[i], pairs[j]]
        0 <= i < j < pairs.len() ==> !joined(pairs[i].a, pairs[i].b, pairs[j].a, pairs[j].b)
}

/// Adds the pair of `a` and `b` to a list of distinct pairs, unless the list
/// names the two already.
pub(super) fn note_pair<Handle: PartialEq + Copy>(
    out: &mut Vec<CollisionPair<Handle>>,
    a: Handle,
    b: Handle,
)
    requires
        obeys_concrete_eq::<Handle>(),
        distinct_pairs(old(out)@),
    ensures
        distinct_pairs(final(out)@),
        forall|x: Handle, y: Handle|
            #![trigger reports(final(out)@, x, y)]
            reports(final(out)@, x, y) <==> reports(old(out)@, x, y) || joined(a, b, x, y),
{
    let mut i: usize = 0;
    while i < out.len()
        invariant
            obeys_concrete_eq::<Handle>(),
            *out == *old(out),
            distinct_pairs(out@),
            i <= out.len(),
            forall|j: int| 0 <= j < i ==> !#[trigger] joined(out@[j].a, out@[j].b, a, b),
        decreases out.len() - i,
    {
        if out[i].same_pair(&CollisionPair { a, b }) {
            assert forall|x: Handle, y: Handle|
                #![trigger reports(out@, x, y)]
                reports(out@, x, y) <==> reports(old(out)@, x, y) || joined(a, b, x, y) by {
                if joined(a, b, x, y) {
                    assert(joined(out@[i as int].a, out@[i as int].b, x, y));
                }
            }
            return ;
        }
        i += 1;
    }
    out.push(CollisionPair { a, b });
    let ghost last = out@.len() - 1;
    assert forall|p: int, q: int|
        #![trigger out@[p], out@[q]]
        0 <= p < q < out@.len() implies !joined(out@[p].a, out@[p].b, out@[q].a, out@[q].b) by {}
    assert forall|x: Handle, y: Handle|
        #![trigger reports(out@, x, y)]
        reports(out@, x, y) <==> reports(old(out)@, x, y) || joined(a, b, x, y) by {
        if reports(old(out)@, x, y) {
            let k = choose|k: int|
                0 <= k < old(out)@.len() && #[trigger] joined(
                    old(out)@[k].a,
                    old(out)@[k].b,
                    x,
                    y,
                );
            assert(joined(out@[k].a, out@[k].b, x, y));
        }
        if joined(a, b, x, y) {
            assert(joined(out@[last].a, out@[last].b, x, y));
        }
    }
}

/// Notes the pair of `probe` with every element of `list` whose box shares
/// a point with the box of `probe`.
pub(super) fn pairs_against<Handle: PartialEq + Copy>(
    list: &Vec<BroadPhaseElement<Handle>>,
    probe: &BroadPhaseElement<Handle>,
    out: &mut Vec<CollisionPair<Handle>>,
)
    requires
        obeys_concrete_eq::<Handle>(),
        distinct_pairs(old(out)@),
    ensures
        distinct_pairs(final(out)@),
        forall|x: Handle, y: Handle|
            #![trigger reports(final(out)@, x, y)]
            reports(final(out)@, x, y) <==> reports(old(out)@, x, y) || touching(
                list@.to_multiset(),
                *probe,
                x,
                y,
            ),
{
    let mut i: usize = 0;
    while i < list.len()
        invariant
            obeys_concrete_eq::<Handle>(),
            i <= list.len(),
            distinct_pairs(out@),
            forall|x: Handle, y: Handle|
                #![trigger reports(out@, x, y)]
                reports(out@, x, y) <==> reports(old(out)@, x, y) || exists|k: int|
                    0 <= k < i && probe.aabb.spec_intersects(&list@[k].aabb) && #[trigger] joined(
                        probe.handle,
                        list@[k].handle,
                        x,
                        y,
                    ),
        decreases list.len() - i,
    {
        if probe.aabb.intersects(&list[i].aabb) {
            note_pair(out, probe.handle, list[i].handle);
        }
        assert forall|x: Handle, y: Handle|
            #![trigger reports(out@, x, y)]
            reports(out@, x, y) <==> reports(old(out)@, x, y) || exists|k: int|
                0 <= k < i + 1 && probe.aabb.spec_intersects(&list@[k].aabb) && #[trigger] joined(
                    probe.handle,
                    list@[k].handle,
                    x,
                    y,
                ) by {}
        i += 1;
    }
    assert forall|x: Handle, y: Handle|
        #![trigger reports(out@, x, y)]
        reports(out@, x, y) <==> reports(old(out)@, x, y) || touching(
            list@.to_multiset(),
            *probe,
            x,
            y,
        ) by {
        if exists|k: int|
            0 <= k < list@.len() && probe.aabb.spec_intersects(&list@[k].aabb) && #[trigger] joined(
                probe.handle,
                list@[k].handle,
                x,
                y,
            ) {
            let k = choose|k: int|
                0 <= k < list@.len() && probe.aabb.spec_intersects(&list@[k].aabb)
                    && #[trigger] joined(probe.handle, list@[k].handle, x, y);
            assert(list@.to_multiset().count(list@[k]) > 0);
        }
    }
}

/// The elements at two different places of a list are two different entries
/// of its contents.
pub proof fn lemma_places_are_entries<Handle: PartialEq + Copy>(
    list: Seq<BroadPhaseElement<Handle>>,
    p: int,
    q: int,
)
    requires
        0 <= p < list.len(),
        0 <= q < list.len(),
        p != q,
    ensures
        two_entries(list.to_multiset(), list[p], list[q]),
{
    if list[p] == list[q] {
        let rest = list.remove(p);
        let r = if q < p {
            q
        } else {
            q - 1
        };
        assert(rest[r] == list[q]);
        assert(rest.to_multiset().count(list[q]) > 0);
    }
}

/// Two different entries of a list's contents stand at two different places
/// of the list.
pub proof fn lemma_entries_have_places<Handle: PartialEq + Copy>(
    list: Seq<BroadPhaseElement<Handle>>,
    e1: BroadPhaseElement<Handle>,
    e2: BroadPhaseElement<Handle>,
) -> (places: (int, int))
    requires
        two_entries(list.to_multiset(), e1, e2),
    ensures
        0 <= places.0 < list.len(),
        0 <= places.1 < list.len(),
        places.0 != places.1,
        list[places.0] == e1,
        list[places.1] == e2,
{
    let p = choose|p: int| 0 <= p < list.len() && list[p] == e1;
    if e1 == e2 {
        let rest = list.remove(p);
        assert(rest.to_multiset().count(e2) > 0);
        let r = choose|r: int| 0 <= r < rest.len() && rest[r] == e2;
        let q = if r < p {
            r
        } else {
            r + 1
        };
        (p, q)
    } else {
        let q = choose|q: int| 0 <= q < list.len() && list[q] == e2;
        (p, q)
    }
}

/// The elements at places `p < q` of `list` have boxes that share a point
/// and carry the handles `a` and `b`, in either order, and the place `p`
/// comes before `row`, or is `row` with `q` before `column`.
pub open spec fn met_before<Handle: PartialEq + Copy>(
    list: Seq<BroadPhaseElement<Handle>>,
    row: int,
    column: int,
    a: Handle,
    b: Handle,
) -> bool {
    exists|p: int, q: int|
        0 <= p < q < list.len() && (p < row || (p == row && q < column))
            && list[p].aabb.spec_intersects(&list[q].aabb) && #[trigger] joined(
            list[p].handle,
            list[q].handle,
            a,
            b,
        )
}

/// Notes every pair of elements of `list` whose boxes share a point.
pub(super) fn pairs_within<Handle: PartialEq + Copy>(
    list: &Vec<BroadPhaseElement<Handle>>,
    out: &mut Vec<CollisionPair<Handle>>,
)
    requires
        obeys_concrete_eq::<Handle>(),
        distinct_pairs(old(out)@),
    ensures
        distinct_pairs(final(out)@),
        forall|x: Handle, y: Handle|
            #![trigger reports(final(out)@, x, y)]
            reports(final(out)@, x, y) <==> reports(old(out)@, x, y) || overlapping(
                list@.to_multiset(),
                x,
                y,
            ),
{
    let mut i: usize = 0;
    while i < list.len()
        invariant
            obeys_concrete_eq::<Handle>(),
            i <= list.len(),
            distinct_pairs(out@),
            forall|x: Handle, y: Handle|
                #![trigger reports(out@, x, y)]
                reports(out@, x, y) <==> reports(old(out)@, x, y) || met_before(
                    list@,
                    i as int,
                    0,
                    x,
                    y,
                ),
        decreases list.len() - i,
    {
        let mut j: usize = i + 1;
        while j < list.len()
            invariant
                obeys_concrete_eq::<Handle>(),
                i < list.len(),
                i < j <= list.len(),
                distinct_pairs(out@),
                forall|x: Handle, y: Handle|
                    #![trigger reports(out@, x, y)]
                    reports(out@, x, y) <==> reports(old(out)@, x, y) || met_before(
                        list@,
                        i as int,
                        j as int,
                        x,
                        y,
                    ),
            decreases list.len() - j,
        {
            if list[i].aabb.intersects(&list[j].aabb) {
                note_pair(out, list[i].handle, list[j].handle);
            }
            assert forall|x: Handle, y: Handle|
                #![trigger reports(out@, x, y)]
                reports(out@, x, y) <==> reports(old(out)@, x, y) || met_before(
                    list@,
                    i as int,
                    j + 1,
                    x,
                    y,
                ) by {}
            j += 1;
        }
        assert forall|x: Handle, y: Handle|
            #![trigger reports(out@, x, y)]
            reports(out@, x, y) <==> reports(old(out)@, x, y) || met_before(
                list@,
                i + 1,
                0,
                x,
                y,
            ) by {}
        i += 1;
    }
    assert forall|x: Handle, y: Handle|
        #![trigger reports(out@, x, y)]
        reports(out@, x, y) <==> reports(old(out)@, x, y) || overlapping(
            list@.to_multiset(),
            x,
            y,
        ) by {
        lemma_met_is_overlapping(list@, x, y);
    }
}

/// A list has two places whose elements overlap under the handles `a` and
/// `b` exactly if its contents have two such entries.
pub proof fn lemma_met_is_overlapping<Handle: PartialEq + Copy>(
    list: Seq<BroadPhaseElement<Handle>>,
    a: Handle,
    b: Handle,
)
    ensures
        met_before(list, list.len() as int, 0, a, b) <==> overlapping(list.to_multiset(), a, b),
{
    if met_before(list, list.len() as int, 0, a, b) {
        let (p, q) = choose|p: int, q: int|
            0 <= p < q < list.len() && (p < list.len() || (p == list.len() && q < 0))
                && list[p].aabb.spec_intersects(&list[q].aabb) && #[trigger] joined(
                list[p].handle,
                list[q].handle,
                a,
                b,
            );
        lemma_places_are_entries(list, p, q);
        lemma_places_are_entries(list, q, p);
    }
    if overlapping(list.to_multiset(), a, b) {
        let (e1, e2) = choose|e1: BroadPhaseElement<Handle>, e2: BroadPhaseElement<Handle>| #[trigger]
            two_entries(list.to_multiset(), e1, e2) && e1.handle == a && e2.handle == b
                && e1.aabb.spec_intersects(&e2.aabb);
        let (p, q) = lemma_entries_have_places(list, e1, e2);
        if p < q {
            assert(joined(list[p].handle, list[q].handle, a, b));
        } else {
            assert(joined(list[q].handle, list[p].handle, a, b));
        }
    }
}

/// No element of `left` has a box that shares a point with the box of an
/// element of `right`.
pub open spec fn apart<Handle: PartialEq + Copy>(
    left: Multiset<BroadPhaseElement<Handle>>,
    right: Multiset<BroadPhaseElement<Handle>>,
) -> bool {
    forall|e1: BroadPhaseElement<Handle>, e2: BroadPhaseElement<Handle>|
        #![trigger left.count(e1), right.count(e2)]
        left.count(e1) > 0 && right.count(e2) > 0 ==> !e1.aabb.spec_intersects(&e2.aabb)
}

/// Some element of `own` touches an element of `below` under the handles
/// `a` and `b`.
pub open spec fn reaching<Handle: PartialEq + Copy>(
    own: Multiset<BroadPhaseElement<Handle>>,
    below: Multiset<BroadPhaseElement<Handle>>,
    a: Handle,
    b: Handle,
) -> bool {
    exists|probe: BroadPhaseElement<Handle>| #[trigger]
        own.count(probe) > 0 && touching(below, probe, a, b)
}

/// A probe touches the sum of two collections exactly if it touches one of
/// them.
pub proof fn lemma_touching_sum<Handle: PartialEq + Copy>(
    left: Multiset<BroadPhaseElement<Handle>>,
    right: Multiset<BroadPhaseElement<Handle>>,
    probe: BroadPhaseElement<Handle>,
    a: Handle,
    b: Handle,
)
    ensures
        touching(left.add(right), probe, a, b) <==> touching(left, probe, a, b) || touching(
            right,
            probe,
            a,
            b,
        ),
{
    let all = left.add(right);
    if touching(left, probe, a, b) {
        let e = choose|e: BroadPhaseElement<Handle>| #[trigger]
            left.count(e) > 0 && probe.aabb.spec_intersects(&e.aabb) && joined(
                probe.handle,
                e.handle,
                a,
                b,
            );
        assert(all.count(e) > 0);
    }
    if touching(right, probe, a, b) {
        let e = choose|e: BroadPhaseElement<Handle>| #[trigger]
            right.count(e) > 0 && probe.aabb.spec_intersects(&e.aabb) && joined(
                probe.handle,
                e.handle,
                a,
                b,
            );
        assert(all.count(e) > 0);
    }
}

/// Overlap is symmetric in the two handles.
pub proof fn law_overlapping_symmetric<Handle: PartialEq + Copy>(
    contents: Multiset<BroadPhaseElement<Handle>>,
    a: Handle,
    b: Handle,
)
    ensures
        overlapping(contents, a, b) == overlapping(contents, b, a),
{
    if overlapping(contents, a, b) {
        let (e1, e2) = choose|e1: BroadPhaseElement<Handle>, e2: BroadPhaseElement<Handle>| #[trigger]
            two_entries(contents, e1, e2) && e1.handle == a && e2.handle == b
                && e1.aabb.spec_intersects(&e2.aabb);
        assert(two_entries(contents, e2, e1));
    }
    if overlapping(contents, b, a) {
        let (e1, e2) = choose|e1: BroadPhaseElement<Handle>, e2: BroadPhaseElement<Handle>| #[trigger]
            two_entries(contents, e1, e2) && e1.handle == b && e2.handle == a
                && e1.aabb.spec_intersects(&e2.aabb);
        assert(two_entries(contents, e2, e1));
    }
}

/// The overlapping pairs of the sum of two collections are those of the
/// one, those of the other, and those with one element from each.
pub proof fn lemma_overlapping_sum<Handle: PartialEq + Copy>(
    left: Multiset<BroadPhaseElement<Handle>>,
    right: Multiset<BroadPhaseElement<Handle>>,
    a: Handle,
    b: Handle,
)
    ensures
        overlapping(left.add(right), a, b) <==> overlapping(left, a, b) || overlapping(
            right,
            a,
            b,
        ) || reaching(left, right, a, b),
{
    let all = left.add(right);
    if overlapping(all, a, b) {
        let (e1, e2) = choose|e1: BroadPhaseElement<Handle>, e2: BroadPhaseElement<Handle>| #[trigger]
            two_entries(all, e1, e2) && e1.handle == a && e2.handle == b
                && e1.aabb.spec_intersects(&e2.aabb);
        if two_entries(left, e1, e2) {
        } else if two_entries(right, e1, e2) {
        } else if left.count(e1) > 0 && right.count(e2) > 0 {
        }
    }
    if overlapping(left, a, b) {
        let (e1, e2) = choose|e1: BroadPhaseElement<Handle>, e2: BroadPhaseElement<Handle>| #[trigger]
            two_entries(left, e1, e2) && e1.handle == a && e2.handle == b
                && e1.aabb.spec_intersects(&e2.aabb);
        assert(two_entries(all, e1, e2));
    }
    if overlapping(right, a, b) {
        let (e1, e2) = choose|e1: BroadPhaseElement<Handle>, e2: BroadPhaseElement<Handle>| #[trigger]
            two_entries(right, e1, e2) && e1.handle == a && e2.handle == b
                && e1.aabb.spec_intersects(&e2.aabb);
        assert(two_entries(all, e1, e2));
    }
    if reaching(left, right, a, b) {
        let probe = choose|probe: BroadPhaseElement<Handle>| #[trigger]
            left.count(probe) > 0 && touching(right, probe, a, b);
        let e = choose|e: BroadPhaseElement<Handle>| #[trigger]
            right.count(e) > 0 && probe.aabb.spec_intersects(&e.aabb) && joined(
                probe.handle,
                e.handle,
                a,
                b,
            );
        if probe.handle == a && e.handle == b {
            assert(two_entries(all, probe, e));
        } else {
            assert(two_entries(all, e, probe));
        }
    }
}

/// Nothing of one collection touches anything of another that lies apart
/// from it.
pub proof fn lemma_apart_not_reaching<Handle: PartialEq + Copy>(
    left: Multiset<BroadPhaseElement<Handle>>,
    right: Multiset<BroadPhaseElement<Handle>>,
    a: Handle,
    b: Handle,
)
    requires
        apart(left, right),
    ensures
        !reaching(left, right, a, b),
{
}

/// What lies apart from each of two collections lies apart from their sum.
pub proof fn lemma_apart_sum<Handle: PartialEq + Copy>(
    left: Multiset<BroadPhaseElement<Handle>>,
    right1: Multiset<BroadPhaseElement<Handle>>,
    right2: Multiset<BroadPhaseElement<Handle>>,
)
    requires
        apart(right1, left),
        apart(right2, left),
    ensures
        apart(right1.add(right2), left),
{
    let sum = right1.add(right2);
    assert forall|e1: BroadPhaseElement<Handle>, e2: BroadPhaseElement<Handle>|
        #![trigger sum.count(e1), left.count(e2)]
        sum.count(e1) > 0 && left.count(e2) > 0 implies !e1.aabb.spec_intersects(&e2.aabb) by {}
}

/// The overlapping pairs of a branch: those among its own elements, those
/// of each child, and those of an own element with an element below. The
/// children lie apart from one another, so no pair joins two of them.
pub proof fn lemma_overlapping_parts<Handle: PartialEq + Copy>(
    own: Multiset<BroadPhaseElement<Handle>>,
    tl: Multiset<BroadPhaseElement<Handle>>,
    tr: Multiset<BroadPhaseElement<Handle>>,
    bl: Multiset<BroadPhaseElement<Handle>>,
    br: Multiset<BroadPhaseElement<Handle>>,
    a: Handle,
    b: Handle,
)
    requires
        apart(tl, tr),
        apart(tl, bl),
        apart(tl, br),
        apart(tr, bl),
        apart(tr, br),
        apart(bl, br),
    ensures
        overlapping(own.add(tl).add(tr).add(bl).add(br), a, b) <==> overlapping(own, a, b)
            || reaching(own, tl.add(tr).add(bl).add(br), a, b) || overlapping(tl, a, b)
            || overlapping(tr, a, b) || overlapping(bl, a, b) || overlapping(br, a, b),
{
    let below = tl.add(tr).add(bl).add(br);
    assert(own.add(tl).add(tr).add(bl).add(br) =~= own.add(below));
    lemma_overlapping_sum(own, below, a, b);
    lemma_overlapping_sum(tl.add(tr).add(bl), br, a, b);
    lemma_overlapping_sum(tl.add(tr), bl, a, b);
    lemma_overlapping_sum(tl, tr, a, b);
    lemma_apart_not_reaching(tl, tr, a, b);
    lemma_apart_sum(bl, tl, tr);
    lemma_apart_not_reaching(tl.add(tr), bl, a, b);
    lemma_apart_sum(br, tl, tr);
    lemma_apart_sum(br, tl.add(tr), bl);
    lemma_apart_not_reaching(tl.add(tr).add(bl), br, a, b);
}

} // verus!
