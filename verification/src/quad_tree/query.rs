use vstd::laws_eq::obeys_concrete_eq;
use vstd::multiset::Multiset;
use vstd::prelude::*;

use crate::quad_tree::{Node, QuadTree};
use crate::shape::aabb::AABB;
use crate::world::broad::BroadPhaseElement;

verus! {

broadcast use vstd::seq_lib::group_to_multiset_ensures;

/// Some element of `contents` carries `handle` and has a box that reaches
/// `query`.
pub open spec fn hit_by<Handle: PartialEq + Copy>(
    contents: Multiset<BroadPhaseElement<Handle>>,
    query: AABB<i32>,
    handle: Handle,
) -> bool {
    exists|e: BroadPhaseElement<Handle>| #[trigger]
        contents.count(e) > 0 && e.handle == handle && query.spec_intersects(&e.aabb)
}

/// Adds a handle to a list that holds each handle once, unless it is there.
fn note_handle<Handle: PartialEq + Copy>(out: &mut Vec<Handle>, handle: Handle)
    requires
        obeys_concrete_eq::<Handle>(),
        old(out)@.no_duplicates(),
    ensures
        final(out)@.no_duplicates(),
        forall|h: Handle|
            final(out)@.contains(h) <==> old(out)@.contains(h) || h == handle,
{
    let mut i: usize = 0;
    while i < out.len()
        invariant
            obeys_concrete_eq::<Handle>(),
            *out == *old(out),
            out@.no_duplicates(),
            i <= out.len(),
            forall|j: int| 0 <= j < i ==> out@[j] != handle,
        decreases out.len() - i,
    {
        proof {
            reveal(obeys_concrete_eq);
        }
        if out[i] == handle {
            return ;
        }
        i += 1;
    }
    out.push(handle);
    assert forall|h: Handle| out@.contains(h) <==> old(out)@.contains(h) || h == handle by {
        if old(out)@.contains(h) {
            let k = choose|k: int| 0 <= k < old(out)@.len() && old(out)@[k] == h;
            assert(out@[k] == h);
        }
        if h == handle {
            assert(out@[out@.len() - 1] == h);
        }
    }
}

/// Notes the handle of every element of a list whose box reaches `query`.
fn check_list<Handle: PartialEq + Copy>(
    list: &Vec<BroadPhaseElement<Handle>>,
    query: &AABB<i32>,
    out: &mut Vec<Handle>,
)
    requires
        obeys_concrete_eq::<Handle>(),
        old(out)@.no_duplicates(),
    ensures
        final(out)@.no_duplicates(),
        forall|h: Handle|
            final(out)@.contains(h) <==> old(out)@.contains(h) || hit_by(
                list@.to_multiset(),
                *query,
                h,
            ),
{
    let mut i: usize = 0;
    while i < list.len()
        invariant
            obeys_concrete_eq::<Handle>(),
            i <= list.len(),
            out@.no_duplicates(),
            forall|h: Handle|
                out@.contains(h) <==> old(out)@.contains(h) || exists|k: int|
                    0 <= k < i && (#[trigger] list@[k]).handle == h && query.spec_intersects(
                        &list@[k].aabb,
                    ),
        decreases list.len() - i,
    {
        if query.intersects(&list[i].aabb) {
            note_handle(out, list[i].handle);
        }
        i += 1;
    }
    assert forall|h: Handle|
        out@.contains(h) <==> old(out)@.contains(h) || hit_by(list@.to_multiset(), *query, h) by {
        if exists|k: int|
            0 <= k < list@.len() && (#[trigger] list@[k]).handle == h && query.spec_intersects(
                &list@[k].aabb,
            ) {
            let k = choose|k: int|
                0 <= k < list@.len() && (#[trigger] list@[k]).handle == h && query.spec_intersects(
                    &list@[k].aabb,
                );
            assert(list@.to_multiset().count(list@[k]) > 0);
        }
    }
}

impl<Handle: PartialEq + Copy> QuadTree<Handle> {
    fn inner_check(&self, query: &AABB<i32>, out: &mut Vec<Handle>)
        requires
            self.wf(),
            old(out)@.no_duplicates(),
        ensures
            final(out)@.no_duplicates(),
            forall|h: Handle|
                final(out)@.contains(h) <==> old(out)@.contains(h) || hit_by(self@, *query, h),
        decreases self,
    {
        match &self.node {
            Node::Leaf(children) => {
                check_list(children, query, out);
            },
            Node::Branch { elements, top_left, top_right, bottom_left, bottom_right } => {
                check_list(elements, query, out);
                if query.intersects(&top_left.bounds) {
                    top_left.inner_check(query, out);
                }
                if query.intersects(&top_right.bounds) {
                    top_right.inner_check(query, out);
                }
                if query.intersects(&bottom_left.bounds) {
                    bottom_left.inner_check(query, out);
                }
                if query.intersects(&bottom_right.bounds) {
                    bottom_right.inner_check(query, out);
                }
                proof {
                    let own = elements@.to_multiset();
                    let tl = top_left.contents();
                    let tr = top_right.contents();
                    let bl = bottom_left.contents();
                    let br = bottom_right.contents();
                    assert forall|h: Handle|
                        out@.contains(h) <==> old(out)@.contains(h) || hit_by(self@, *query, h) by {
                        Self::lemma_hit_by_parts(own, tl, tr, bl, br, *query, h);
                    }
                }
            },
        }
    }

    /// A query hits the sum of five collections exactly if it hits one of
    /// them.
    proof fn lemma_hit_by_parts(
        own: Multiset<BroadPhaseElement<Handle>>,
        tl: Multiset<BroadPhaseElement<Handle>>,
        tr: Multiset<BroadPhaseElement<Handle>>,
        bl: Multiset<BroadPhaseElement<Handle>>,
        br: Multiset<BroadPhaseElement<Handle>>,
        query: AABB<i32>,
        handle: Handle,
    )
        ensures
            hit_by(own.add(tl).add(tr).add(bl).add(br), query, handle) <==> hit_by(
                own,
                query,
                handle,
            ) || hit_by(tl, query, handle) || hit_by(tr, query, handle) || hit_by(
                bl,
                query,
                handle,
            ) || hit_by(br, query, handle),
    {
        let all = own.add(tl).add(tr).add(bl).add(br);
        if hit_by(own, query, handle) {
            let e = choose|e: BroadPhaseElement<Handle>| #[trigger]
                own.count(e) > 0 && e.handle == handle && query.spec_intersects(&e.aabb);
            assert(all.count(e) > 0);
        }
        if hit_by(tl, query, handle) {
            let e = choose|e: BroadPhaseElement<Handle>| #[trigger]
                tl.count(e) > 0 && e.handle == handle && query.spec_intersects(&e.aabb);
            assert(all.count(e) > 0);
        }
        if hit_by(tr, query, handle) {
            let e = choose|e: BroadPhaseElement<Handle>| #[trigger]
                tr.count(e) > 0 && e.handle == handle && query.spec_intersects(&e.aabb);
            assert(all.count(e) > 0);
        }
        if hit_by(bl, query, handle) {
            let e = choose|e: BroadPhaseElement<Handle>| #[trigger]
                bl.count(e) > 0 && e.handle == handle && query.spec_intersects(&e.aabb);
            assert(all.count(e) > 0);
        }
        if hit_by(br, query, handle) {
            let e = choose|e: BroadPhaseElement<Handle>| #[trigger]
                br.count(e) > 0 && e.handle == handle && query.spec_intersects(&e.aabb);
            assert(all.count(e) > 0);
        }
    }

    /// The handles of the stored elements whose box reaches `query`, each
    /// handle once.
    pub fn check(&self, query: AABB<i32>) -> (handles: Vec<Handle>)
        requires
            self.wf(),
        ensures
            handles@.no_duplicates(),
            forall|h: Handle| handles@.contains(h) <==> hit_by(self@, query, h),
    {
        let mut handles: Vec<Handle> = Vec::new();
        self.inner_check(&query, &mut handles);
        handles
    }
}

} // verus!
