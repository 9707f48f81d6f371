//! The ordered list of virtual nodes and its three-phase contract.
//!
//! A [`VList`] owns an ordered run of keyed slots.  Rendering and patching
//! walk the run right to left, so that each slot knows the host node of its
//! right neighbour — the anchor it must insert itself before — before it
//! renders.  Patching pairs new against old slots by position, updates in
//! place where the kinds agree, renders fresh where the new run is longer,
//! and removes what the old run held beyond the new run's length.

use crate::host::{anchor_pos, children_of, is_element, HostError, HostNode, HostTree};
use crate::seq_facts::{both, distinct_seq, in_seq, lemma_filter_congruent, lemma_filter_filter,
    lemma_filter_members, lemma_filter_none, ne, not_in_seq};
use crate::vnode::{fresh_render_post, node_id, remove_post, rendered, strip, unrendered,
    vnode_display, vnode_node, KeyedVNodes, VNode};
use vstd::prelude::*;
use vstd::seq_lib::*;

verus! {

/// The ordered run of keyed virtual-node slots.
#[derive(Debug)]
pub struct VList(Vec<KeyedVNodes>);

impl View for VList {
    type V = Seq<KeyedVNodes>;

    closed spec fn view(&self) -> Seq<KeyedVNodes> {
        self.0@
    }
}

/// Every slot is still unrendered.
pub open spec fn list_unrendered(s: Seq<KeyedVNodes>) -> bool {
    forall|i: int| 0 <= i < s.len() ==> unrendered(#[trigger] s[i].vnode)
}

/// Every slot is rendered under `parent` and the host tree shows its content.
pub open spec fn list_rendered(s: Seq<KeyedVNodes>, h: Seq<HostNode>, parent: usize) -> bool {
    forall|i: int| 0 <= i < s.len() ==> rendered(#[trigger] s[i].vnode, h, parent)
}

/// The host ids the slots own, in slot order.
pub open spec fn list_ids(s: Seq<KeyedVNodes>) -> Seq<usize> {
    Seq::new(s.len(), |i: int| node_id(s[i].vnode))
}

/// The slots with every host-node binding forgotten.
pub open spec fn list_strip(s: Seq<KeyedVNodes>) -> Seq<KeyedVNodes> {
    Seq::new(s.len(), |i: int| KeyedVNodes { key: s[i].key, vnode: strip(s[i].vnode) })
}

/// The node the list presents to a container: what its first slot owns, or
/// nothing when the list is empty or its first slot is unrendered.
pub open spec fn list_node(s: Seq<KeyedVNodes>) -> Option<usize> {
    if s.len() == 0 {
        None
    } else {
        vnode_node(s[0].vnode)
    }
}

/// The textual representation of the list: each slot's own representation,
/// concatenated in order with nothing between.
pub open spec fn list_display(s: Seq<KeyedVNodes>) -> Seq<char>
    decreases s.len(),
{
    if s.len() == 0 {
        Seq::empty()
    } else {
        vnode_display(s[0].vnode) + list_display(s.drop_first())
    }
}

/// The list's representation grows at its right end.
pub proof fn lemma_list_display_push(s: Seq<KeyedVNodes>, e: KeyedVNodes)
    ensures
        list_display(s.push(e)) == list_display(s) + vnode_display(e.vnode),
    decreases s.len(),
{
    if s.len() == 0 {
        assert(s.push(e)[0] == e);
        assert(s.push(e).drop_first() =~= Seq::<KeyedVNodes>::empty());
        assert(list_display(s.push(e)) =~= vnode_display(e.vnode) + list_display(
            Seq::<KeyedVNodes>::empty(),
        ));
        assert(list_display(s.push(e)) =~= list_display(s) + vnode_display(e.vnode));
    } else {
        assert(s.push(e).drop_first() =~= s.drop_first().push(e));
        lemma_list_display_push(s.drop_first(), e);
        assert(s.push(e)[0] == s[0]);
        assert(list_display(s.push(e)) =~= list_display(s) + vnode_display(e.vnode));
    }
}

impl VList {

    /// A list over the given run of slots.
    pub fn new(list: Vec<KeyedVNodes>) -> (r: VList)
        ensures
            r@ == list@,
    {
        VList(list)
    }

    /// The host node the list presents to a container.
    pub fn node(&self) -> (r: Option<usize>)
        ensures
            r == list_node(self@),
    {
        if self.0.len() == 0 {
            None
        } else {
            self.0[0].node()
        }
    }

    /// The textual representation of the list, built without mutating it.
    pub fn display(&self) -> (r: String)
        ensures
            r@ == list_display(self@),
    {
        let mut r = String::new();
        let n = self.0.len();
        let mut i: usize = 0;
        while i < n
            invariant
                i <= n,
                n == self@.len(),
                self@ == self.0@,
                r@ == list_display(self@.take(i as int)),
            decreases n - i,
        {
            let part = self.0[i].vnode.display();
            r.append(part.as_str());
            proof {
                lemma_list_display_push(self@.take(i as int), self@[i as int]);
                assert(self@.take(i as int).push(self@[i as int]) =~= self@.take(i as int + 1));
            }
            i += 1;
        }
        proof {
            assert(self@.take(n as int) =~= self@);
        }
        r
    }

    /// Release every slot from the host tree, in slot order, consuming the
    /// list.  Afterwards none of the list's nodes remains under `parent`.
    pub fn remove(self, t: &mut HostTree, parent: usize) -> (r: Result<(), HostError>)
        requires
            old(t).wf(),
            list_rendered(self@, old(t)@, parent),
            distinct_seq(list_ids(self@)),
        ensures
            r is Ok,
            final(t).wf(),
            final(t)@.len() == old(t)@.len(),
            children_of(final(t)@, parent as int) == children_of(old(t)@, parent as int).filter(
                not_in_seq(list_ids(self@)),
            ),
            forall|i: int|
                0 <= i < self@.len() ==> final(t)@[node_id(#[trigger] self@[i].vnode) as int].parent
                    is None,
            forall|x: usize|
                list_ids(self@).contains(x) ==> !children_of(final(t)@, parent as int).contains(x),
            forall|k: int|
                0 <= k < old(t)@.len() && k != parent as int && !list_ids(self@).contains(
                    k as usize,
                ) ==> final(t)@[k] == old(t)@[k],
            final(t)@[parent as int].kind == old(t)@[parent as int].kind,
            final(t)@[parent as int].parent == old(t)@[parent as int].parent,
    {
        let ghost s_orig = self@;
        let ghost ids = list_ids(s_orig);
        let ghost h0 = t@;
        let ghost c0 = children_of(h0, parent as int);
        let VList(mut v) = self;
        let n = v.len();
        let mut i: usize = 0;
        proof {
            lemma_filter_none(Seq::<usize>::empty(), in_seq(ids));
            assert(ids.take(0) =~= Seq::<usize>::empty());
            lemma_filter_congruent(c0, not_in_seq(ids.take(0)), |y: usize| true);
            assert(forall|k: int| 0 <= k < c0.len() ==> (|y: usize| true)(#[trigger] c0[k]));
            crate::seq_facts::lemma_filter_all(c0, |y: usize| true);
            assert(c0.filter(not_in_seq(ids.take(0))) == c0);
        }
        while i < n
            invariant
                t.wf(),
                i <= n,
                n == s_orig.len(),
                ids == list_ids(s_orig),
                distinct_seq(ids),
                h0.len() == t@.len(),
                c0 == children_of(h0, parent as int),
                v@ =~= s_orig.subrange(i as int, n as int),
                list_rendered(s_orig, h0, parent),
                forall|k: int|
                    i <= k < n ==> rendered(#[trigger] s_orig[k].vnode, t@, parent),
                forall|k: int| 0 <= k < i ==> t@[node_id(#[trigger] s_orig[k].vnode) as int].parent
                    is None,
                children_of(t@, parent as int) == c0.filter(not_in_seq(ids.take(i as int))),
                forall|k: int|
                    0 <= k < h0.len() && k != parent as int && !ids.take(i as int).contains(
                        k as usize,
                    ) ==> t@[k] == h0[k],
                t@[parent as int].kind == h0[parent as int].kind,
                t@[parent as int].parent == h0[parent as int].parent,
            decreases n - i,
        {
            let kv = v.remove(0);
            proof {
                assert(kv == s_orig[i as int]);
            }
            let ghost hprev = t@;
            let ghost pid = node_id(s_orig[i as int].vnode);
            match kv.remove(t, parent) {
                Ok(()) => {},
                Err(e) => {
                    proof {
                        assert(false);
                    }
                    return Err(e);
                },
            }
            proof {
                assert(remove_post(hprev, t@, parent, pid));
                assert(ids[i as int] == pid);
                // one more id is filtered out of the parent's children
                lemma_filter_filter(c0, not_in_seq(ids.take(i as int)), ne(pid));
                assert forall|k: int| 0 <= k < c0.len() implies both(
                    not_in_seq(ids.take(i as int)),
                    ne(pid),
                )(#[trigger] c0[k]) == not_in_seq(ids.take(i as int + 1))(c0[k]) by {
                    let y = c0[k];
                    assert(ids.take(i as int + 1) =~= ids.take(i as int).push(pid));
                    if ids.take(i as int).contains(y) {
                        let w = choose|w: int|
                            0 <= w < i && #[trigger] ids.take(i as int)[w] == y;
                        assert(ids.take(i as int + 1)[w] == y);
                    }
                    if y == pid {
                        assert(ids.take(i as int + 1)[i as int] == y);
                    }
                    if ids.take(i as int + 1).contains(y) {
                        let w = choose|w: int|
                            0 <= w < i + 1 && #[trigger] ids.take(i as int + 1)[w] == y;
                        if w < i {
                            assert(ids.take(i as int)[w] == y);
                        } else {
                            assert(y == pid);
                        }
                    }
                }
                lemma_filter_congruent(
                    c0,
                    both(not_in_seq(ids.take(i as int)), ne(pid)),
                    not_in_seq(ids.take(i as int + 1)),
                );
                // the slots still to the right keep their rendering
                assert forall|k: int| i + 1 <= k < n implies rendered(
                    #[trigger] s_orig[k].vnode,
                    t@,
                    parent,
                ) by {
                    let idk = node_id(s_orig[k].vnode);
                    assert(ids[k] == idk);
                    assert(idk != pid);
                    assert(crate::host::node_ok(hprev, idk as int));
                    assert((parent as int) < idk as int);
                    assert(t@[idk as int] == hprev[idk as int]);
                }
                // already-detached ids stay detached
                assert forall|k: int| 0 <= k < i + 1 implies t@[node_id(
                    #[trigger] s_orig[k].vnode,
                ) as int].parent is None by {
                    if k < i {
                        assert(ids[k] != pid);
                        assert(t@[ids[k] as int] == hprev[ids[k] as int]);
                    }
                }
                assert forall|k: int|
                    0 <= k < h0.len() && k != parent as int && !ids.take(i as int + 1).contains(
                        k as usize,
                    ) implies t@[k] == h0[k] by {
                    assert(ids.take(i as int + 1)[i as int] == pid);
                    if !ids.take(i as int).contains(k as usize) {
                        if k as usize == pid {
                            assert(ids.take(i as int + 1).contains(pid));
                        } else {
                            assert(t@[k] == hprev[k]);
                        }
                    } else {
                        let w = choose|w: int|
                            0 <= w < i && #[trigger] ids.take(i as int)[w] == k as usize;
                        assert(ids.take(i as int + 1)[w] == k as usize);
                    }
                }
            }
            i += 1;
        }
        proof {
            assert(ids.take(n as int) =~= ids);
            assert forall|x: usize| ids.contains(x) implies !children_of(
                final(t)@,
                parent as int,
            ).contains(x) by {
                if children_of(final(t)@, parent as int).contains(x) {
                    lemma_filter_members(c0, not_in_seq(ids), x);
                }
            }
        }
        Ok(())
    }

    /// Mount the whole list fresh under `parent`: walk the slots right to
    /// left, render each one before the anchor, and pass its node on as the
    /// anchor of the slot to its left (keeping the previous anchor if a slot
    /// reports no node).  Afterwards the list's nodes stand in slot order,
    /// together, immediately before `next`.
    #[verifier::rlimit(60)]
    pub fn render_walk(&mut self, t: &mut HostTree, parent: usize, next: Option<usize>) -> (r:
        Result<(), HostError>)
        requires
            old(t).wf(),
            list_unrendered(old(self)@),
            is_element(old(t)@, parent as int),
            match next {
                Some(nx) => children_of(old(t)@, parent as int).contains(nx),
                None => true,
            },
        ensures
            r is Ok,
            final(t).wf(),
            list_strip(final(self)@) == list_strip(old(self)@),
            list_rendered(final(self)@, final(t)@, parent),
            children_of(final(t)@, parent as int) == {
                let c0 = children_of(old(t)@, parent as int);
                let j = anchor_pos(c0, next);
                c0.take(j) + list_ids(final(self)@) + c0.skip(j)
            },
            forall|i: int|
                0 <= i < final(self)@.len() ==> (node_id(#[trigger] final(self)@[i].vnode) as int)
                    >= old(t)@.len(),
            final(t)@.len() == old(t)@.len() + old(self)@.len(),
            forall|k: int|
                0 <= k < old(t)@.len() && k != parent as int ==> final(t)@[k] == old(t)@[k],
            final(t)@[parent as int].kind == old(t)@[parent as int].kind,
            final(t)@[parent as int].parent == old(t)@[parent as int].parent,
    {
        let ghost s_orig = self@;
        let ghost h0 = t@;
        let ghost len0 = h0.len() as int;
        let ghost c0 = children_of(h0, parent as int);
        let ghost j = anchor_pos(c0, next);
        let n = self.0.len();
        let mut i: usize = n;
        let mut nxt: Option<usize> = next;
        proof {
            assert(crate::host::node_ok(h0, parent as int));
            match next {
                Some(nx) => {
                    c0.index_of_first_ensures(nx);
                },
                None => {},
            }
            assert(0 <= j <= c0.len());
            assert(c0.take(j) + list_ids(s_orig.subrange(n as int, n as int)) + c0.skip(j) =~= c0);
        }
        while i > 0
            invariant
                t.wf(),
                i <= n,
                n == s_orig.len(),
                self@.len() == n,
                len0 == h0.len(),
                c0 == children_of(h0, parent as int),
                is_element(h0, parent as int),
                forall|k: int| 0 <= k < c0.len() ==> (#[trigger] c0[k] as int) < len0,
                0 <= j <= c0.len(),
                j == anchor_pos(c0, next),
                match next {
                    Some(nx) => j < c0.len() && c0[j] == nx,
                    None => j == c0.len(),
                },
                t@.len() == len0 + (n - i),
                forall|k: int| 0 <= k < len0 && k != parent as int ==> t@[k] == h0[k],
                t@[parent as int].kind == h0[parent as int].kind,
                t@[parent as int].parent == h0[parent as int].parent,
                forall|k: int| 0 <= k < i ==> #[trigger] self@[k] == s_orig[k],
                list_unrendered(s_orig),
                forall|k: int|
                    i <= k < n ==> #[trigger] self@[k].key == s_orig[k].key,
                forall|k: int|
                    i <= k < n ==> strip(#[trigger] self@[k].vnode) == strip(s_orig[k].vnode),
                forall|k: int| i <= k < n ==> rendered(#[trigger] self@[k].vnode, t@, parent),
                forall|k: int|
                    i <= k < n ==> (node_id(#[trigger] self@[k].vnode) as int) == len0 + (n - 1
                        - k),
                children_of(t@, parent as int) == c0.take(j) + list_ids(
                    self@.subrange(i as int, n as int),
                ) + c0.skip(j),
                nxt == if i < n {
                    Some(node_id(self@[i as int].vnode))
                } else {
                    next
                },
            decreases i,
        {
            i -= 1;
            let ghost hprev = t@;
            let ghost sprev = self@;
            proof {
                // the anchor is a child of the parent right now
                match nxt {
                    Some(nx) => {
                        if i + 1 < n {
                            assert(strip(sprev[i as int + 1].vnode) == strip(
                                s_orig[i as int + 1].vnode,
                            ));
                            assert(rendered(sprev[i as int + 1].vnode, hprev, parent));
                            assert(crate::host::node_ok(hprev, nx as int));
                        } else {
                            assert(children_of(hprev, parent as int) =~= c0);
                        }
                    },
                    None => {},
                }
            }
            let ghost anchor0 = nxt;
            let kv = &mut self.0[i];
            match kv.render_walk(t, parent, nxt) {
                Ok(()) => {},
                Err(e) => {
                    proof {
                        assert(false);
                    }
                    return Err(e);
                },
            }
            let nd = self.0[i].node();
            nxt = match nd {
                Some(x) => Some(x),
                None => nxt,
            };
            proof {
                let id = node_id(self@[i as int].vnode);
                assert(fresh_render_post(hprev, t@, parent, anchor0, id));
                let cp = children_of(hprev, parent as int);
                let rp = list_ids(sprev.subrange(i as int + 1, n as int));
                assert(cp == c0.take(j) + rp + c0.skip(j));
                assert(id as int == len0 + (n - 1 - i));
                // the insertion lands exactly at the block's left edge
                assert(anchor_pos(cp, anchor0) == j) by {
                    match anchor0 {
                        Some(nx) => {
                            if i + 1 < n {
                                assert(rp[0] == node_id(sprev[i as int + 1].vnode));
                                assert(cp[j] == rp[0]);
                                assert((nx as int) >= len0);
                            } else {
                                assert(cp[j] == c0[j]);
                            }
                            assert forall|m: int| 0 <= m < j implies #[trigger] cp[m] != nx by {
                                assert(cp[m] == c0.take(j)[m]);
                                assert(c0.take(j)[m] == c0[m]);
                                if i + 1 < n {
                                    assert((c0[m] as int) < len0);
                                } else {
                                    c0.index_of_first_ensures(nx);
                                }
                            }
                            cp.index_of_first_ensures(nx);
                            assert(cp.contains(nx)) by {
                                assert(cp[j] == nx);
                            }
                            let ix = cp.index_of_first(nx)->Some_0;
                            assert(cp[ix] == nx);
                            if ix < j {
                                assert(cp[ix] != nx);
                            }
                            if ix > j {
                                assert(cp[j] != nx);
                            }
                        },
                        None => {
                            assert(rp.len() == 0);
                            assert(cp =~= c0);
                        },
                    }
                }
                let cnew = children_of(t@, parent as int);
                assert(cnew == cp.insert(j, id));
                cp.insert_ensures(j, id);
                assert(cnew =~= c0.take(j) + (seq![id] + rp) + c0.skip(j));
                assert(seq![id] + rp =~= list_ids(self@.subrange(i as int, n as int)));
                assert(children_of(t@, parent as int) == c0.take(j) + list_ids(
                    self@.subrange(i as int, n as int),
                ) + c0.skip(j));
                // rendering the slot left the others as they were
                assert forall|k: int| i < k < n implies #[trigger] self@[k].key == s_orig[k].key
                    && strip(self@[k].vnode) == strip(s_orig[k].vnode) && rendered(
                    self@[k].vnode,
                    t@,
                    parent,
                ) && (node_id(self@[k].vnode) as int) == len0 + (n - 1 - k) by {
                    assert(self@[k] == sprev[k]);
                    assert(rendered(sprev[k].vnode, hprev, parent));
                    let idk = node_id(sprev[k].vnode);
                    assert(crate::host::node_ok(hprev, idk as int));
                    assert(t@[idk as int] == hprev[idk as int]);
                }
                assert forall|k: int| i <= k < n implies rendered(
                    #[trigger] self@[k].vnode,
                    t@,
                    parent,
                ) by {}
                assert forall|k: int| i <= k < n implies (node_id(
                    #[trigger] self@[k].vnode,
                ) as int) == len0 + (n - 1 - k) by {}
            }
        }
        proof {
            assert(self@.subrange(0, n as int) =~= self@);
            assert(list_strip(self@) =~= list_strip(s_orig));
        }
        Ok(())
    }
}

} // verus!
