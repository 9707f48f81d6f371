//! The host tree: the live output tree that rendering mutates.
//!
//! Nodes live in an arena and are addressed by id.  An element node owns an
//! ordered list of child ids; the well-formedness invariant keeps parent
//! pointers and child lists consistent, child lists duplicate-free, and every
//! child id strictly greater than its parent's id (a node is always created
//! after the node it is inserted under), which grounds recursion over the
//! tree.

use crate::seq_facts::{distinct_seq, lemma_insert_contains, lemma_insert_distinct,
    lemma_remove_single_is_filter, ne};
use vstd::prelude::*;

verus! {

/// Failure of a host-tree mutation: the operation named a node that does not
/// exist, is of the wrong kind, is attached where it may not be, or is not
/// where the operation expects it.
#[derive(Debug)]
pub struct HostError;

/// A name/value pair set on a host element.
#[derive(Debug)]
pub struct Attribute {
    pub name: String,
    pub value: String,
}

/// What a host node is: a run of text, or an element with a tag and
/// attributes.
#[derive(Debug)]
pub enum HostKind {
    Text { text: String },
    Element { tag: String, attrs: Vec<Attribute> },
}

/// One node of the host tree.
#[derive(Debug)]
pub struct HostNode {
    pub kind: HostKind,
    pub children: Vec<usize>,
    pub parent: Option<usize>,
}

/// The live output tree: an arena of nodes addressed by id.
#[derive(Debug)]
pub struct HostTree {
    nodes: Vec<HostNode>,
}

/// The ordered child ids of node `i`.
pub open spec fn children_of(s: Seq<HostNode>, i: int) -> Seq<usize> {
    s[i].children@
}

/// Node `i` exists and is an element.
pub open spec fn is_element(s: Seq<HostNode>, i: int) -> bool {
    0 <= i < s.len() && s[i].kind is Element
}

/// Node `i` exists and is a text node.
pub open spec fn is_text(s: Seq<HostNode>, i: int) -> bool {
    0 <= i < s.len() && s[i].kind is Text
}

/// The position in `c` that an insertion before `next` targets: the first
/// occurrence of the anchor, or the end of the list when there is no anchor.
pub open spec fn anchor_pos(c: Seq<usize>, next: Option<usize>) -> int {
    match next {
        Some(nx) => match c.index_of_first(nx) {
            Some(p) => p,
            None => c.len() as int,
        },
        None => c.len() as int,
    }
}

/// The consistency each node keeps with its neighbours.
pub open spec fn node_ok(s: Seq<HostNode>, i: int) -> bool {
    let c = s[i].children@;
    &&& forall|k: int| 0 <= k < c.len() ==> i < #[trigger] c[k] as int
    &&& forall|k: int| 0 <= k < c.len() ==> (#[trigger] c[k] as int) < s.len()
    &&& distinct_seq(c)
    &&& forall|k: int| 0 <= k < c.len() ==> s[#[trigger] c[k] as int].parent == Some(i as usize)
    &&& (s[i].kind is Text ==> c.len() == 0)
    &&& match s[i].parent {
        Some(p) => {
            &&& (p as int) < i
            &&& s[p as int].kind is Element
            &&& children_of(s, p as int).contains(i as usize)
        },
        None => true,
    }
}

/// A node may be inserted under `parent` before `next` exactly when all of
/// this holds.
pub open spec fn insert_allowed(
    s: Seq<HostNode>,
    parent: usize,
    node: usize,
    next: Option<usize>,
) -> bool {
    &&& is_element(s, parent as int)
    &&& (node as int) < s.len()
    &&& parent < node
    &&& s[node as int].parent is None
    &&& match next {
        Some(nx) => children_of(s, parent as int).contains(nx),
        None => true,
    }
}

impl View for HostTree {
    type V = Seq<HostNode>;

    closed spec fn view(&self) -> Seq<HostNode> {
        self.nodes@
    }
}

impl HostTree {
    /// The arena invariant.
    pub open spec fn wf(self) -> bool {
        forall|i: int| 0 <= i < self@.len() ==> #[trigger] node_ok(self@, i)
    }

    /// A fresh, empty host tree.
    pub fn new() -> (t: HostTree)
        ensures
            t@ == Seq::<HostNode>::empty(),
            t.wf(),
    {
        HostTree { nodes: Vec::new() }
    }

    /// How many nodes the arena holds (detached ones included).
    pub fn node_count(&self) -> (n: usize)
        ensures
            n == self@.len(),
    {
        self.nodes.len()
    }

    /// Create a detached text node holding `text`; its id is returned.
    pub fn create_text(&mut self, text: String) -> (id: usize)
        requires
            old(self).wf(),
        ensures
            final(self).wf(),
            id == old(self)@.len(),
            final(self)@ == old(self)@.push(
                HostNode {
                    kind: HostKind::Text { text },
                    children: final(self)@[id as int].children,
                    parent: None,
                },
            ),
            final(self)@[id as int].children@ == Seq::<usize>::empty(),
            final(self)@[id as int].parent is None,
            final(self)@[id as int].kind == (HostKind::Text { text }),
    {
        let id = self.nodes.len();
        self.nodes.push(HostNode { kind: HostKind::Text { text }, children: Vec::new(), parent: None });
        proof {
            assert forall|i: int| 0 <= i < self@.len() implies #[trigger] node_ok(self@, i) by {
                if i < id {
                    assert(node_ok(old(self)@, i));
                }
            }
        }
        id
    }

    /// Create a detached element node with the given tag and attributes; its
    /// id is returned.
    pub fn create_element(&mut self, tag: String, attrs: Vec<Attribute>) -> (id: usize)
        requires
            old(self).wf(),
        ensures
            final(self).wf(),
            id == old(self)@.len(),
            final(self)@ == old(self)@.push(
                HostNode {
                    kind: HostKind::Element { tag, attrs },
                    children: final(self)@[id as int].children,
                    parent: None,
                },
            ),
            final(self)@[id as int].children@ == Seq::<usize>::empty(),
            final(self)@[id as int].parent is None,
            final(self)@[id as int].kind == (HostKind::Element { tag, attrs }),
    {
        let id = self.nodes.len();
        self.nodes.push(
            HostNode { kind: HostKind::Element { tag, attrs }, children: Vec::new(), parent: None },
        );
        proof {
            assert forall|i: int| 0 <= i < self@.len() implies #[trigger] node_ok(self@, i) by {
                if i < id {
                    assert(node_ok(old(self)@, i));
                }
            }
        }
        id
    }

    /// The first position of `target` among the children of `parent`.
    fn find_child(&self, parent: usize, target: usize) -> (r: Option<usize>)
        requires
            (parent as int) < self@.len(),
        ensures
            match r {
                Some(p) => children_of(self@, parent as int).index_of_first(target) == Some(
                    p as int,
                ),
                None => children_of(self@, parent as int).index_of_first(target) is None,
            },
    {
        let ghost c = children_of(self@, parent as int);
        let n = self.nodes[parent].children.len();
        let mut k: usize = 0;
        while k < n
            invariant
                n == c.len(),
                k <= n,
                (parent as int) < self@.len(),
                c == children_of(self@, parent as int),
                forall|m: int| 0 <= m < k ==> c[m] != target,
            decreases n - k,
        {
            if self.nodes[parent].children[k] == target {
                proof {
                    c.index_of_first_ensures(target);
                    assert(c.contains(target)) by {
                        assert(c[k as int] == target);
                    }
                }
                return Some(k);
            }
            k += 1;
        }
        proof {
            c.index_of_first_ensures(target);
            if c.index_of_first(target) is Some {
                let p = c.index_of_first(target)->Some_0;
                assert(c[p] == target);
            }
        }
        None
    }

    /// Insert the detached node `node` under `parent`, immediately before
    /// `next` (or at the end of the children when `next` is `None`).
    pub fn insert_before(&mut self, parent: usize, node: usize, next: Option<usize>) -> (r: Result<
        (),
        HostError,
    >)
        requires
            old(self).wf(),
        ensures
            final(self).wf(),
            r is Ok <==> insert_allowed(old(self)@, parent, node, next),
            r is Err ==> final(self)@ == old(self)@,
            r is Ok ==> {
                let s0 = old(self)@;
                let s1 = final(self)@;
                &&& s1.len() == s0.len()
                &&& forall|k: int|
                    0 <= k < s0.len() && k != parent as int && k != node as int ==> s1[k] == s0[k]
                &&& s1[parent as int].kind == s0[parent as int].kind
                &&& s1[parent as int].parent == s0[parent as int].parent
                &&& children_of(s1, parent as int) == children_of(s0, parent as int).insert(
                    anchor_pos(children_of(s0, parent as int), next),
                    node,
                )
                &&& s1[node as int].kind == s0[node as int].kind
                &&& s1[node as int].children == s0[node as int].children
                &&& s1[node as int].parent == Some(parent)
            },
    {
        let len = self.nodes.len();
        if node >= len {
            return Err(HostError);
        }
        if parent >= node {
            return Err(HostError);
        }
        match &self.nodes[parent].kind {
            HostKind::Element { .. } => {},
            _ => {
                return Err(HostError);
            },
        }
        match &self.nodes[node].parent {
            Some(_) => {
                return Err(HostError);
            },
            None => {},
        }
        let ghost s0 = self@;
        let ghost c0 = children_of(self@, parent as int);
        let pos: usize = match next {
            Some(nx) => match self.find_child(parent, nx) {
                Some(p) => p,
                None => {
                    proof {
                        c0.index_of_first_ensures(nx);
                    }
                    return Err(HostError);
                },
            },
            None => self.nodes[parent].children.len(),
        };
        proof {
            c0.index_of_first_ensures(match next {
                Some(nx) => nx,
                None => 0,
            });
            assert(pos as int == anchor_pos(c0, next));
            assert(pos <= c0.len());
        }
        let n = &mut self.nodes[node];
        n.parent = Some(parent);
        let p = &mut self.nodes[parent];
        p.children.insert(pos, node);
        proof {
            let s1 = self@;
            let c1 = children_of(s1, parent as int);
            assert(node_ok(s0, parent as int));
            assert(node_ok(s0, node as int));
            // the inserted id was attached nowhere, so no child list held it
            assert forall|k: int| 0 <= k < c0.len() implies c0[k] != node by {
                if c0[k] == node {
                    assert(s0[c0[k] as int].parent == Some(parent));
                }
            }
            assert(!c0.contains(node));
            c0.insert_ensures(pos as int, node);
            lemma_insert_distinct(c0, pos as int, node);
            assert(c1 == c0.insert(pos as int, node));
            assert forall|i: int| 0 <= i < s1.len() implies #[trigger] node_ok(s1, i) by {
                assert(node_ok(s0, i));
                let ci = s1[i].children@;
                if i == parent as int {
                    // every old child keeps its parent pointer; the new one
                    // now carries it too
                    assert forall|k: int| 0 <= k < ci.len() implies s1[#[trigger] ci[k] as int].parent
                        == Some(parent) by {
                        if k < pos as int {
                            assert(ci[k] == c0[k]);
                        } else if k == pos as int {
                            assert(ci[k] == node);
                        } else {
                            assert(ci[k] == c0[k - 1]);
                        }
                    }
                    assert forall|k: int| 0 <= k < ci.len() implies i < #[trigger] ci[k] as int by {
                        if k < pos as int {
                            assert(ci[k] == c0[k]);
                        } else if k == pos as int {
                            assert(ci[k] == node);
                        } else {
                            assert(ci[k] == c0[k - 1]);
                        }
                    }
                    assert forall|k: int| 0 <= k < ci.len() implies (#[trigger] ci[k] as int)
                        < s1.len() by {
                        if k < pos as int {
                            assert(ci[k] == c0[k]);
                        } else if k == pos as int {
                            assert(ci[k] == node);
                        } else {
                            assert(ci[k] == c0[k - 1]);
                        }
                    }
                    match s1[i].parent {
                        Some(q) => {
                            assert(s1[q as int] == s0[q as int]);
                        },
                        None => {},
                    }
                } else if i == node as int {
                    assert(ci == s0[i].children@);
                    assert forall|k: int| 0 <= k < ci.len() implies s1[#[trigger] ci[k] as int].parent
                        == Some(node) by {
                        assert(ci[k] as int > i);
                        assert(s1[ci[k] as int] == s0[ci[k] as int]);
                    }
                    assert(c1[pos as int] == node);
                    assert(children_of(s1, parent as int).contains(node));
                } else {
                    assert(s1[i] == s0[i]);
                    assert forall|k: int| 0 <= k < ci.len() implies s1[#[trigger] ci[k] as int].parent
                        == Some(i as usize) by {
                        if ci[k] as int == node as int {
                            assert(s0[node as int].parent == Some(i as usize));
                            assert(false);
                        }
                        if ci[k] as int == parent as int {
                            assert(s1[parent as int].parent == s0[parent as int].parent);
                        } else {
                            assert(s1[ci[k] as int] == s0[ci[k] as int]);
                        }
                    }
                    match s1[i].parent {
                        Some(q) => {
                            if q == parent {
                                lemma_insert_contains(c0, pos as int, node, i as usize);
                            } else if q == node {
                                assert(s1[node as int].kind == s0[node as int].kind);
                                assert(s1[node as int].children == s0[node as int].children);
                            } else {
                                assert(s1[q as int] == s0[q as int]);
                            }
                        },
                        None => {},
                    }
                }
            }
        }
        Ok(())
    }

    /// Detach `node` from `parent`, removing it from the child list.
    pub fn remove_child(&mut self, parent: usize, node: usize) -> (r: Result<(), HostError>)
        requires
            old(self).wf(),
        ensures
            final(self).wf(),
            r is Ok <==> ((node as int) < old(self)@.len() && old(self)@[node as int].parent
                == Some(parent)),
            r is Err ==> final(self)@ == old(self)@,
            r is Ok ==> {
                let s0 = old(self)@;
                let s1 = final(self)@;
                &&& s1.len() == s0.len()
                &&& forall|k: int|
                    0 <= k < s0.len() && k != parent as int && k != node as int ==> s1[k] == s0[k]
                &&& s1[parent as int].kind == s0[parent as int].kind
                &&& s1[parent as int].parent == s0[parent as int].parent
                &&& children_of(s1, parent as int) == children_of(s0, parent as int).filter(
                    ne(node),
                )
                &&& s1[node as int].kind == s0[node as int].kind
                &&& s1[node as int].children == s0[node as int].children
                &&& s1[node as int].parent is None
            },
    {
        let len = self.nodes.len();
        if node >= len {
            return Err(HostError);
        }
        let attached = match &self.nodes[node].parent {
            Some(p) => *p == parent,
            None => false,
        };
        if !attached {
            return Err(HostError);
        }
        let ghost s0 = self@;
        let ghost c0 = children_of(self@, parent as int);
        proof {
            assert(node_ok(s0, node as int));
            assert(c0.contains(node));
        }
        let pos = match self.find_child(parent, node) {
            Some(p) => p,
            None => {
                proof {
                    c0.index_of_first_ensures(node);
                    let j = choose|j: int| 0 <= j < c0.len() && c0[j] == node;
                    assert(c0[j] == node);
                }
                return Err(HostError);
            },
        };
        proof {
            c0.index_of_first_ensures(node);
        }
        let n = &mut self.nodes[node];
        n.parent = None;
        let p = &mut self.nodes[parent];
        let _ = p.children.remove(pos);
        proof {
            let s1 = self@;
            let c1 = children_of(s1, parent as int);
            assert(node_ok(s0, parent as int));
            c0.remove_ensures(pos as int);
            assert forall|k: int| 0 <= k < c0.len() && k != pos as int implies #[trigger] c0[k]
                != node by {}
            lemma_remove_single_is_filter(c0, pos as int, node);
            assert(c1 == c0.remove(pos as int));
            assert forall|i: int| 0 <= i < s1.len() implies #[trigger] node_ok(s1, i) by {
                assert(node_ok(s0, i));
                let ci = s1[i].children@;
                if i == parent as int {
                    assert forall|k: int| 0 <= k < ci.len() implies i < #[trigger] ci[k] as int
                        && (ci[k] as int) < s1.len() && s1[ci[k] as int].parent == Some(parent) by {
                        if k < pos as int {
                            assert(ci[k] == c0[k]);
                        } else {
                            assert(ci[k] == c0[k + 1]);
                        }
                        assert(ci[k] != node);
                        assert(s1[ci[k] as int] == s0[ci[k] as int]);
                    }
                    assert forall|k1: int, k2: int|
                        #![trigger ci[k1], ci[k2]]
                        0 <= k1 < k2 < ci.len() implies ci[k1] != ci[k2] by {
                        let a1: int = if k1 < pos as int { k1 } else { k1 + 1 };
                        let a2: int = if k2 < pos as int { k2 } else { k2 + 1 };
                        assert(ci[k1] == c0[a1]);
                        assert(ci[k2] == c0[a2]);
                    }
                    match s1[i].parent {
                        Some(q) => {
                            assert(q as int != node as int) by {
                                if q == node {
                                    assert(s0[node as int].kind is Element);
                                    assert(children_of(s0, node as int).contains(parent));
                                    assert(node_ok(s0, node as int));
                                    let j = choose|j: int|
                                        0 <= j < children_of(s0, node as int).len() && children_of(
                                            s0,
                                            node as int,
                                        )[j] == parent;
                                    assert((node as int) < (children_of(s0, node as int)[j] as int));
                                }
                            }
                            assert(s1[q as int] == s0[q as int]);
                        },
                        None => {},
                    }
                } else if i == node as int {
                    assert(ci == s0[i].children@);
                    assert forall|k: int| 0 <= k < ci.len() implies s1[#[trigger] ci[k] as int].parent
                        == Some(node) by {
                        assert(ci[k] as int > i);
                        assert(s1[ci[k] as int] == s0[ci[k] as int]);
                    }
                } else {
                    assert(s1[i] == s0[i]);
                    assert forall|k: int| 0 <= k < ci.len() implies s1[#[trigger] ci[k] as int].parent
                        == Some(i as usize) by {
                        if ci[k] as int == node as int {
                            assert(s0[node as int].parent == Some(i as usize));
                            assert(false);
                        }
                        if ci[k] as int == parent as int {
                            assert(s1[parent as int].parent == s0[parent as int].parent);
                        } else {
                            assert(s1[ci[k] as int] == s0[ci[k] as int]);
                        }
                    }
                    match s1[i].parent {
                        Some(q) => {
                            if q == node {
                                assert(s1[node as int].kind == s0[node as int].kind);
                                assert(s1[node as int].children == s0[node as int].children);
                            } else if q == parent {
                                assert(c0.contains(i as usize));
                                let j = choose|j: int| 0 <= j < c0.len() && c0[j] == i as usize;
                                if j < pos as int {
                                    assert(c1[j] == c0[j]);
                                    assert(c1.contains(i as usize));
                                } else if j == pos as int {
                                    assert(false);
                                } else {
                                    assert(c1[j - 1] == c0[j]);
                                    assert(c1.contains(i as usize));
                                }
                            } else {
                                assert(s1[q as int] == s0[q as int]);
                            }
                        },
                        None => {},
                    }
                }
            }
        }
        Ok(())
    }

    /// Replace the text held by a text node.
    pub fn set_text(&mut self, node: usize, text: String) -> (r: Result<(), HostError>)
        requires
            old(self).wf(),
        ensures
            final(self).wf(),
            r is Ok <==> is_text(old(self)@, node as int),
            r is Err ==> final(self)@ == old(self)@,
            r is Ok ==> {
                let s0 = old(self)@;
                let s1 = final(self)@;
                &&& s1.len() == s0.len()
                &&& forall|k: int| 0 <= k < s0.len() && k != node as int ==> s1[k] == s0[k]
                &&& s1[node as int].kind == (HostKind::Text { text })
                &&& s1[node as int].children == s0[node as int].children
                &&& s1[node as int].parent == s0[node as int].parent
            },
    {
        let len = self.nodes.len();
        if node >= len {
            return Err(HostError);
        }
        let is_txt = match &self.nodes[node].kind {
            HostKind::Text { .. } => true,
            _ => false,
        };
        if !is_txt {
            return Err(HostError);
        }
        let ghost s0 = self@;
        let n = &mut self.nodes[node];
        match &mut n.kind {
            HostKind::Text { text: t } => {
                *t = text;
            },
            _ => {},
        }
        proof {
            let s1 = self@;
            assert forall|i: int| 0 <= i < s1.len() implies #[trigger] node_ok(s1, i) by {
                assert(node_ok(s0, i));
                assert(s1[i].children == s0[i].children);
                assert(s1[i].parent == s0[i].parent);
                assert(forall|k: int|
                    0 <= k < s1.len() && k != node as int ==> s1[k] == s0[k]);
                assert(s1[node as int].kind is Text && s0[node as int].kind is Text);
                if i != node as int {
                    assert(s1[i].kind == s0[i].kind);
                }
            }
        }
        Ok(())
    }

    /// Replace the attributes of an element node.
    pub fn set_attributes(&mut self, node: usize, attrs: Vec<Attribute>) -> (r: Result<
        (),
        HostError,
    >)
        requires
            old(self).wf(),
        ensures
            final(self).wf(),
            r is Ok <==> is_element(old(self)@, node as int),
            r is Err ==> final(self)@ == old(self)@,
            r is Ok ==> {
                let s0 = old(self)@;
                let s1 = final(self)@;
                &&& s1.len() == s0.len()
                &&& forall|k: int| 0 <= k < s0.len() && k != node as int ==> s1[k] == s0[k]
                &&& s1[node as int].kind matches HostKind::Element { tag, attrs: a } && tag
                    == s0[node as int].kind->Element_tag && a == attrs
                &&& s1[node as int].children == s0[node as int].children
                &&& s1[node as int].parent == s0[node as int].parent
            },
    {
        let len = self.nodes.len();
        if node >= len {
            return Err(HostError);
        }
        let is_el = match &self.nodes[node].kind {
            HostKind::Element { .. } => true,
            _ => false,
        };
        if !is_el {
            return Err(HostError);
        }
        let ghost s0 = self@;
        let n = &mut self.nodes[node];
        match &mut n.kind {
            HostKind::Element { attrs: a, .. } => {
                *a = attrs;
            },
            _ => {},
        }
        proof {
            let s1 = self@;
            assert forall|i: int| 0 <= i < s1.len() implies #[trigger] node_ok(s1, i) by {
                assert(node_ok(s0, i));
                assert(s1[i].children == s0[i].children);
                assert(s1[i].parent == s0[i].parent);
                assert(forall|k: int|
                    0 <= k < s1.len() && k != node as int ==> s1[k] == s0[k]);
                assert(s1[node as int].kind is Element && s0[node as int].kind is Element);
                if i != node as int {
                    assert(s1[i].kind == s0[i].kind);
                }
            }
        }
        Ok(())
    }
}

} // verus!
