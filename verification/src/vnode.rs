//! Virtual nodes: the per-slot collaborators of the ordered list.
//!
//! A [`VNode`] describes one unit of content — a run of text or a childless
//! element — and carries the id of the host node it owns once rendered.  A
//! [`KeyedVNodes`] pairs a node with an optional identity key; the key is
//! not consulted by the positional reconciliation here but is preserved for
//! a keyed-diff collaborator.  Every operation follows the same three-phase
//! contract as the list itself: render fresh, patch against a previous
//! value, remove.

use crate::host::{anchor_pos, children_of, is_element, Attribute, HostError, HostKind, HostNode,
    HostTree};
use crate::seq_facts::ne;
use vstd::prelude::*;
use vstd::seq_lib::*;

verus! {

/// A virtual text node.
#[derive(Debug)]
pub struct VText {
    pub text: String,
    pub node: Option<usize>,
}

/// A virtual element without children of its own.
#[derive(Debug)]
pub struct VElement {
    pub tag: String,
    pub attrs: Vec<Attribute>,
    pub node: Option<usize>,
}

/// A virtual node: one of the kinds a list slot can hold.
#[derive(Debug)]
pub enum VNode {
    Text(VText),
    Element(VElement),
}

/// A virtual node paired with an optional identity key.
#[derive(Debug)]
pub struct KeyedVNodes {
    pub key: Option<u64>,
    pub vnode: VNode,
}

/// The markup of one attribute: ` name="value"`.
pub open spec fn attr_markup(a: Attribute) -> Seq<char> {
    seq![' '] + a.name@ + seq!['=', '"'] + a.value@ + seq!['"']
}

/// The markup of a run of attributes, in order.
pub open spec fn attrs_markup(s: Seq<Attribute>) -> Seq<char>
    decreases s.len(),
{
    if s.len() == 0 {
        Seq::empty()
    } else {
        attr_markup(s[0]) + attrs_markup(s.drop_first())
    }
}

/// The opening tag of an element: `<tag attrs>`.
pub open spec fn open_markup(tag: Seq<char>, attrs: Seq<Attribute>) -> Seq<char> {
    seq!['<'] + tag + attrs_markup(attrs) + seq!['>']
}

/// The closing tag of an element: `</tag>`.
pub open spec fn close_markup(tag: Seq<char>) -> Seq<char> {
    seq!['<', '/'] + tag + seq!['>']
}

/// The host node a virtual node currently owns, if it is rendered.
pub open spec fn vnode_node(v: VNode) -> Option<usize> {
    match v {
        VNode::Text(tx) => tx.node,
        VNode::Element(el) => el.node,
    }
}

/// The id of the host node a rendered virtual node owns.
pub open spec fn node_id(v: VNode) -> usize {
    vnode_node(v)->Some_0
}

/// A virtual node that owns no host node yet.
pub open spec fn unrendered(v: VNode) -> bool {
    vnode_node(v) is None
}

/// The textual representation of a virtual node on its own: a text node
/// shows its text, a childless element its opening tag.
pub open spec fn vnode_display(v: VNode) -> Seq<char> {
    match v {
        VNode::Text(tx) => tx.text@,
        VNode::Element(el) => open_markup(el.tag@, el.attrs@),
    }
}

/// The markup a rendered virtual node contributes to the host tree: as
/// [`vnode_display`], except that an element is closed again.
pub open spec fn vnode_markup(v: VNode) -> Seq<char> {
    match v {
        VNode::Text(tx) => tx.text@,
        VNode::Element(el) => open_markup(el.tag@, el.attrs@) + close_markup(el.tag@),
    }
}

/// The same node contents, with the host-node binding forgotten.
pub open spec fn strip(v: VNode) -> VNode {
    match v {
        VNode::Text(tx) => VNode::Text(VText { text: tx.text, node: None }),
        VNode::Element(el) => VNode::Element(
            VElement { tag: el.tag, attrs: el.attrs, node: None },
        ),
    }
}

/// Two nodes of the same kind, between which a patch updates in place: two
/// text nodes, or two elements with one tag.
pub open spec fn same_kind(a: VNode, b: VNode) -> bool {
    match (a, b) {
        (VNode::Text(_), VNode::Text(_)) => true,
        (VNode::Element(x), VNode::Element(y)) => x.tag@ == y.tag@,
        _ => false,
    }
}

/// The attribute lists carry the same names and values.
pub open spec fn attrs_alike(a: Seq<Attribute>, b: Seq<Attribute>) -> bool {
    a.len() == b.len() && forall|i: int|
        0 <= i < a.len() ==> #[trigger] a[i].name@ == b[i].name@ && a[i].value@ == b[i].value@
}

/// Attribute lists that carry the same names and values produce one markup.
pub proof fn lemma_attrs_markup_alike(a: Seq<Attribute>, b: Seq<Attribute>)
    requires
        attrs_alike(a, b),
    ensures
        attrs_markup(a) == attrs_markup(b),
    decreases a.len(),
{
    if a.len() > 0 {
        assert(attrs_alike(a.drop_first(), b.drop_first()));
        lemma_attrs_markup_alike(a.drop_first(), b.drop_first());
        assert(attr_markup(a[0]) == attr_markup(b[0]));
    }
}

/// Markup of a run of attributes grows at its right end.
pub proof fn lemma_attrs_markup_push(s: Seq<Attribute>, a: Attribute)
    ensures
        attrs_markup(s.push(a)) == attrs_markup(s) + attr_markup(a),
    decreases s.len(),
{
    if s.len() == 0 {
        assert(s.push(a)[0] == a);
        assert(s.push(a).drop_first() =~= Seq::<Attribute>::empty());
        assert(attrs_markup(s) + attr_markup(a) =~= attr_markup(a));
        assert(attrs_markup(s.push(a)) =~= attr_markup(a) + attrs_markup(Seq::<Attribute>::empty()));
    } else {
        assert(s.push(a).drop_first() =~= s.drop_first().push(a));
        lemma_attrs_markup_push(s.drop_first(), a);
        assert(s.push(a)[0] == s[0]);
        assert(attrs_markup(s.push(a)) == attr_markup(s[0]) + (attrs_markup(s.drop_first())
            + attr_markup(a)));
        assert(attrs_markup(s.push(a)) =~= attrs_markup(s) + attr_markup(a));
    }
}

/// The virtual node is rendered and the host tree shows its content: it owns
/// one host node, attached under `parent`, childless, of matching kind.
pub open spec fn rendered(v: VNode, s: Seq<HostNode>, parent: usize) -> bool {
    &&& vnode_node(v) is Some
    &&& (node_id(v) as int) < s.len()
    &&& s[node_id(v) as int].parent == Some(parent)
    &&& s[node_id(v) as int].children@ == Seq::<usize>::empty()
    &&& match v {
        VNode::Text(tx) => s[node_id(v) as int].kind matches HostKind::Text { text } && text@
            == tx.text@,
        VNode::Element(el) => s[node_id(v) as int].kind matches HostKind::Element { tag, attrs }
            && tag@ == el.tag@ && attrs_alike(attrs@, el.attrs@),
    }
}

/// What a fresh render does to the host tree: one new node, holding the id
/// `id == s0.len()`, spliced into the parent's children at the anchor.
pub open spec fn fresh_render_post(
    s0: Seq<HostNode>,
    s1: Seq<HostNode>,
    parent: usize,
    next: Option<usize>,
    id: usize,
) -> bool {
    &&& id as int == s0.len()
    &&& s1.len() == s0.len() + 1
    &&& forall|k: int| 0 <= k < s0.len() && k != parent as int ==> s1[k] == s0[k]
    &&& s1[parent as int].kind == s0[parent as int].kind
    &&& s1[parent as int].parent == s0[parent as int].parent
    &&& children_of(s1, parent as int) == children_of(s0, parent as int).insert(
        anchor_pos(children_of(s0, parent as int), next),
        id,
    )
    &&& s1[id as int].parent == Some(parent)
    &&& s1[id as int].children@ == Seq::<usize>::empty()
}

/// What an update in place does to the host tree: only the reused node's
/// content changes; every child list stays as it was.
pub open spec fn reuse_post(s0: Seq<HostNode>, s1: Seq<HostNode>, pid: usize) -> bool {
    &&& s1.len() == s0.len()
    &&& forall|k: int| 0 <= k < s0.len() && k != pid as int ==> s1[k] == s0[k]
    &&& (pid as int) < s0.len()
    &&& s1[pid as int].children == s0[pid as int].children
    &&& s1[pid as int].parent == s0[pid as int].parent
}

/// What a replacement does to the host tree: the previous node is detached
/// (its id leaves the parent's children), a fresh node takes the anchor
/// position among the remaining children.
pub open spec fn replace_post(
    s0: Seq<HostNode>,
    s1: Seq<HostNode>,
    parent: usize,
    next: Option<usize>,
    pid: usize,
    id: usize,
) -> bool {
    let c1 = children_of(s0, parent as int).filter(ne(pid));
    &&& id as int == s0.len()
    &&& s1.len() == s0.len() + 1
    &&& forall|k: int|
        0 <= k < s0.len() && k != parent as int && k != pid as int ==> s1[k] == s0[k]
    &&& s1[parent as int].kind == s0[parent as int].kind
    &&& s1[parent as int].parent == s0[parent as int].parent
    &&& children_of(s1, parent as int) == c1.insert(anchor_pos(c1, next), id)
    &&& s1[pid as int].parent is None
    &&& s1[pid as int].kind == s0[pid as int].kind
    &&& s1[pid as int].children == s0[pid as int].children
    &&& s1[id as int].parent == Some(parent)
    &&& s1[id as int].children@ == Seq::<usize>::empty()
}

/// What removing a rendered node does to the host tree: its id leaves the
/// parent's children and its parent pointer is cleared; nothing else moves.
pub open spec fn remove_post(s0: Seq<HostNode>, s1: Seq<HostNode>, parent: usize, pid: usize) -> bool {
    &&& s1.len() == s0.len()
    &&& forall|k: int|
        0 <= k < s0.len() && k != parent as int && k != pid as int ==> s1[k] == s0[k]
    &&& s1[parent as int].kind == s0[parent as int].kind
    &&& s1[parent as int].parent == s0[parent as int].parent
    &&& children_of(s1, parent as int) == children_of(s0, parent as int).filter(ne(pid))
    &&& s1[pid as int].parent is None
    &&& s1[pid as int].kind == s0[pid as int].kind
    &&& s1[pid as int].children == s0[pid as int].children
}

/// Copy a string.
fn clone_string(s: &String) -> (r: String)
    ensures
        r@ == s@,
{
    s.clone()
}

/// Copy an attribute list, name for name and value for value.
fn clone_attrs(src: &Vec<Attribute>) -> (r: Vec<Attribute>)
    ensures
        attrs_alike(r@, src@),
{
    let mut r: Vec<Attribute> = Vec::new();
    let n = src.len();
    let mut i: usize = 0;
    while i < n
        invariant
            n == src@.len(),
            i <= n,
            r@.len() == i,
            forall|k: int|
                0 <= k < i ==> #[trigger] r@[k].name@ == src@[k].name@ && r@[k].value@
                    == src@[k].value@,
        decreases n - i,
    {
        let a = Attribute { name: clone_string(&src[i].name), value: clone_string(&src[i].value) };
        r.push(a);
        i += 1;
    }
    r
}

impl VText {
    /// A fresh, unrendered text node holding `content`.
    pub fn text(content: &str) -> (r: VText)
        ensures
            r.text@ == content@,
            r.node is None,
    {
        VText { text: content.to_owned(), node: None }
    }
}

impl VElement {
    /// A fresh, unrendered element with the given tag and attributes and no
    /// children of its own.
    pub fn childless(tag: &str, attributes: Vec<Attribute>) -> (r: VElement)
        ensures
            r.tag@ == tag@,
            r.attrs == attributes,
            r.node is None,
    {
        VElement { tag: tag.to_owned(), attrs: attributes, node: None }
    }
}

impl KeyedVNodes {
    /// A slot without an identity key.
    pub fn unkeyed(vnode: VNode) -> (r: KeyedVNodes)
        ensures
            r.key is None,
            r.vnode == vnode,
    {
        KeyedVNodes { key: None, vnode }
    }
}

impl From<VText> for VNode {
    fn from(tx: VText) -> (r: VNode) {
        VNode::Text(tx)
    }
}

impl vstd::std_specs::convert::FromSpecImpl<VText> for VNode {
    open spec fn obeys_from_spec() -> bool {
        true
    }

    open spec fn from_spec(tx: VText) -> VNode {
        VNode::Text(tx)
    }
}

impl From<VElement> for VNode {
    fn from(el: VElement) -> (r: VNode) {
        VNode::Element(el)
    }
}

impl vstd::std_specs::convert::FromSpecImpl<VElement> for VNode {
    open spec fn obeys_from_spec() -> bool {
        true
    }

    open spec fn from_spec(el: VElement) -> VNode {
        VNode::Element(el)
    }
}

impl VNode {
    /// The host node this virtual node owns, or `None` before it renders.
    pub fn node(&self) -> (r: Option<usize>)
        ensures
            r == vnode_node(*self),
    {
        match self {
            VNode::Text(tx) => tx.node,
            VNode::Element(el) => el.node,
        }
    }

    /// The node's own textual representation, as [`vnode_display`] gives it.
    pub fn display(&self) -> (r: String)
        ensures
            r@ == vnode_display(*self),
    {
        match self {
            VNode::Text(tx) => clone_string(&tx.text),
            VNode::Element(el) => {
                let mut r = String::from_str("<");
                r.append(el.tag.as_str());
                proof {
                    reveal_strlit("<");
                    assert(r@ =~= seq!['<'] + el.tag@ + attrs_markup(el.attrs@.take(0)));
                }
                let n = el.attrs.len();
                let mut i: usize = 0;
                while i < n
                    invariant
                        i <= n,
                        n == el.attrs@.len(),
                        r@ == seq!['<'] + el.tag@ + attrs_markup(el.attrs@.take(i as int)),
                    decreases n - i,
                {
                    r.append(" ");
                    r.append(el.attrs[i].name.as_str());
                    r.append("=\"");
                    r.append(el.attrs[i].value.as_str());
                    r.append("\"");
                    proof {
                        reveal_strlit(" ");
                        reveal_strlit("=\"");
                        reveal_strlit("\"");
                        lemma_attrs_markup_push(el.attrs@.take(i as int), el.attrs@[i as int]);
                        assert(el.attrs@.take(i as int).push(el.attrs@[i as int]) =~= el.attrs@.take(
                            i as int + 1,
                        ));
                        assert(r@ =~= seq!['<'] + el.tag@ + attrs_markup(el.attrs@.take(
                            i as int + 1,
                        )));
                    }
                    i += 1;
                }
                r.append(">");
                proof {
                    reveal_strlit(">");
                    assert(el.attrs@.take(n as int) =~= el.attrs@);
                    assert(r@ =~= open_markup(el.tag@, el.attrs@));
                }
                r
            },
        }
    }

    /// Mount this node fresh under `parent`, immediately before `next`.
    pub fn render_walk(&mut self, t: &mut HostTree, parent: usize, next: Option<usize>) -> (r:
        Result<(), HostError>)
        requires
            old(t).wf(),
            unrendered(*old(self)),
            is_element(old(t)@, parent as int),
            match next {
                Some(nx) => children_of(old(t)@, parent as int).contains(nx),
                None => true,
            },
        ensures
            r is Ok,
            final(t).wf(),
            strip(*final(self)) == strip(*old(self)),
            rendered(*final(self), final(t)@, parent),
            fresh_render_post(old(t)@, final(t)@, parent, next, node_id(*final(self))),
    {
        let ghost s0 = t@;
        let id: usize = match self {
            VNode::Text(tx) => {
                let id = t.create_text(clone_string(&tx.text));
                tx.node = Some(id);
                id
            },
            VNode::Element(el) => {
                let id = t.create_element(clone_string(&el.tag), clone_attrs(&el.attrs));
                el.node = Some(id);
                id
            },
        };
        proof {
            assert(children_of(t@, parent as int) == children_of(s0, parent as int));
        }
        match t.insert_before(parent, id, next) {
            Ok(()) => {},
            Err(e) => {
                proof {
                    assert(false);
                }
                return Err(e);
            },
        }
        Ok(())
    }

    /// Reconcile this node against `prev` under `parent`: update the host
    /// node in place when the kinds agree, otherwise replace it; render
    /// fresh when there is no previous node.
    pub fn patch(&mut self, prev: Option<VNode>, t: &mut HostTree, parent: usize, next: Option<
        usize,
    >) -> (r: Result<(), HostError>)
        requires
            old(t).wf(),
            unrendered(*old(self)),
            is_element(old(t)@, parent as int),
            match next {
                Some(nx) => children_of(old(t)@, parent as int).contains(nx) && match prev {
                    Some(p) => nx != node_id(p),
                    None => true,
                },
                None => true,
            },
            match prev {
                Some(p) => rendered(p, old(t)@, parent),
                None => true,
            },
        ensures
            r is Ok,
            final(t).wf(),
            strip(*final(self)) == strip(*old(self)),
            rendered(*final(self), final(t)@, parent),
            match prev {
                None => fresh_render_post(old(t)@, final(t)@, parent, next, node_id(*final(self))),
                Some(p) => {
                    if same_kind(*old(self), p) {
                        &&& vnode_node(*final(self)) == vnode_node(p)
                        &&& reuse_post(old(t)@, final(t)@, node_id(p))
                    } else {
                        &&& replace_post(
                            old(t)@,
                            final(t)@,
                            parent,
                            next,
                            node_id(p),
                            node_id(*final(self)),
                        )
                    }
                },
            },
    {
        match prev {
            None => self.render_walk(t, parent, next),
            Some(p) => {
                let ghost s0 = t@;
                let same: bool = match (&*self, &p) {
                    (VNode::Text(_), VNode::Text(_)) => true,
                    (VNode::Element(a), VNode::Element(b)) => a.tag == b.tag,
                    _ => false,
                };
                if same {
                    match (&mut *self, p) {
                        (VNode::Text(tx), VNode::Text(ptx)) => {
                            let pid: usize = match ptx.node {
                                Some(pid) => pid,
                                None => {
                                    proof {
                                        assert(false);
                                    }
                                    0
                                },
                            };
                            match t.set_text(pid, clone_string(&tx.text)) {
                                Ok(()) => {},
                                Err(e) => {
                                    proof {
                                        assert(false);
                                    }
                                    return Err(e);
                                },
                            }
                            tx.node = Some(pid);
                        },
                        (VNode::Element(el), VNode::Element(pel)) => {
                            let pid: usize = match pel.node {
                                Some(pid) => pid,
                                None => {
                                    proof {
                                        assert(false);
                                    }
                                    0
                                },
                            };
                            match t.set_attributes(pid, clone_attrs(&el.attrs)) {
                                Ok(()) => {},
                                Err(e) => {
                                    proof {
                                        assert(false);
                                    }
                                    return Err(e);
                                },
                            }
                            el.node = Some(pid);
                        },
                        _ => {
                            proof {
                                assert(false);
                            }
                        },
                    }
                    Ok(())
                } else {
                    let pid: usize = match p.node() {
                        Some(pid) => pid,
                        None => {
                            proof {
                                assert(false);
                            }
                            0
                        },
                    };
                    match t.remove_child(parent, pid) {
                        Ok(()) => {},
                        Err(e) => {
                            proof {
                                assert(false);
                            }
                            return Err(e);
                        },
                    }
                    proof {
                        let c0 = children_of(s0, parent as int);
                        let c1 = children_of(t@, parent as int);
                        assert(c1 == c0.filter(ne(pid)));
                        match next {
                            Some(nx) => {
                                assert(c0.contains(nx));
                                let j = choose|j: int| 0 <= j < c0.len() && c0[j] == nx;
                                c0.lemma_filter_contains(ne(pid), j);
                                assert(c1.contains(nx));
                            },
                            None => {},
                        }
                    }
                    self.render_walk(t, parent, next)
                }
            },
        }
    }

    /// Release this node from the host tree, consuming it.
    pub fn remove(self, t: &mut HostTree, parent: usize) -> (r: Result<(), HostError>)
        requires
            old(t).wf(),
            rendered(self, old(t)@, parent),
        ensures
            r is Ok,
            final(t).wf(),
            remove_post(old(t)@, final(t)@, parent, node_id(self)),
    {
        let pid: usize = match self.node() {
            Some(pid) => pid,
            None => {
                proof {
                    assert(false);
                }
                0
            },
        };
        match t.remove_child(parent, pid) {
            Ok(()) => Ok(()),
            Err(e) => {
                proof {
                    assert(false);
                }
                Err(e)
            },
        }
    }
}

impl KeyedVNodes {
    /// The host node the slot's virtual node owns.
    pub fn node(&self) -> (r: Option<usize>)
        ensures
            r == vnode_node(self.vnode),
    {
        self.vnode.node()
    }

    /// Mount the slot's node fresh under `parent`, before `next`.
    pub fn render_walk(&mut self, t: &mut HostTree, parent: usize, next: Option<usize>) -> (r:
        Result<(), HostError>)
        requires
            old(t).wf(),
            unrendered(old(self).vnode),
            is_element(old(t)@, parent as int),
            match next {
                Some(nx) => children_of(old(t)@, parent as int).contains(nx),
                None => true,
            },
        ensures
            r is Ok,
            final(t).wf(),
            final(self).key == old(self).key,
            strip(final(self).vnode) == strip(old(self).vnode),
            rendered(final(self).vnode, final(t)@, parent),
            fresh_render_post(old(t)@, final(t)@, parent, next, node_id(final(self).vnode)),
    {
        self.vnode.render_walk(t, parent, next)
    }

    /// Reconcile the slot's node against a previous slot.
    pub fn patch(&mut self, prev: Option<KeyedVNodes>, t: &mut HostTree, parent: usize, next:
        Option<usize>) -> (r: Result<(), HostError>)
        requires
            old(t).wf(),
            unrendered(old(self).vnode),
            is_element(old(t)@, parent as int),
            match next {
                Some(nx) => children_of(old(t)@, parent as int).contains(nx) && match prev {
                    Some(p) => nx != node_id(p.vnode),
                    None => true,
                },
                None => true,
            },
            match prev {
                Some(p) => rendered(p.vnode, old(t)@, parent),
                None => true,
            },
        ensures
            r is Ok,
            final(t).wf(),
            final(self).key == old(self).key,
            strip(final(self).vnode) == strip(old(self).vnode),
            rendered(final(self).vnode, final(t)@, parent),
            match prev {
                None => fresh_render_post(
                    old(t)@,
                    final(t)@,
                    parent,
                    next,
                    node_id(final(self).vnode),
                ),
                Some(p) => {
                    if same_kind(old(self).vnode, p.vnode) {
                        &&& vnode_node(final(self).vnode) == vnode_node(p.vnode)
                        &&& reuse_post(old(t)@, final(t)@, node_id(p.vnode))
                    } else {
                        &&& replace_post(
                            old(t)@,
                            final(t)@,
                            parent,
                            next,
                            node_id(p.vnode),
                            node_id(final(self).vnode),
                        )
                    }
                },
            },
    {
        let pv: Option<VNode> = match prev {
            Some(kv) => Some(kv.vnode),
            None => None,
        };
        self.vnode.patch(pv, t, parent, next)
    }

    /// Release the slot's node from the host tree, consuming the slot.
    pub fn remove(self, t: &mut HostTree, parent: usize) -> (r: Result<(), HostError>)
        requires
            old(t).wf(),
            rendered(self.vnode, old(t)@, parent),
        ensures
            r is Ok,
            final(t).wf(),
            remove_post(old(t)@, final(t)@, parent, node_id(self.vnode)),
    {
        self.vnode.remove(t, parent)
    }
}

} // verus!
