//! An ordered-list reconciler for a virtual document tree.
//!
//! The crate models a live host tree (an arena of text and element nodes,
//! as a browser document holds them) and a virtual description of a list of
//! child nodes.  [`vlist::VList`] carries the three-phase contract of every
//! virtual node: an initial mount (`render_walk`), a diff-patch against a
//! previously rendered list (`patch`), and a teardown (`remove`).  The list
//! walks its entries right to left so that every entry knows its right
//! sibling before it inserts itself into the host tree.

pub mod host;
pub mod seq_facts;
pub mod vlist;
pub mod vnode;
