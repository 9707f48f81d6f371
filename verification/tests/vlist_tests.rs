use vdom_list::host::HostTree;
use vdom_list::vlist::VList;
use vdom_list::vnode::{KeyedVNodes, VElement, VNode, VText};

#[test]
fn should_display_a_list_of_vnodes() {
    let list = VList::new(vec![
        KeyedVNodes::unkeyed(VNode::from(VText::text("First of the node"))),
        KeyedVNodes::unkeyed(VNode::from(VElement::childless("input", vec![]))),
    ]);
    assert_eq!(list.display(), "First of the node<input>");
}

#[test]
fn display_is_concatenation_without_separators() {
    let list = VList::new(vec![
        KeyedVNodes::unkeyed(VNode::from(VText::text("a"))),
        KeyedVNodes::unkeyed(VNode::from(VText::text("b"))),
        KeyedVNodes::unkeyed(VNode::from(VElement::childless("div", vec![]))),
    ]);
    assert_eq!(list.display(), "ab<div>");
}

#[test]
fn display_repeats_identically() {
    let list = VList::new(vec![
        KeyedVNodes::unkeyed(VNode::from(VText::text("Hello World!"))),
        KeyedVNodes::unkeyed(VNode::from(VElement::childless("div", vec![]))),
    ]);
    let first = list.display();
    let second = list.display();
    assert_eq!(first, second);
    assert_eq!(first, "Hello World!<div>");
}

#[test]
fn empty_list_displays_nothing_and_owns_no_node() {
    let list = VList::new(vec![]);
    assert_eq!(list.display(), "");
    assert_eq!(list.node(), None);
}

#[test]
fn render_walk_mounts_all_slots() {
    let mut tree = HostTree::new();
    let container = tree.create_element(String::from("div"), vec![]);
    let mut list = VList::new(vec![
        KeyedVNodes::unkeyed(VNode::from(VText::text("Hello World!"))),
        KeyedVNodes::unkeyed(VNode::from(VElement::childless("div", vec![]))),
    ]);
    list.render_walk(&mut tree, container, None).expect("to render into div");
    assert_eq!(tree.node_count(), 3);
    assert!(list.node().is_some());
}

#[test]
fn remove_releases_every_slot() {
    let mut tree = HostTree::new();
    let container = tree.create_element(String::from("div"), vec![]);
    let mut list = VList::new(vec![
        KeyedVNodes::unkeyed(VNode::from(VText::text("one"))),
        KeyedVNodes::unkeyed(VNode::from(VText::text("two"))),
    ]);
    list.render_walk(&mut tree, container, None).expect("to render");
    list.remove(&mut tree, container).expect("to remove");
    assert_eq!(tree.node_count(), 3);
}

#[test]
fn insert_before_rejects_missing_anchor() {
    let mut tree = HostTree::new();
    let container = tree.create_element(String::from("div"), vec![]);
    let node = tree.create_text(String::from("x"));
    let stranger = tree.create_text(String::from("y"));
    assert!(tree.insert_before(container, node, Some(stranger)).is_err());
    assert!(tree.insert_before(container, node, None).is_ok());
}
