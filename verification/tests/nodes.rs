use keru::{root_i, root_params, Axis, Id, Interact, NodeI, NodeParams, Nodes, Sense, Xy};

fn params(focusable: bool, senses: Sense, scrollable: Xy<bool>, absorbs: bool) -> NodeParams {
    NodeParams {
        interact: Interact { click_animation: false, absorbs_mouse_events: absorbs, senses, focusable },
        scrollable,
        exit_animation: false,
    }
}

fn plain() -> NodeParams {
    params(false, Sense::none(), Xy::new(false, false), false)
}

// root -> a -> a1, root -> b
fn small_tree() -> (Nodes, NodeI, NodeI, NodeI) {
    let mut nodes = Nodes::new(Id(0));
    let a = nodes.add_child(root_i(), Id(10), params(false, Sense::none(), Xy::new(true, false), false), 1).unwrap();
    let a1 = nodes.add_child(a, Id(11), plain(), 1).unwrap();
    let b = nodes.add_child(root_i(), Id(12), params(false, Sense::scroll(), Xy::new(false, false), false), 1).unwrap();
    (nodes, a, a1, b)
}

#[test]
fn adding_children_links_the_tree() {
    let (nodes, a, a1, b) = small_tree();
    assert_eq!(nodes.len(), 5);
    assert_eq!(nodes.get_by_id(Id(11)), Some(a1));
    assert_eq!(nodes.get_by_id(Id(99)), None);
    let root = nodes.get(root_i());
    assert_eq!(root.first_child, Some(a));
    assert_eq!(root.last_child, Some(b));
    let na = nodes.get(a);
    assert_eq!(na.depth, 1);
    assert_eq!(na.next_sibling, Some(b));
    assert_eq!(na.first_child, Some(a1));
    assert_eq!(nodes.get(a1).parent, a);
    assert_eq!(nodes.get(a1).depth, 2);
    assert_eq!(nodes.get(b).prev_sibling, Some(a));
}

#[test]
fn adding_an_existing_id_is_refused() {
    let (mut nodes, a, _, _) = small_tree();
    assert_eq!(nodes.add_child(a, Id(12), plain(), 2), None);
    assert_eq!(nodes.len(), 5);
}

#[test]
fn depth_first_order() {
    let (nodes, a, a1, b) = small_tree();
    assert_eq!(nodes.first_node(), Some(a));
    assert_eq!(nodes.last_node(), Some(b));
    assert_eq!(nodes.next_node(a), Some(a1));
    assert_eq!(nodes.next_node(a1), Some(b));
    assert_eq!(nodes.next_node(b), None);
    assert_eq!(nodes.prev_node(b), Some(a1));
    assert_eq!(nodes.prev_node(a1), Some(a));
    assert_eq!(nodes.prev_node(a), None);
    assert_eq!(nodes.deepest_last_descendant(a), a1);
    assert_eq!(nodes.deepest_last_descendant(root_i()), b);
}

#[test]
fn empty_tree_has_no_order() {
    let nodes = Nodes::new(Id(0));
    assert_eq!(nodes.first_node(), None);
    assert_eq!(nodes.last_node(), None);
    assert_eq!(nodes.len(), 2);
}

#[test]
fn scroll_target_walks_up() {
    let (nodes, a, a1, b) = small_tree();
    assert_eq!(nodes.find_scroll_target(a1, Axis::X), Some((a, false)));
    assert_eq!(nodes.find_scroll_target(a1, Axis::Y), None);
    assert_eq!(nodes.find_scroll_target(b, Axis::Y), Some((b, true)));
}

#[test]
fn hovered_flag_and_click_rect() {
    let (mut nodes, _, _, b) = small_tree();
    nodes.set_hovered(b, true);
    assert!(nodes.get(b).hovered);
    let r = nodes.click_rect(b);
    assert_eq!(r.id, Id(12));
    assert!(r.senses.contains(Sense::scroll()));
    assert!(!r.absorbs_mouse_events);
}

#[test]
fn root_params_are_inert() {
    let p = root_params();
    assert!(!p.interact.focusable);
    assert!(p.interact.senses.is_empty());
    assert!(!p.scrollable.x && !p.scrollable.y);
    assert_eq!(root_i().as_usize(), 1);
    assert_eq!(NodeI::from(70000).as_usize(), 70000 - 65536);
}

#[test]
fn scroll_routes_group_axes_by_target() {
    let (nodes, a, a1, b) = small_tree();
    assert_eq!(nodes.scroll_routes(a1, Xy::new(true, true)), vec![(a, false, Xy::new(true, false))]);
    assert_eq!(nodes.scroll_routes(a1, Xy::new(false, true)), vec![]);
    assert_eq!(nodes.scroll_routes(b, Xy::new(true, true)), vec![(b, true, Xy::new(true, true))]);
    assert_eq!(nodes.scroll_routes(root_i(), Xy::new(true, true)), vec![]);

    let mut nodes = Nodes::new(Id(0));
    let a = nodes.add_child(root_i(), Id(1), params(false, Sense::none(), Xy::new(true, false), false), 0).unwrap();
    let a1 = nodes.add_child(a, Id(2), params(false, Sense::none(), Xy::new(false, true), false), 0).unwrap();
    assert_eq!(nodes.scroll_routes(a1, Xy::new(true, true)), vec![(a, false, Xy::new(true, false)), (a1, false, Xy::new(false, true))]);
}

#[test]
fn text_options_default_to_plain_selectable_text() {
    let t = keru::TextOptions::const_default();
    assert!(!t.editable && !t.single_line && t.selectable && !t.edit_disabled);
    assert!(!t.auto_markdown && !t.use_pointer_comparison);
    assert_eq!(keru::TextOptions::default(), t);
}
