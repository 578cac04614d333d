use keru::{root_i, Id, Interact, KeyScopes, NodeKey, NodeParams, Nodes, Sense, Ui, Xy};
use std::hash::{Hash, Hasher};

fn plain() -> NodeParams {
    NodeParams {
        interact: Interact { click_animation: false, absorbs_mouse_events: false, senses: Sense::none(), focusable: false },
        scrollable: Xy::new(false, false),
        exit_animation: false,
    }
}

fn twin_id(key_id: u64, n: u32) -> Id {
    let mut h = rustc_hash::FxHasher::default();
    key_id.hash(&mut h);
    n.hash(&mut h);
    Id(h.finish())
}

#[test]
fn a_new_key_adds_a_node_under_the_parent() {
    let mut ui: Ui<u32, i32> = Ui::new(0);
    ui.current_frame = 1;
    let before = ui.changes.partial_relayouts.len();
    let (i, id) = ui.add_or_update_node(NodeKey::new(Id(7), "seven"), root_i(), plain());
    assert_eq!(id, Id(7));
    assert_eq!(ui.nodes.get_by_id(Id(7)), Some(i));
    let n = ui.nodes.get(i);
    assert_eq!(n.parent, root_i());
    assert_eq!(n.depth, 1);
    assert_eq!(n.frame_added, 1);
    assert_eq!(n.last_frame_touched, 1);
    assert_eq!(n.is_twin, None);
    assert_eq!(ui.nodes.get(root_i()).first_child, Some(i));
    assert_eq!(ui.changes.partial_relayouts.len(), before + 1);
    assert_eq!(ui.changes.partial_relayouts[before].i, i);
    assert_eq!(ui.changes.partial_relayouts[before].depth, 1);
}

#[test]
fn a_key_from_the_last_frame_is_refreshed() {
    let mut ui: Ui<u32, i32> = Ui::new(0);
    ui.current_frame = 1;
    let (i, _) = ui.add_or_update_node(NodeKey::new(Id(7), ""), root_i(), plain());
    let len = ui.nodes.len();
    let queued = ui.changes.partial_relayouts.len();
    ui.current_frame = 2;
    let (j, id) = ui.add_or_update_node(NodeKey::new(Id(7), ""), root_i(), plain());
    assert_eq!((j, id), (i, Id(7)));
    assert_eq!(ui.nodes.len(), len);
    assert_eq!(ui.nodes.get(i).last_frame_touched, 2);
    assert_eq!(ui.nodes.get(i).frame_added, 1);
    assert_eq!(ui.nodes.get(i).n_twins, 0);
    assert_eq!(ui.changes.partial_relayouts.len(), queued);
}

#[test]
fn a_key_used_twice_in_a_frame_makes_twins() {
    let mut ui: Ui<u32, i32> = Ui::new(0);
    ui.current_frame = 1;
    let k = NodeKey::new(Id(7), "");
    let (i, _) = ui.add_or_update_node(k, root_i(), plain());
    let (t1, id1) = ui.add_or_update_node(k, root_i(), plain());
    let (t2, id2) = ui.add_or_update_node(k, root_i(), plain());
    assert_eq!(id1, twin_id(7, 1));
    assert_eq!(id2, twin_id(7, 2));
    assert_ne!(t1, i);
    assert_ne!(t2, t1);
    assert_eq!(ui.nodes.get(i).n_twins, 2);
    assert_eq!(ui.nodes.get(t1).is_twin, Some(1));
    assert_eq!(ui.nodes.get(t2).is_twin, Some(2));
    assert_eq!(ui.nodes.get(t2).prev_sibling, Some(t1));
    assert_eq!(ui.nodes.len(), 5);

    // The next frame finds the same nodes again, twins included.
    ui.current_frame = 2;
    assert_eq!(ui.add_or_update_node(k, root_i(), plain()), (i, Id(7)));
    assert_eq!(ui.nodes.get(i).n_twins, 0);
    assert_eq!(ui.add_or_update_node(k, root_i(), plain()), (t1, id1));
    assert_eq!(ui.nodes.get(t1).last_frame_touched, 2);
    assert_eq!(ui.nodes.get(i).n_twins, 1);
    assert_eq!(ui.nodes.len(), 5);
}

#[test]
fn keys_resolve_in_their_key_scope() {
    let mut ui: Ui<u32, i32> = Ui::new(0);
    ui.key_scopes.push(Id(99));
    let (_, id) = ui.add_or_update_node(NodeKey::new(Id(7), ""), root_i(), plain());
    let mut h = rustc_hash::FxHasher::default();
    99u64.hash(&mut h);
    7u64.hash(&mut h);
    assert_eq!(id, Id(h.finish()));
    assert_eq!(ui.key_scopes.id_with_key_scope(Id(7)), id);
}

#[test]
fn the_nodes_layer_adds_and_refreshes_too() {
    let mut nodes = Nodes::new(Id(0));
    let scopes = KeyScopes::new();
    let (i, id, new) = nodes.add_or_update_node(NodeKey::new(Id(3), ""), &scopes, root_i(), 4, plain());
    assert!(new);
    assert_eq!(id, Id(3));
    let (j, _, new) = nodes.add_or_update_node(NodeKey::new(Id(3), ""), &scopes, root_i(), 5, plain());
    assert!(!new);
    assert_eq!(j, i);
}

#[test]
fn removing_a_leaf_frees_its_slot() {
    let mut nodes = Nodes::new(Id(0));
    let a = nodes.add_child(root_i(), Id(1), plain(), 0).unwrap();
    let b = nodes.add_child(a, Id(2), plain(), 0).unwrap();
    assert_eq!(nodes.iter(), vec![a, b]);
    assert_eq!(nodes.len(), 4);
    nodes.remove(Id(2));
    assert_eq!(nodes.get_by_id(Id(2)), None);
    assert_eq!(nodes.len(), 3);
    assert_eq!(nodes.iter(), vec![a]);
    // The freed slot is the next one used.
    let c = nodes.add_child(root_i(), Id(3), plain(), 0).unwrap();
    assert_eq!(c, b);
}

#[test]
fn try_add_reports_the_node_and_uses_slots_in_order() {
    let mut ui: Ui<u32, i32> = Ui::new(0);
    assert_eq!(ui.nodes.vacant_slot(), 2);
    let (i, id) = ui.try_add_or_update_node(NodeKey::new(Id(7), ""), root_i(), plain()).unwrap();
    assert_eq!(id, Id(7));
    assert_eq!(i.as_usize(), 2);
    assert_eq!(ui.nodes.vacant_slot(), 3);
    let (c, _) = ui.try_add_or_update_node(NodeKey::new(Id(8), ""), i, plain()).unwrap();
    assert_eq!(ui.nodes.get(c).parent, i);
    assert_eq!(ui.nodes.get(c).depth, 2);
    ui.current_frame = 1;
    assert_eq!(ui.try_add_or_update_node(NodeKey::new(Id(7), ""), root_i(), plain()), Some((i, id)));
    assert_eq!(ui.nodes.vacant_slot(), 4);
}

fn animated() -> NodeParams {
    NodeParams { exit_animation: true, ..plain() }
}

#[test]
fn an_exit_animation_takes_the_whole_subtree() {
    let mut ui: Ui<u32, i32> = Ui::new(0);
    let (a, _) = ui.add_or_update_node(NodeKey::new(Id(1), ""), root_i(), animated());
    let (a1, _) = ui.add_or_update_node(NodeKey::new(Id(2), ""), a, plain());
    let (a11, _) = ui.add_or_update_node(NodeKey::new(Id(3), ""), a1, plain());
    let (b, _) = ui.add_or_update_node(NodeKey::new(Id(4), ""), root_i(), plain());

    // Before: the accessibility tree shows everything.
    assert_eq!(ui.accessibility_nodes(root_i()).len(), 5);

    ui.init_exit_animations(a);
    for i in [a, a1, a11] {
        assert!(ui.nodes.get(i).exiting);
        assert!(ui.nodes.get(i).exit_animation_still_going);
    }
    assert!(!ui.nodes.get(b).exiting);
    // Exiting children leave the accessibility tree with their subtrees.
    let access = ui.accessibility_nodes(root_i());
    assert_eq!(access.len(), 2);
    assert_eq!(access[0].1, vec![4]);
    assert_eq!(access[1].0, 4);

    // Without an exit animation only the node itself is marked.
    ui.init_exit_animations(b);
    assert!(ui.nodes.get(b).exiting);
    assert!(!ui.nodes.get(b).exit_animation_still_going);
    assert!(ui.accessibility_nodes(root_i())[0].1.is_empty());

    // Found again, a node stops exiting.
    ui.current_frame = 1;
    ui.add_or_update_node(NodeKey::new(Id(4), ""), root_i(), plain());
    assert!(!ui.nodes.get(b).exiting);
}
