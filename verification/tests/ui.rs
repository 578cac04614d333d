use keru::{
    root_i, AccessKitAction, HoverChange, Id, Interact, MouseButton, NamedKey, NodeKey, NodeParams, PressHits, Sense, Targets,
    TextFocusCommand, TextI, Ui, UiParent, Xy,
};

fn params(focusable: bool, senses: Sense, absorbs: bool, click_animation: bool) -> NodeParams {
    NodeParams {
        interact: Interact { click_animation, absorbs_mouse_events: absorbs, senses, focusable },
        scrollable: Xy::new(false, false),
        exit_animation: false,
    }
}

fn key(id: u64) -> NodeKey {
    NodeKey::new(Id(id), "")
}

fn t(ids: &[u64]) -> Targets {
    Targets::from_vec(&ids.iter().map(|i| Id(*i)).collect())
}

// root -> a(10, focusable) -> a1(11), root -> b(12, focusable)
fn ui() -> Ui<u32, i32> {
    let mut ui: Ui<u32, i32> = Ui::new(0);
    let a = ui.nodes.add_child(root_i(), Id(10), params(true, Sense::click(), true, true), 1).unwrap();
    ui.nodes.add_child(a, Id(11), params(false, Sense::hover(), false, false), 1).unwrap();
    ui.nodes.add_child(root_i(), Id(12), params(true, Sense::click().union(Sense::drag()), false, false), 1).unwrap();
    ui
}

#[test]
fn tab_cycles_through_focusable_nodes() {
    let mut ui = ui();
    assert_eq!(ui.focused, None);
    ui.focus_next();
    assert_eq!(ui.focused, Some(Id(10)));
    assert!(ui.show_focus_indicator);
    assert!(ui.is_focused(key(10)));
    assert_eq!(ui.scroll_into_view.map(|i| i.as_usize()), Some(2));
    ui.focus_next();
    assert_eq!(ui.focused, Some(Id(12)));
    ui.focus_next();
    assert_eq!(ui.focused, Some(Id(10)));
    ui.focus_previous();
    assert_eq!(ui.focused, Some(Id(12)));
    ui.focus_previous();
    assert_eq!(ui.focused, Some(Id(10)));
}

#[test]
fn focus_previous_from_nothing_takes_the_last() {
    let mut ui = ui();
    ui.focus_previous();
    assert_eq!(ui.focused, Some(Id(12)));
}

#[test]
fn focus_by_key_and_unfocus() {
    let mut ui = ui();
    ui.focus(key(12));
    assert!(ui.is_focused(key(12)));
    ui.focus(key(99));
    assert!(ui.is_focused(key(12)));
    ui.unfocus();
    assert_eq!(ui.focused, None);
    assert!(!ui.is_focused(key(12)));
    assert_eq!(ui.text_focus, TextFocusCommand::Clear);
}

#[test]
fn navigation_keys() {
    let mut ui = ui();
    assert!(ui.handle_navigation_key(NamedKey::Tab, true, false, 0));
    assert_eq!(ui.focused, Some(Id(10)));
    assert!(ui.handle_navigation_key(NamedKey::Tab, true, true, 0));
    assert_eq!(ui.focused, Some(Id(12)));
    assert!(!ui.handle_navigation_key(NamedKey::Tab, false, false, 0));
    assert!(ui.handle_navigation_key(NamedKey::Enter, true, false, 5));
    assert!(ui.is_clicked(key(12)));
    assert!(ui.is_click_released(key(12)));
    assert!(ui.handle_navigation_key(NamedKey::Escape, true, false, 0));
    assert!(!ui.show_focus_indicator);
    assert!(!ui.handle_navigation_key(NamedKey::Escape, true, false, 0));
    assert!(!ui.handle_navigation_key(NamedKey::Other, true, false, 0));
}

#[test]
fn mouse_press_focuses_and_clicks() {
    let mut ui = ui();
    let hits = PressHits { click_ids: t(&[10]), drag_ids: t(&[]), topmost: Some(Id(11)) };
    assert!(ui.handle_mouse_press(MouseButton::Left, hits));
    assert!(ui.is_clicked(key(10)));
    assert!(!ui.is_right_clicked(key(10)));
    assert!(ui.new_ui_input);
    assert_eq!(ui.click_animations.len(), 1);
    assert_eq!(ui.focused, Some(Id(11)));
    assert!(!ui.show_focus_indicator);
    ui.handle_mouse_release(MouseButton::Left, t(&[10]));
    assert!(ui.is_click_released(key(10)));
    let hits = PressHits { click_ids: t(&[]), drag_ids: t(&[]), topmost: None };
    assert!(!ui.handle_mouse_press(MouseButton::Right, hits));
    assert_eq!(ui.focused, None);
}

#[test]
fn drags_are_reported_until_released() {
    let mut ui = ui();
    let hits = PressHits { click_ids: t(&[12]), drag_ids: t(&[12]), topmost: Some(Id(12)) };
    ui.handle_mouse_press(MouseButton::Left, hits);
    ui.mouse_input.finish_frame();
    ui.mouse_input.cursor_moved(4);
    ui.begin_frame_resolve_inputs();
    assert_eq!(ui.is_dragged(key(12)), Some((0, 0, 4)));
    assert_eq!(ui.is_held(key(12)), Some(0));
    ui.handle_mouse_release(MouseButton::Left, t(&[]));
    assert!(ui.is_drag_released(key(12)));
    assert!(!ui.is_click_released(key(12)));
}

#[test]
fn hover_enters_and_exits() {
    let mut ui = ui();
    ui.resolve_hover(&vec![Id(11), Id(10)]);
    assert!(ui.is_hovered(key(11)));
    assert!(ui.is_hovered(key(10)));
    assert!(!ui.is_hovered(key(12)));
    ui.hover_changes.clear();
    ui.resolve_hover(&vec![Id(12)]);
    assert!(!ui.is_hovered(key(11)));
    assert!(ui.is_hovered(key(12)));
    assert!(ui.hover_changes.contains(&HoverChange { id: Id(12), entered: true, animate: false }));
    assert!(ui.hover_changes.iter().any(|c| c.id == Id(10) && !c.entered));
}

#[test]
fn accesskit_actions_are_recorded() {
    let mut ui = ui();
    ui.handle_accesskit_action(12, AccessKitAction::Focus, 0);
    assert!(ui.accesskit_action(key(12), AccessKitAction::Focus));
    assert!(!ui.accesskit_action(key(12), AccessKitAction::Click));
    assert_eq!(ui.focused, Some(Id(12)));
    ui.handle_accesskit_action(10, AccessKitAction::Click, 3);
    assert!(ui.is_clicked(key(10)));
    ui.handle_accesskit_action(77, AccessKitAction::Click, 3);
    assert!(!ui.accesskit_action(key(77), AccessKitAction::Click));
}

#[test]
fn parent_handles_check_their_own_node() {
    let mut ui = ui();
    let a = ui.nodes.get_by_id(Id(10)).unwrap();
    let parent = UiParent { i: a };
    assert_eq!(parent.key(&ui).id, Id(10));
    let hits = PressHits { click_ids: t(&[10]), drag_ids: t(&[]), topmost: Some(Id(10)) };
    ui.handle_mouse_press(MouseButton::Left, hits);
    assert!(parent.is_clicked(&ui));
    assert!(parent.is_focused(&ui) == ui.show_focus_indicator);
}

#[test]
fn key_scope_makes_keys_private() {
    let mut ui = ui();
    let scope = ui.named_key_scope(key(1));
    let inner = scope.start(&mut ui, |ui: &mut Ui<u32, i32>| ui.key_scopes.id_with_key_scope(Id(10)));
    assert_ne!(inner, Id(10));
    assert_eq!(ui.key_scopes.stack.len(), 0);
    let text = TextI::TextEdit(1);
    assert!(matches!(text, TextI::TextEdit(1)));
}

#[test]
fn scroll_routes_start_from_the_topmost_hit() {
    let mut ui: Ui<u32, i32> = Ui::new(0);
    let a = ui.nodes.add_child(root_i(), Id(5), NodeParams {
        interact: Interact { click_animation: false, absorbs_mouse_events: false, senses: Sense::scroll(), focusable: false },
        scrollable: Xy::new(false, false),
        exit_animation: false,
    }, 0).unwrap();
    assert_eq!(ui.scroll_routes(&vec![Id(5), Id(0)], Xy::new(false, true)), vec![(a, true, Xy::new(false, true))]);
    assert!(ui.scroll_routes(&vec![], Xy::new(true, true)).is_empty());
    assert!(ui.scroll_routes(&vec![Id(77)], Xy::new(true, true)).is_empty());
}

#[test]
fn drags_onto_drop_targets() {
    let mut ui = ui();
    let b = ui.nodes.get_by_id(Id(12)).unwrap();
    let rects = vec![keru::ClickRect { i: b, id: Id(12), senses: Sense::drag_drop_target(), scrollable: Xy::new(false, false), absorbs_mouse_events: false }];
    let hits = PressHits { click_ids: t(&[]), drag_ids: t(&[10]), topmost: Some(Id(10)) };
    ui.handle_mouse_press(MouseButton::Left, hits);
    ui.mouse_input.cursor_moved(3);
    ui.begin_frame_resolve_inputs();
    assert_eq!(ui.check_drag_hovered_onto(Id(10), Id(12), MouseButton::Left, &rects, &vec![true]), Some((0, 0, 3)));
    assert_eq!(ui.check_drag_hovered_onto(Id(10), Id(12), MouseButton::Left, &rects, &vec![false]), None);
    assert_eq!(ui.check_drag_hovered_onto(Id(11), Id(12), MouseButton::Left, &rects, &vec![true]), None);
    assert_eq!(ui.check_any_drag_hovered_onto(Id(12), MouseButton::Left, &rects, &vec![true]), Some((0, 0, 3)));
    assert_eq!(ui.check_any_drag_hovered_onto(Id(12), MouseButton::Right, &rects, &vec![true]), None);
    ui.handle_mouse_release(MouseButton::Left, t(&[]));
    assert!(ui.check_drag_released_onto(Id(10), Id(12), MouseButton::Left, &rects, &vec![true]));
    assert!(!ui.check_drag_released_onto(Id(10), Id(10), MouseButton::Left, &rects, &vec![true]));
    assert!(ui.check_any_drag_released_onto(Id(12), MouseButton::Left, &rects, &vec![true]));
    assert!(!ui.check_any_drag_released_onto(Id(12), MouseButton::Left, &rects, &vec![false]));
}

#[test]
fn accessible_actions_follow_the_node() {
    let mut ui = ui();
    let a = ui.nodes.get_by_id(Id(10)).unwrap();
    assert_eq!(ui.accessible_actions(a, &vec![AccessKitAction::Expand]),
        vec![AccessKitAction::Focus, AccessKitAction::Click, AccessKitAction::ScrollIntoView, AccessKitAction::Expand]);
    assert_eq!(ui.accessible_actions(root_i(), &vec![]), vec![]);
    let s = ui.nodes.add_child(root_i(), Id(20), NodeParams {
        interact: Interact { click_animation: false, absorbs_mouse_events: false, senses: Sense::none(), focusable: false },
        scrollable: Xy::new(true, true),
        exit_animation: false,
    }, 0).unwrap();
    assert_eq!(ui.accessible_actions(s, &vec![]), vec![
        AccessKitAction::ScrollIntoView, AccessKitAction::ScrollUp, AccessKitAction::ScrollDown,
        AccessKitAction::ScrollLeft, AccessKitAction::ScrollRight,
    ]);
}

#[test]
fn a_press_starts_click_animations_and_focuses() {
    let mut ui = ui();
    let before = ui.click_animations.len();
    let hits = PressHits { click_ids: t(&[10, 12, 77]), drag_ids: t(&[12]), topmost: Some(Id(10)) };
    assert!(ui.handle_mouse_press(MouseButton::Left, hits));
    // Only node 10 has the click animation; 77 is no node.
    assert_eq!(ui.click_animations.len(), before + 1);
    assert_eq!(ui.click_animations[before], ui.nodes.get_by_id(Id(10)).unwrap());
    assert_eq!(ui.focused, Some(Id(10)));
    assert!(ui.new_ui_input);
    assert!(ui.changes.focus_changed);
    assert!(ui.is_clicked(key(12)));
    assert_eq!(ui.mouse_input.currently_dragging(), vec![(Id(12), MouseButton::Left)]);
}

#[test]
fn a_right_press_starts_no_animation() {
    let mut ui = ui();
    let hits = PressHits { click_ids: t(&[10]), drag_ids: t(&[]), topmost: Some(Id(77)) };
    assert!(ui.handle_mouse_press(MouseButton::Right, hits));
    assert!(ui.click_animations.is_empty());
    // A press on an unknown topmost node leaves the focus alone.
    assert_eq!(ui.focused, None);
    assert!(ui.is_right_clicked(key(10)));
}

#[test]
fn blur_on_a_node_without_focus_changes_nothing() {
    let mut ui = ui();
    ui.focus(key(12));
    assert!(ui.show_focus_indicator);
    ui.handle_accesskit_action(10, AccessKitAction::Blur, 0);
    assert_eq!(ui.focused, Some(Id(12)));
    assert!(ui.show_focus_indicator);
    ui.handle_accesskit_action(12, AccessKitAction::Blur, 0);
    assert_eq!(ui.focused, None);
    assert_eq!(ui.text_focus, TextFocusCommand::Clear);
}

#[test]
fn scrolls_go_to_sensing_nodes_or_containers() {
    let mut ui: Ui<u32, i32> = Ui::new(0);
    let a = ui.nodes.add_child(root_i(), Id(5), NodeParams {
        interact: Interact { click_animation: false, absorbs_mouse_events: false, senses: Sense::scroll(), focusable: false },
        scrollable: Xy::new(false, false),
        exit_animation: false,
    }, 0).unwrap();
    let b = ui.nodes.add_child(root_i(), Id(6), NodeParams {
        interact: Interact { click_animation: false, absorbs_mouse_events: false, senses: Sense::none(), focusable: false },
        scrollable: Xy::new(true, false),
        exit_animation: false,
    }, 0).unwrap();
    ui.changes.should_rebuild_render_data = false;
    ui.changes.need_rerender = false;
    let routes = vec![(a, true, Xy::new(false, true)), (b, false, Xy::new(true, false))];
    let containers = ui.apply_scroll_routes(&routes, &vec![-3, 7]);
    assert_eq!(containers, vec![(b, 7)]);
    assert_eq!(ui.is_scrolled(NodeKey::new(Id(5), "")), vec![-3]);
    assert!(ui.is_scrolled(NodeKey::new(Id(6), "")).is_empty());
    assert!(ui.new_ui_input);
    assert!(ui.changes.should_rebuild_render_data && ui.changes.need_rerender);
    // Nothing to route: nothing changes.
    let mut ui2: Ui<u32, i32> = Ui::new(0);
    ui2.changes.need_rerender = false;
    assert!(ui2.apply_scroll_routes(&vec![], &vec![]).is_empty());
    assert!(!ui2.new_ui_input && !ui2.changes.need_rerender);
}

#[test]
fn accessibility_tree_lists_parents_before_children() {
    let ui = ui();
    let nodes = ui.accessibility_nodes(root_i());
    assert_eq!(nodes.len(), 4);
    assert_eq!(nodes[0].0, 0);
    assert_eq!(nodes[0].1, vec![10, 12]);
    assert_eq!(nodes[0].2, Vec::<AccessKitAction>::new());
    assert_eq!(nodes[1].0, 10);
    assert_eq!(nodes[1].1, vec![11]);
    assert_eq!(nodes[1].2, vec![AccessKitAction::Focus, AccessKitAction::Click, AccessKitAction::ScrollIntoView]);
    assert_eq!(nodes[2].0, 11);
    assert!(nodes[2].1.is_empty());
    assert_eq!(nodes[2].2, vec![AccessKitAction::ScrollIntoView]);
    assert_eq!(nodes[3].0, 12);
}
