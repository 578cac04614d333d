use keru::{
    root_i, text_update_step, text_verdict, text_widget_step, Changed, NodeI, TextI, TextKind, TextOptions, TextUpdate,
    TextVerdict, TextWidgetAction,
};

fn opts(editable: bool, selectable: bool, auto_markdown: bool) -> TextOptions {
    TextOptions { editable, selectable, auto_markdown, ..TextOptions::const_default() }
}

fn node(k: usize) -> NodeI {
    NodeI::from(k)
}

#[test]
fn no_text_and_not_editable_does_nothing() {
    let (a, last) = text_widget_step(None, false, opts(false, true, false), true, Some(node(4)), None, node(5));
    assert!(a.skip);
    assert_eq!(a.create, None);
    assert_eq!(last, Some(node(4)));
}

#[test]
fn a_new_text_box_is_created_and_linked() {
    let prev = Some(TextI::TextBox(1));
    let (a, last) = text_widget_step(None, true, opts(false, true, true), false, Some(node(4)), prev, node(5));
    assert_eq!(
        a,
        TextWidgetAction {
            skip: false,
            store_fingerprint: true,
            run_markdown: true,
            remove: None,
            create: Some(TextKind::Box),
            set_text: false,
            relink: true,
            link_to_previous: true,
        }
    );
    assert_eq!(last, Some(node(5)));
}

#[test]
fn switching_to_editable_replaces_the_box() {
    let (a, last) = text_widget_step(Some(TextI::TextBox(7)), true, opts(true, true, true), false, None, None, node(5));
    assert_eq!(a.remove, Some(TextI::TextBox(7)));
    assert_eq!(a.create, Some(TextKind::Edit));
    assert!(!a.run_markdown);
    assert!(!a.relink);
    assert_eq!(last, None);
}

#[test]
fn a_changed_box_gets_its_new_text() {
    let (a, _) = text_widget_step(Some(TextI::TextBox(7)), true, opts(false, false, false), true, None, None, node(5));
    assert!(a.set_text && a.store_fingerprint);
    assert_eq!(a.create, None);
    assert!(!a.relink);
    let (b, _) = text_widget_step(Some(TextI::TextBox(7)), true, opts(false, false, false), false, None, None, node(5));
    assert!(!b.set_text && !b.store_fingerprint);
    // An unchanged edit is left alone.
    let (c, _) = text_widget_step(Some(TextI::TextEdit(3)), true, opts(true, true, false), true, None, None, root_i());
    assert!(!c.set_text && c.store_fingerprint && c.create.is_none());
}

#[test]
fn verdicts_follow_pointer_and_stamp() {
    assert_eq!(text_verdict(false, Changed::Static, 5), TextVerdict::UpdateWithoutHashing);
    assert_eq!(text_verdict(true, Changed::NeedsHash, 5), TextVerdict::HashAndSee);
    assert_eq!(text_verdict(true, Changed::ChangedAt(6), 5), TextVerdict::UpdateWithoutHashing);
    assert_eq!(text_verdict(true, Changed::ChangedAt(5), 5), TextVerdict::Skip);
    assert_eq!(text_verdict(true, Changed::Static, 5), TextVerdict::Skip);
}

#[test]
fn text_updates_by_verdict() {
    // Editable: only a new pointer is handed over.
    assert_eq!(text_update_step(true, 2, 1, Changed::Static, 0, true, 9, Some(3), false),
        TextUpdate { set_text: true, last_text_ptr: 2, last_text_hash: Some(3) });
    assert_eq!(text_update_step(true, 1, 1, Changed::Static, 0, true, 9, None, false),
        TextUpdate { set_text: false, last_text_ptr: 1, last_text_hash: None });
    // Skipped.
    assert_eq!(text_update_step(false, 1, 1, Changed::ChangedAt(3), 5, true, 9, Some(3), false),
        TextUpdate { set_text: false, last_text_ptr: 1, last_text_hash: Some(3) });
    // Updated without hashing forgets the hash.
    assert_eq!(text_update_step(false, 2, 1, Changed::NeedsHash, 5, true, 9, Some(3), false),
        TextUpdate { set_text: true, last_text_ptr: 2, last_text_hash: None });
    // Hashed: same hash skips, another hash updates.
    assert_eq!(text_update_step(false, 1, 1, Changed::NeedsHash, 5, true, 9, Some(9), false),
        TextUpdate { set_text: false, last_text_ptr: 1, last_text_hash: Some(9) });
    assert_eq!(text_update_step(false, 1, 1, Changed::NeedsHash, 5, true, 9, Some(8), false),
        TextUpdate { set_text: true, last_text_ptr: 1, last_text_hash: Some(9) });
    // No hash yet: remembered unless static.
    assert_eq!(text_update_step(false, 1, 1, Changed::NeedsHash, 5, true, 9, None, false).last_text_hash, Some(9));
    assert_eq!(text_update_step(false, 1, 1, Changed::NeedsHash, 5, true, 9, None, true).last_text_hash, None);
    // No text object yet: handed over.
    assert!(text_update_step(false, 1, 1, Changed::NeedsHash, 5, false, 9, Some(9), false).set_text);
}
