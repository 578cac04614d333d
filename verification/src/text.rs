use vstd::prelude::*;
use crate::ids::NodeI;
use crate::nodes::TextI;
use crate::observer::Changed;
use crate::params::TextOptions;

verus! {

/// The kind of text object a node shows: an editable text edit or a plain
/// text box.
#[derive(Debug, Clone, Copy, PartialEq, Eq, Structural)]
pub enum TextKind {
    Edit,
    Box,
}

/// What the text renderer has to do for a node's text in this frame.
#[derive(Debug, Clone, Copy, PartialEq, Eq, Structural)]
pub struct TextWidgetAction {
    /// The node has no text and is not editable: nothing at all is done.
    pub skip: bool,
    /// The content changed: the new fingerprint is stored.
    pub store_fingerprint: bool,
    /// The markdown transform runs on the new content.
    pub run_markdown: bool,
    /// The old text object to remove, before a new one is created.
    pub remove: Option<TextI>,
    /// The kind of text object to create, tagged with the node's id.
    pub create: Option<TextKind>,
    /// The existing text box gets the new content.
    pub set_text: bool,
    /// The node's text box is taken out of the selection chain and linked
    /// back at its end.
    pub relink: bool,
    /// The text box is linked after the text box of the previously linked
    /// node.
    pub link_to_previous: bool,
}

/// The kind of a text object.
pub open spec fn kind_of(t: TextI) -> TextKind {
    match t {
        TextI::TextEdit(_) => TextKind::Edit,
        TextI::TextBox(_) => TextKind::Box,
    }
}

/// The kind of text object that editable or plain text needs.
pub open spec fn wanted_kind(editable: bool) -> TextKind {
    if editable { TextKind::Edit } else { TextKind::Box }
}

/// The frame's text step for node `i`: `current` is the node's text object,
/// `has_text` whether the node has text, `content_changed` whether its text
/// fingerprint differs from the stored one, and `last_linked` the node whose
/// text box was linked last into the selection chain, with `last_linked_text`
/// that node's text object (read after this node's object was created).
/// A new object is needed when there is none or its kind does not match
/// `editable`; the content is updated when a new object is needed or the
/// fingerprint changed; selectable plain text is relinked at the end of the
/// selection chain, which then ends at `i`.
pub open spec fn text_widget_step_spec(current: Option<TextI>, has_text: bool, options: TextOptions, content_changed: bool,
    last_linked: Option<NodeI>, last_linked_text: Option<TextI>, i: NodeI) -> (TextWidgetAction, Option<NodeI>) {
    if !has_text && !options.editable {
        (TextWidgetAction { skip: true, store_fingerprint: false, run_markdown: false, remove: None, create: None,
            set_text: false, relink: false, link_to_previous: false }, last_linked)
    } else {
        let needs_new = match current {
            None => true,
            Some(t) => kind_of(t) != wanted_kind(options.editable),
        };
        let update = needs_new || content_changed;
        let final_kind = if needs_new { wanted_kind(options.editable) } else { kind_of(current.unwrap()) };
        let relink = !options.editable && options.selectable && final_kind == TextKind::Box;
        let prev_is_box = match last_linked_text { Some(t) => kind_of(t) == TextKind::Box, None => false };
        (TextWidgetAction {
            skip: false,
            store_fingerprint: update,
            run_markdown: update && !options.editable && options.auto_markdown,
            remove: if needs_new { current } else { None },
            create: if needs_new { Some(wanted_kind(options.editable)) } else { None },
            set_text: update && !needs_new && final_kind == TextKind::Box,
            relink,
            link_to_previous: relink && last_linked is Some && prev_is_box,
        }, if relink { Some(i) } else { last_linked })
    }
}

fn kind_of_exec(t: TextI) -> (r: TextKind)
    ensures
        r == kind_of(t),
{
    match t {
        TextI::TextEdit(_) => TextKind::Edit,
        TextI::TextBox(_) => TextKind::Box,
    }
}

/// Decides what happens to node `i`'s text object in this frame (see
/// [`text_widget_step_spec`]); returns the renderer's work and the node that
/// ends the selection chain afterwards.
///
/// Nothing happens only to a node with no text that is not editable.
/// Selectable plain text is relinked at the end of the selection chain every
/// frame, whether its text box is new or not, after the previous box if there
/// is one; other text leaves the chain alone. A new object of the kind
/// `editable` asks for is created exactly when the node has none of that
/// kind, and the old one is removed then. An existing text box gets new text
/// only when its content changed; a text edit keeps what the user typed. The
/// fingerprint is stored whenever the content is written.
pub fn text_widget_step(current: Option<TextI>, has_text: bool, options: TextOptions, content_changed: bool,
    last_linked: Option<NodeI>, last_linked_text: Option<TextI>, i: NodeI) -> (r: (TextWidgetAction, Option<NodeI>))
    ensures
        r == text_widget_step_spec(current, has_text, options, content_changed, last_linked, last_linked_text, i),
        r.0.skip <==> (!has_text && !options.editable),
        has_text && !options.editable && options.selectable ==> {
            &&& r.0.relink
            &&& r.1 == Some(i)
            &&& r.0.link_to_previous == (last_linked is Some && last_linked_text matches Some(TextI::TextBox(_)))
        },
        options.editable || !options.selectable || !has_text ==> !r.0.relink && !r.0.link_to_previous && r.1 == last_linked,
        !r.0.skip ==> (r.0.create is Some <==> match current {
            None => true,
            Some(TextI::TextEdit(_)) => !options.editable,
            Some(TextI::TextBox(_)) => options.editable,
        }),
        r.0.create is Some ==> r.0.create == Some(if options.editable { TextKind::Edit } else { TextKind::Box })
            && r.0.remove == current,
        r.0.create is None ==> r.0.remove is None,
        r.0.set_text <==> (!r.0.skip && r.0.create is None && content_changed && current matches Some(TextI::TextBox(_))),
        r.0.store_fingerprint <==> (!r.0.skip && (r.0.create is Some || content_changed)),
        r.0.run_markdown <==> (r.0.store_fingerprint && !options.editable && options.auto_markdown),
{
    if !has_text && !options.editable {
        return (TextWidgetAction { skip: true, store_fingerprint: false, run_markdown: false, remove: None, create: None,
            set_text: false, relink: false, link_to_previous: false }, last_linked);
    }
    let wanted = if options.editable { TextKind::Edit } else { TextKind::Box };
    let needs_new = match current {
        None => true,
        Some(t) => kind_of_exec(t) != wanted,
    };
    let update = needs_new || content_changed;
    let final_kind = if needs_new {
        wanted
    } else {
        match current {
            Some(t) => kind_of_exec(t),
            None => wanted,
        }
    };
    let relink = !options.editable && options.selectable && final_kind == TextKind::Box;
    let prev_is_box = match last_linked_text {
        Some(t) => kind_of_exec(t) == TextKind::Box,
        None => false,
    };
    let action = TextWidgetAction {
        skip: false,
        store_fingerprint: update,
        run_markdown: update && !options.editable && options.auto_markdown,
        remove: if needs_new { current } else { None },
        create: if needs_new { Some(wanted) } else { None },
        set_text: update && !needs_new && final_kind == TextKind::Box,
        relink,
        link_to_previous: relink && last_linked.is_some() && prev_is_box,
    };
    (action, if relink { Some(i) } else { last_linked })
}

/// Whether a node's text must be looked at in this frame.
#[derive(Debug, Clone, Copy, PartialEq, Eq, Structural)]
pub enum TextVerdict {
    Skip,
    HashAndSee,
    UpdateWithoutHashing,
}

/// The verdict for a node's text: text behind another pointer than last
/// time is updated; text behind the same pointer is hashed if its change
/// stamp says so, updated if it changed after the end of the second-to-last
/// frame, and skipped otherwise.
pub open spec fn text_verdict_spec(same_pointer: bool, changed: Changed, second_last_frame_end: u64) -> TextVerdict {
    if !same_pointer {
        TextVerdict::UpdateWithoutHashing
    } else {
        match changed {
            Changed::NeedsHash => TextVerdict::HashAndSee,
            Changed::ChangedAt(t) => if t > second_last_frame_end { TextVerdict::UpdateWithoutHashing } else { TextVerdict::Skip },
            Changed::Static => TextVerdict::Skip,
        }
    }
}

pub fn text_verdict(same_pointer: bool, changed: Changed, second_last_frame_end: u64) -> (r: TextVerdict)
    ensures
        r == text_verdict_spec(same_pointer, changed, second_last_frame_end),
{
    if !same_pointer {
        return TextVerdict::UpdateWithoutHashing;
    }
    match changed {
        Changed::NeedsHash => TextVerdict::HashAndSee,
        Changed::ChangedAt(t) => if t > second_last_frame_end { TextVerdict::UpdateWithoutHashing } else { TextVerdict::Skip },
        Changed::Static => TextVerdict::Skip,
    }
}

/// The outcome of a node's text check: whether the text is handed to the
/// renderer, and the pointer and hash remembered for the next frame.
#[derive(Debug, Clone, Copy, PartialEq, Eq, Structural)]
pub struct TextUpdate {
    pub set_text: bool,
    pub last_text_ptr: usize,
    pub last_text_hash: Option<u64>,
}

/// The text check of a node with text: `text_ptr` is where its text lives
/// now, `last_text_ptr` and `last_text_hash` what was remembered, `hash` the
/// text's hash, `has_text_object` whether the node has a text object yet and
/// `is_static` whether the text is a static string. Editable text goes to
/// the renderer whenever its pointer changed. For plain text the verdict
/// decides: a skip changes nothing; an update sends the text and forgets the
/// hash; a hash check sends the text when the hash differs from the
/// remembered one (which is then replaced), when no hash was remembered (it
/// is then remembered unless the text is static), or when the node has no
/// text object yet.
pub open spec fn text_update_spec(editable: bool, text_ptr: usize, last_text_ptr: usize, changed: Changed,
    second_last_frame_end: u64, has_text_object: bool, hash: u64, last_text_hash: Option<u64>, is_static: bool) -> TextUpdate {
    let keep = TextUpdate { set_text: false, last_text_ptr, last_text_hash };
    if editable {
        if last_text_ptr != text_ptr { TextUpdate { set_text: true, last_text_ptr: text_ptr, last_text_hash } } else { keep }
    } else {
        match text_verdict_spec(text_ptr == last_text_ptr, changed, second_last_frame_end) {
            TextVerdict::Skip => keep,
            TextVerdict::UpdateWithoutHashing => TextUpdate { set_text: true, last_text_ptr: text_ptr, last_text_hash: None },
            TextVerdict::HashAndSee => if !has_text_object {
                TextUpdate { set_text: true, last_text_ptr: text_ptr, last_text_hash }
            } else {
                match last_text_hash {
                    Some(h) => if hash != h {
                        TextUpdate { set_text: true, last_text_ptr: text_ptr, last_text_hash: Some(hash) }
                    } else {
                        TextUpdate { set_text: false, last_text_ptr: text_ptr, last_text_hash }
                    },
                    None => TextUpdate { set_text: true, last_text_ptr: text_ptr,
                        last_text_hash: if is_static { None } else { Some(hash) } },
                }
            },
        }
    }
}

/// Decides whether a node's text is handed to the renderer in this frame
/// (see [`text_update_spec`]).
pub fn text_update_step(editable: bool, text_ptr: usize, last_text_ptr: usize, changed: Changed,
    second_last_frame_end: u64, has_text_object: bool, hash: u64, last_text_hash: Option<u64>, is_static: bool) -> (r: TextUpdate)
    ensures
        r == text_update_spec(editable, text_ptr, last_text_ptr, changed, second_last_frame_end, has_text_object, hash, last_text_hash, is_static),
        editable ==> r == (TextUpdate { set_text: text_ptr != last_text_ptr, last_text_ptr: text_ptr, last_text_hash }),
        !editable && text_ptr != last_text_ptr ==> r == (TextUpdate { set_text: true, last_text_ptr: text_ptr, last_text_hash: None }),
        !editable && text_ptr == last_text_ptr && changed == Changed::Static
            ==> r == (TextUpdate { set_text: false, last_text_ptr, last_text_hash }),
        !editable && text_ptr == last_text_ptr && (changed matches Changed::ChangedAt(t) && t <= second_last_frame_end)
            ==> r == (TextUpdate { set_text: false, last_text_ptr, last_text_hash }),
        !editable && text_ptr == last_text_ptr && (changed matches Changed::ChangedAt(t) && t > second_last_frame_end)
            ==> r == (TextUpdate { set_text: true, last_text_ptr, last_text_hash: None }),
        !editable && text_ptr == last_text_ptr && changed == Changed::NeedsHash && has_text_object && last_text_hash == Some(hash)
            ==> !r.set_text && r.last_text_hash == Some(hash),
        !editable && text_ptr == last_text_ptr && changed == Changed::NeedsHash && has_text_object && last_text_hash != Some(hash)
            ==> r.set_text && r.last_text_hash == (if last_text_hash is None && is_static { None } else { Some(hash) }),
        !editable && text_ptr == last_text_ptr && changed == Changed::NeedsHash && !has_text_object
            ==> r.set_text && r.last_text_hash == last_text_hash,
        r.last_text_ptr == text_ptr,
{
    if editable {
        if last_text_ptr != text_ptr {
            return TextUpdate { set_text: true, last_text_ptr: text_ptr, last_text_hash };
        }
        return TextUpdate { set_text: false, last_text_ptr, last_text_hash };
    }
    match text_verdict(text_ptr == last_text_ptr, changed, second_last_frame_end) {
        TextVerdict::Skip => TextUpdate { set_text: false, last_text_ptr, last_text_hash },
        TextVerdict::UpdateWithoutHashing => TextUpdate { set_text: true, last_text_ptr: text_ptr, last_text_hash: None },
        TextVerdict::HashAndSee => {
            if !has_text_object {
                TextUpdate { set_text: true, last_text_ptr: text_ptr, last_text_hash }
            } else {
                match last_text_hash {
                    Some(h) => if hash != h {
                        TextUpdate { set_text: true, last_text_ptr: text_ptr, last_text_hash: Some(hash) }
                    } else {
                        TextUpdate { set_text: false, last_text_ptr: text_ptr, last_text_hash }
                    },
                    None => TextUpdate { set_text: true, last_text_ptr: text_ptr,
                        last_text_hash: if is_static { None } else { Some(hash) } },
                }
            }
        },
    }
}

} // verus!
