use vstd::prelude::*;
use crate::ids::NodeI;

verus! {

/// A node that needs a partial relayout, with its depth in the tree.
#[derive(Debug, Clone, Copy)]
pub struct NodeWithDepth {
    pub i: NodeI,
    pub depth: usize,
}

/// What the [`Ui`](crate::Ui) has to update before the next frame is shown.
#[derive(Debug)]
pub struct Changes {
    pub rebuild_render_data: bool,
    pub partial_relayouts: Vec<NodeWithDepth>,
    pub full_relayout: bool,
    pub text_changed: bool,
    pub unfinished_animations: bool,
    pub need_gpu_rect_update: bool,
    pub need_rerender: bool,
    pub should_rebuild_render_data: bool,
    pub resize: bool,
    pub focus_changed: bool,
}

impl Changes {
    /// The state of a fresh UI: everything has to be laid out, rebuilt and rendered.
    pub fn new() -> (r: Changes)
        ensures
            r.partial_relayouts@.len() == 0,
            !r.rebuild_render_data,
            !r.text_changed,
            r.full_relayout,
            !r.unfinished_animations,
            r.should_rebuild_render_data,
            r.need_rerender,
            r.need_gpu_rect_update,
            !r.resize,
            !r.focus_changed,
    {
        Changes {
            partial_relayouts: Vec::with_capacity(15),
            rebuild_render_data: false,
            text_changed: false,
            full_relayout: true,
            unfinished_animations: false,
            should_rebuild_render_data: true,
            need_rerender: true,
            need_gpu_rect_update: true,
            resize: false,
            focus_changed: false,
        }
    }

    /// The start of a relayout: if neither a full relayout nor a text change
    /// was requested there is nothing to do and nothing changes; otherwise the
    /// GPU rectangles must be updated and the window redrawn, and the caller
    /// lays out, rebuilds the render data and then calls
    /// [`Changes::reset_layout_changes`]. Returns whether there is work.
    pub fn begin_relayout(&mut self) -> (r: bool)
        ensures
            r == (old(self).full_relayout || old(self).text_changed),
            !r ==> *final(self) == *old(self),
            r ==> *final(self) == (Changes { need_gpu_rect_update: true, need_rerender: true, ..*old(self) }),
    {
        if !self.full_relayout && !self.text_changed {
            return false;
        }
        self.need_gpu_rect_update = true;
        self.need_rerender = true;
        true
    }

    /// Forgets the layout work that was requested: no partial relayouts, no
    /// full relayout, no render data rebuild. The other flags are kept.
    pub fn reset_layout_changes(&mut self)
        ensures
            final(self).partial_relayouts@.len() == 0,
            !final(self).rebuild_render_data,
            !final(self).full_relayout,
            final(self).text_changed == old(self).text_changed,
            final(self).unfinished_animations == old(self).unfinished_animations,
            final(self).need_gpu_rect_update == old(self).need_gpu_rect_update,
            final(self).need_rerender == old(self).need_rerender,
            final(self).should_rebuild_render_data == old(self).should_rebuild_render_data,
            final(self).resize == old(self).resize,
            final(self).focus_changed == old(self).focus_changed,
    {
        self.partial_relayouts.clear();
        self.rebuild_render_data = false;
        self.full_relayout = false;
    }
}

} // verus!
