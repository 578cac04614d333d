use vstd::prelude::*;
use crate::ids::{Id, NodeI};
use crate::keys::{NodeKey, KeyScopes, scoped_id_spec, resolved_id};
use crate::nodes::{Nodes, InnerNode, TextI, NodeParams};
use crate::navigation::{next_in_order, prev_in_order, first_in_order, last_in_order};
use crate::changes::{Changes, NodeWithDepth};
use crate::mouse_events::{MouseInput, MouseButton};
use crate::observer::{Observer, ObserverClock};

verus! {

/// What the text renderer has to do with its keyboard focus.
#[derive(Debug, Clone, Copy, PartialEq, Eq, Structural)]
pub enum TextFocusCommand {
    /// Leave it as it is.
    Keep,
    /// Clear it.
    Clear,
    /// Give it to this text object.
    Focus(TextI),
}

/// A node that the pointer started or stopped hovering, for the effects that
/// depend on time (hover timestamps and animations).
#[derive(Debug, Clone, Copy, PartialEq, Eq, Structural)]
pub struct HoverChange {
    pub id: Id,
    pub entered: bool,
    /// Whether the node shows the click animation, which needs a rerender timer.
    pub animate: bool,
}

/// A step of synthetic scrolling requested by a screen reader.
#[derive(Debug, Clone, Copy, PartialEq, Eq, Structural)]
pub enum ScrollStep {
    Up,
    Down,
    Left,
    Right,
}

/// The state of the GUI that input handling decides on.
///
/// `S` is a pointer sample (position and time) and `D` a scroll amount, both
/// supplied by the window loop.
pub struct Ui<S, D> {
    pub nodes: Nodes,
    pub focused: Option<Id>,
    pub show_focus_indicator: bool,
    pub changes: Changes,
    pub hovered: Vec<Id>,
    pub mouse_input: MouseInput<S, D>,
    pub key_scopes: KeyScopes,
    pub accesskit_actions: Vec<(Id, AccessKitAction)>,
    /// The observer clock's reading at the end of the last frame.
    pub last_frame_end_fake_time: u64,
    /// The observer clock's reading at the end of the second-to-last frame.
    pub second_last_frame_end_fake_time: u64,
    /// The observer clock's reading at the end of the third-to-last frame.
    pub third_last_frame_end_fake_time: u64,
    pub current_frame: u64,
    /// Whether some input arrived that the GUI code has to see this frame.
    pub new_ui_input: bool,
    pub text_focus: TextFocusCommand,
    /// A node that should be scrolled into view.
    pub scroll_into_view: Option<NodeI>,
    pub hover_changes: Vec<HoverChange>,
    /// Nodes that were clicked and show the click animation.
    pub click_animations: Vec<NodeI>,
    pub synthetic_scrolls: Vec<(NodeI, ScrollStep)>,
    pub clock: ObserverClock,
}

/// An action that a screen reader can request on a node.
#[derive(Debug, Clone, Copy, PartialEq, Eq, Structural)]
pub enum AccessKitAction {
    Click,
    Focus,
    Blur,
    Collapse,
    Expand,
    CustomAction,
    Decrement,
    Increment,
    HideTooltip,
    ShowTooltip,
    ReplaceSelectedText,
    ScrollDown,
    ScrollLeft,
    ScrollRight,
    ScrollUp,
    ScrollIntoView,
    ScrollToPoint,
    SetScrollOffset,
    SetTextSelection,
    SetSequentialFocusNavigationStartingPoint,
    SetValue,
    ShowContextMenu,
}

/// The actions a screen reader can request on node `k`, in order: focus if
/// it is focusable, click if it senses clicks, scroll-into-view unless it is
/// the root, the scroll steps of the axes it scrolls along (vertical first),
/// then the node's own `declared` actions.
pub open spec fn accessible_actions_spec(m: Map<usize, InnerNode>, k: usize, declared: Seq<AccessKitAction>) -> Seq<AccessKitAction> {
    let n = m[k];
    let opt = |c: bool, a: AccessKitAction| if c { seq![a] } else { Seq::<AccessKitAction>::empty() };
    opt(n.params.interact.focusable, AccessKitAction::Focus)
        + opt(n.params.interact.senses.spec_contains(crate::sense::Sense { bits: 1 }), AccessKitAction::Click)
        + opt(k != 1, AccessKitAction::ScrollIntoView)
        + (if n.params.scrollable.y { seq![AccessKitAction::ScrollUp, AccessKitAction::ScrollDown] } else { Seq::empty() })
        + (if n.params.scrollable.x { seq![AccessKitAction::ScrollLeft, AccessKitAction::ScrollRight] } else { Seq::empty() })
        + declared
}

/// One step of keyboard navigation from `c`, wrapping around at the ends.
pub open spec fn focus_step(m: Map<usize, InnerNode>, c: usize, forward: bool) -> usize {
    if forward {
        match next_in_order(m, c) {
            Some(n) => n,
            None => first_in_order(m).unwrap(),
        }
    } else {
        match prev_in_order(m, c) {
            Some(p) => p,
            None => last_in_order(m).unwrap(),
        }
    }
}

/// Stepping from `cursor`, the first focusable node met before coming back to
/// `start`, looking at most `fuel` steps ahead.
pub open spec fn focus_search(m: Map<usize, InnerNode>, cursor: usize, start: usize, forward: bool, fuel: nat) -> Option<usize>
    decreases fuel,
{
    if fuel == 0 {
        None
    } else {
        let c = focus_step(m, cursor, forward);
        if m[c].params.interact.focusable {
            Some(c)
        } else if c == start {
            None
        } else {
            focus_search(m, c, start, forward, (fuel - 1) as nat)
        }
    }
}

/// The node keyboard navigation moves the focus to, if any.
///
/// With nothing focused, the first (or last) node is the candidate; if it is
/// not focusable the search starts from it. Otherwise it starts from the
/// focused node. The search looks at most `len` steps ahead.
pub open spec fn keyboard_focus_target(m: Map<usize, InnerNode>, ids: Map<Id, NodeI>, focused: Option<Id>, forward: bool, len: nat) -> Option<usize> {
    if first_in_order(m) is None || last_in_order(m) is None {
        None
    } else {
        let focused_slot = match focused {
            Some(id) => if ids.dom().contains(id) { Some(ids[id].index()) } else { None },
            None => None,
        };
        match focused_slot {
            Some(start) => focus_search(m, start, start, forward, len),
            None => {
                let candidate = if forward { first_in_order(m).unwrap() } else { last_in_order(m).unwrap() };
                if m[candidate].params.interact.focusable {
                    Some(candidate)
                } else {
                    focus_search(m, candidate, candidate, forward, len)
                }
            },
        }
    }
}

/// The click animation a press with `button` starts on node `n` at `i`: only
/// a left press on a node with the click animation has one.
pub open spec fn press_animation_of(n: InnerNode, i: NodeI, button: MouseButton) -> Seq<NodeI> {
    if button == MouseButton::Left && n.params.interact.click_animation { seq![i] } else { Seq::empty() }
}

/// The click animations a press with `button` starts on the click targets
/// `clicks`, in order; ids of no node are skipped.
pub open spec fn press_animations(m: Map<usize, InnerNode>, ids: Map<Id, NodeI>, button: MouseButton, clicks: Seq<Id>) -> Seq<NodeI>
    decreases clicks.len(),
{
    if clicks.len() == 0 {
        Seq::empty()
    } else {
        let id = clicks.last();
        let rest = press_animations(m, ids, button, clicks.drop_last());
        if ids.dom().contains(id) { rest + press_animation_of(m[ids[id].index()], ids[id], button) } else { rest }
    }
}

/// Whether one of the click targets `clicks` is a node that senses clicks.
pub open spec fn click_senses_any(m: Map<usize, InnerNode>, ids: Map<Id, NodeI>, clicks: Seq<Id>) -> bool {
    exists|k: int| 0 <= k < clicks.len() && {
        let id = #[trigger] clicks[k];
        ids.dom().contains(id) && m[ids[id].index()].params.interact.senses.spec_contains(crate::sense::Sense { bits: 1 })
    }
}

/// Reacting to one more click target extends the animations and the
/// new-input test by that target alone.
proof fn lemma_press_step(m: Map<usize, InnerNode>, ids: Map<Id, NodeI>, button: MouseButton, clicks: Seq<Id>, id: Id)
    ensures
        press_animations(m, ids, button, clicks.push(id)) == press_animations(m, ids, button, clicks)
            + (if ids.dom().contains(id) { press_animation_of(m[ids[id].index()], ids[id], button) } else { Seq::empty() }),
        click_senses_any(m, ids, clicks.push(id)) == (click_senses_any(m, ids, clicks)
            || (ids.dom().contains(id) && m[ids[id].index()].params.interact.senses.spec_contains(crate::sense::Sense { bits: 1 }))),
{
    assert(clicks.push(id).drop_last() == clicks);
    assert(clicks.push(id).last() == id);
    if !ids.dom().contains(id) {
        assert(press_animations(m, ids, button, clicks) + Seq::<NodeI>::empty() == press_animations(m, ids, button, clicks));
    }
    let c2 = clicks.push(id);
    if click_senses_any(m, ids, clicks) {
        let k = choose|k: int| 0 <= k < clicks.len() && {
            let id2 = #[trigger] clicks[k];
            ids.dom().contains(id2) && m[ids[id2].index()].params.interact.senses.spec_contains(crate::sense::Sense { bits: 1 })
        };
        assert(c2[k] == clicks[k]);
    }
    if click_senses_any(m, ids, c2) {
        let k = choose|k: int| 0 <= k < c2.len() && {
            let id2 = #[trigger] c2[k];
            ids.dom().contains(id2) && m[ids[id2].index()].params.interact.senses.spec_contains(crate::sense::Sense { bits: 1 })
        };
        if k < clicks.len() {
            assert(c2[k] == clicks[k]);
        }
    }
    if ids.dom().contains(id) && m[ids[id].index()].params.interact.senses.spec_contains(crate::sense::Sense { bits: 1 }) {
        assert(c2[clicks.len() as int] == id);
    }
}

/// The scroll events that routing a scroll along `routes` emits, with
/// `deltas[k]` the part of the scroll that route `k` takes: one per route to a
/// node that senses scrolling, in order, at the pointer sample `at`.
pub open spec fn route_scroll_events<S, D>(m: Map<usize, InnerNode>, routes: Seq<(NodeI, bool, crate::math::Xy<bool>)>, deltas: Seq<D>, at: S)
    -> Seq<crate::mouse_events::EventView<S, D>>
    decreases routes.len(),
{
    if routes.len() == 0 || deltas.len() < routes.len() {
        Seq::empty()
    } else {
        let k = routes.len() - 1;
        let rest = route_scroll_events(m, routes.drop_last(), deltas.take(k), at);
        if routes[k].1 {
            rest.push(crate::mouse_events::EventView::Scroll { target: m[routes[k].0.index()].id, delta: deltas[k], at })
        } else {
            rest
        }
    }
}

/// The scrolling containers among `routes`, with the part of the scroll each
/// takes, in order.
pub open spec fn route_containers<D>(routes: Seq<(NodeI, bool, crate::math::Xy<bool>)>, deltas: Seq<D>) -> Seq<(NodeI, D)>
    decreases routes.len(),
{
    if routes.len() == 0 || deltas.len() < routes.len() {
        Seq::empty()
    } else {
        let k = routes.len() - 1;
        let rest = route_containers(routes.drop_last(), deltas.take(k));
        if routes[k].1 { rest } else { rest.push((routes[k].0, deltas[k])) }
    }
}

/// The text focus command after focusing a node with the given text.
pub open spec fn text_focus_after(old: TextFocusCommand, text: Option<TextI>) -> TextFocusCommand {
    match text {
        Some(t) => TextFocusCommand::Focus(t),
        None => old,
    }
}

impl<S: Copy, D: Copy> Ui<S, D> {
    /// The invariant: the node arena is well formed, and the observer clock
    /// runs ahead of the frame-end readings taken from it.
    pub open spec fn wf(&self) -> bool {
        &&& self.nodes.wf()
        &&& self.clock_ahead()
    }

    /// Everything but the focus state and the render flags is as in `other`.
    pub open spec fn same_except_focus(&self, other: &Self) -> bool {
        &&& self.nodes == other.nodes
        &&& self.hovered == other.hovered
        &&& self.mouse_input == other.mouse_input
        &&& self.key_scopes == other.key_scopes
        &&& self.accesskit_actions == other.accesskit_actions
        &&& self.last_frame_end_fake_time == other.last_frame_end_fake_time
        &&& self.second_last_frame_end_fake_time == other.second_last_frame_end_fake_time
        &&& self.third_last_frame_end_fake_time == other.third_last_frame_end_fake_time
        &&& self.current_frame == other.current_frame
        &&& self.new_ui_input == other.new_ui_input
        &&& self.hover_changes == other.hover_changes
        &&& self.click_animations == other.click_animations
        &&& self.synthetic_scrolls == other.synthetic_scrolls
        &&& self.clock == other.clock
    }

    /// `after` is `before` with the focus moved to node `i`.
    pub open spec fn focus_moved(before: &Self, after: &Self, i: usize, show: bool) -> bool {
        &&& after.focused == Some(before.nodes.map()[i].id)
        &&& after.show_focus_indicator == show
        &&& after.changes == (Changes { should_rebuild_render_data: true, focus_changed: true, ..before.changes })
        &&& after.text_focus == text_focus_after(before.text_focus, before.nodes.map()[i].text_i)
        &&& after.scroll_into_view == before.scroll_into_view
        &&& after.same_except_focus(before)
    }

    /// The state with the focus indicator shown and the render data marked for a rebuild.
    pub open spec fn with_indicator_shown(&self) -> Self {
        Ui { show_focus_indicator: true, changes: Changes { should_rebuild_render_data: true, ..self.changes }, ..*self }
    }

    /// A GUI with only the root node; the pointer at `cursor`.
    pub fn new(cursor: S) -> (r: Self)
        ensures
            r.wf(),
            r.focused is None,
            !r.show_focus_indicator,
            r.hovered@.len() == 0,
            r.nodes.map().dom() == set![0usize, 1usize],
            r.clock_ahead(),
            r.nodes.next_key() == 2,
            r.nodes.no_vacant_slot(),
            r.nodes.ids().dom() == set![Id(0)],
            r.key_scopes.stack@.len() == 0,
            r.current_frame == 0,
    {
        Ui {
            nodes: Nodes::new(Id(0)),
            focused: None,
            show_focus_indicator: false,
            changes: Changes::new(),
            hovered: Vec::new(),
            mouse_input: MouseInput::new(cursor),
            key_scopes: KeyScopes::new(),
            accesskit_actions: Vec::new(),
            last_frame_end_fake_time: 0,
            second_last_frame_end_fake_time: 0,
            third_last_frame_end_fake_time: 0,
            current_frame: 0,
            new_ui_input: false,
            text_focus: TextFocusCommand::Keep,
            scroll_into_view: None,
            hover_changes: Vec::new(),
            click_animations: Vec::new(),
            synthetic_scrolls: Vec::new(),
            clock: ObserverClock::new(),
        }
    }

    /// Gives the keyboard focus to node `i`.
    pub fn set_focus_node(&mut self, i: NodeI, show_indicator: bool)
        requires
            old(self).wf(),
            old(self).nodes.contains(i),
        ensures
            Self::focus_moved(old(self), final(self), i.index(), show_indicator),
    {
        let node = self.nodes.get(i);
        self.focused = Some(node.id);
        self.show_focus_indicator = show_indicator;
        self.changes.should_rebuild_render_data = true;
        self.changes.focus_changed = true;
        match node.text_i {
            Some(t) => {
                self.text_focus = TextFocusCommand::Focus(t);
            },
            None => {},
        }
    }

    /// Whether keyboard navigation can stop on node `i`.
    pub fn is_interactable_for_focus(&self, i: NodeI) -> (r: bool)
        requires
            self.wf(),
            self.nodes.contains(i),
        ensures
            r == self.nodes.node(i).params.interact.focusable,
    {
        self.nodes.get(i).params.interact.focusable
    }

    /// Moves the keyboard focus to the next (or previous) focusable node in
    /// depth-first order, wrapping around at the ends. If nothing is focused
    /// yet, focuses the first (or last) focusable node. Using the keyboard
    /// always reveals the focus indicator.
    pub fn move_keyboard_focus(&mut self, forward: bool)
        requires
            old(self).wf(),
        ensures
            final(self).wf(),
            keyboard_focus_target(old(self).nodes.map(), old(self).nodes.ids(), old(self).focused, forward, old(self).nodes.map().dom().len()) is None
                ==> *final(self) == old(self).with_indicator_shown(),
            keyboard_focus_target(old(self).nodes.map(), old(self).nodes.ids(), old(self).focused, forward, old(self).nodes.map().dom().len()) matches Some(c)
                ==> Self::focus_moved(&old(self).with_indicator_shown(), &(Ui { scroll_into_view: old(self).scroll_into_view, ..*final(self) }), c, true),
            keyboard_focus_target(old(self).nodes.map(), old(self).nodes.ids(), old(self).focused, forward, old(self).nodes.map().dom().len()) matches Some(c)
                ==> final(self).scroll_into_view matches Some(n) && n.index() == c,
    {
        self.show_focus_indicator = true;
        self.changes.should_rebuild_render_data = true;
        let ghost shown = *self;
        let ghost m = self.nodes.map();
        let ghost len = m.dom().len();
        proof {
            assert(shown == old(self).with_indicator_shown());
            assert(keyboard_focus_target(old(self).nodes.map(), old(self).nodes.ids(), old(self).focused, forward, old(self).nodes.map().dom().len())
                == keyboard_focus_target(m, shown.nodes.ids(), shown.focused, forward, len));
        }
        let first = match self.nodes.first_node() {
            Some(f) => f,
            None => return,
        };
        let last = match self.nodes.last_node() {
            Some(l) => l,
            None => return,
        };
        let focused_i = match self.focused {
            Some(id) => self.nodes.get_by_id(id),
            None => None,
        };
        let start = match focused_i {
            Some(i) => i,
            None => {
                let candidate = if forward { first } else { last };
                if self.is_interactable_for_focus(candidate) {
                    proof {
                        assert(keyboard_focus_target(m, shown.nodes.ids(), shown.focused, forward, len) == Some(candidate.index()));
                    }
                    self.set_focus_node(candidate, true);
                    self.scroll_into_view = Some(candidate);
                    proof {
                        assert(Self::focus_moved(&shown, &(Ui { scroll_into_view: shown.scroll_into_view, ..*self }), candidate.index(), true));
                    }
                    return;
                }
                candidate
            },
        };
        let mut remaining = self.nodes.len();
        let mut cursor = start;
        loop
            invariant
                self.wf(),
                *self == shown,
                shown == old(self).with_indicator_shown(),
                shown.nodes.map() == m,
                m.dom().len() == len,
                self.nodes.contains(cursor),
                self.nodes.contains(start),
                self.nodes.contains(first),
                self.nodes.contains(last),
                first_in_order(m) == Some(first.index()),
                last_in_order(m) == Some(last.index()),
                remaining <= len,
                focus_search(m, cursor.index(), start.index(), forward, remaining as nat)
                    == focus_search(m, start.index(), start.index(), forward, len),
                focus_search(m, start.index(), start.index(), forward, len)
                    == keyboard_focus_target(m, shown.nodes.ids(), shown.focused, forward, len),
            decreases remaining,
        {
            if remaining == 0 {
                return;
            }
            let ghost prev_cursor = cursor.index();
            remaining = remaining - 1;
            cursor = if forward {
                match self.nodes.next_node(cursor) {
                    Some(n) => n,
                    None => first,
                }
            } else {
                match self.nodes.prev_node(cursor) {
                    Some(p) => p,
                    None => last,
                }
            };
            proof {
                assert(cursor.index() == focus_step(m, prev_cursor, forward));
            }
            if self.is_interactable_for_focus(cursor) {
                proof {
                    assert(focus_search(m, start.index(), start.index(), forward, len) == Some(cursor.index()));
                    assert(keyboard_focus_target(m, shown.nodes.ids(), shown.focused, forward, len) == Some(cursor.index()));
                }
                self.set_focus_node(cursor, true);
                proof {
                    assert(Self::focus_moved(&shown, self, cursor.index(), true));
                }
                self.scroll_into_view = Some(cursor);
                return;
            }
            if cursor.as_usize() == start.as_usize() {
                return;
            }
        }
    }
}


/// The named keys of the keyboard that the GUI reacts to.
#[derive(Debug, Clone, Copy, PartialEq, Eq, Structural)]
pub enum NamedKey {
    Tab,
    Escape,
    Space,
    Enter,
    F1,
    Other,
}

/// A handle to a parent node, for checking its input without a key.
#[derive(Debug, Clone, Copy)]
pub struct UiParent {
    pub i: NodeI,
}

/// A key scope, to run GUI code in which node keys are private.
pub struct UiKeyScope {
    pub key: NodeKey,
}

impl<S: Copy, D: Copy> Ui<S, D> {
    /// The id a key resolves to in the current key scope.
    pub open spec fn scoped_id(&self, key: NodeKey) -> Id {
        resolved_id(self.key_scopes.stack@, key.id)
    }

    /// The GUI after [`Ui::add_or_update_node`] changed its arena to `nodes`
    /// and queued the nodes in `relayouts` for a partial relayout: nothing
    /// else differs from `self`.
    pub open spec fn with_nodes(&self, nodes: Nodes, relayouts: Vec<NodeWithDepth>) -> Self {
        Ui { nodes, changes: Changes { partial_relayouts: relayouts, ..self.changes }, ..*self }
    }

    /// `after` is `before` after the node for `key` was added under `parent`
    /// or found again (see [`Ui::add_or_update_node`]), giving `r`.
    pub open spec fn node_added_or_updated(before: Self, after: Self, key: NodeKey, parent: NodeI, params: NodeParams, r: (NodeI, Id)) -> bool {
        &&& Nodes::upserted(before.nodes, after.nodes, before.key_scopes.stack@, key.id,
                parent, before.current_frame, params, r.0, r.1, !before.nodes.ids().dom().contains(r.1))
        &&& after.changes.partial_relayouts@ == if before.nodes.ids().dom().contains(r.1) {
                before.changes.partial_relayouts@
            } else {
                before.changes.partial_relayouts@.push(NodeWithDepth { i: r.0, depth: after.nodes.node(r.0).depth })
            }
        &&& after == before.with_nodes(after.nodes, after.changes.partial_relayouts)
        &&& before.nodes.no_vacant_slot() ==> after.nodes.no_vacant_slot()
            && after.nodes.next_key() == before.nodes.next_key() + (if before.nodes.ids().dom().contains(r.1) { 0int } else { 1int })
    }

    /// Whether [`Ui::add_or_update_node`] can add or refresh the node for
    /// `key` under `parent`: the parent can have children one level deeper, a
    /// new node's slot fits a node index, and a twin count can still grow.
    pub open spec fn can_add_or_update(&self, key: NodeKey, parent: NodeI) -> bool {
        &&& self.nodes.node(parent).depth < usize::MAX
        &&& self.nodes.next_key() < 0x10000
        &&& self.nodes.twin_count_can_grow(self.scoped_id(key), self.current_frame)
    }

    /// [`Ui::add_or_update_node`] where it can work; `None`, changing
    /// nothing, where the parent is as deep as a depth can be, the arena has
    /// no slot left that fits a node index, or the key was used as many times
    /// in this frame as a twin count can hold.
    pub fn try_add_or_update_node(&mut self, key: NodeKey, parent: NodeI, params: NodeParams) -> (r: Option<(NodeI, Id)>)
        requires
            old(self).wf(),
            old(self).nodes.contains(parent),
        ensures
            final(self).wf(),
            r is None <==> !old(self).can_add_or_update(key, parent),
            r is None ==> *final(self) == *old(self),
            r matches Some(v) ==> Self::node_added_or_updated(*old(self), *final(self), key, parent, params, v),
    {
        if self.nodes.get(parent).depth == usize::MAX || self.nodes.vacant_slot() >= 0x10000 {
            return None;
        }
        let kid = self.key_scopes.id_with_key_scope(key.id);
        match self.nodes.get_by_id(kid) {
            Some(i) => {
                let n = self.nodes.get(i);
                if n.last_frame_touched == self.current_frame && n.n_twins == u32::MAX {
                    return None;
                }
            },
            None => {},
        }
        Some(self.add_or_update_node(key, parent, params))
    }

    /// Adds the node for `key` under `parent`, or finds it again.
    ///
    /// The key's id is resolved in the current key scope. If no node has that
    /// id, a new one with `params` is appended as the last child of `parent`
    /// and queued for a partial relayout. If the node exists and was not
    /// touched in the current frame, it is refreshed: touched in this frame,
    /// its twin count reset. If it was already touched in this frame, the key
    /// is being used a second time: the node's twin count goes up to `n`, and
    /// the `n`-th twin (the key's sibling for `n`) is refreshed, or added like
    /// a new node and queued. Returns the index and id of the node that was
    /// added or refreshed.
    pub fn add_or_update_node(&mut self, key: NodeKey, parent: NodeI, params: NodeParams) -> (r: (NodeI, Id))
        requires
            old(self).wf(),
            old(self).nodes.contains(parent),
            old(self).can_add_or_update(key, parent),
        ensures
            final(self).wf(),
            Self::node_added_or_updated(*old(self), *final(self), key, parent, params, r),
    {
        let frame = self.current_frame;
        let (i, id, is_new) = self.nodes.add_or_update_node(key, &self.key_scopes, parent, frame, params);
        if is_new {
            let depth = self.nodes.get(i).depth;
            self.changes.partial_relayouts.push(NodeWithDepth { i, depth });
        }
        (i, id)
    }

    /// Sets the keyboard focus to the node corresponding to `key`, if it exists.
    pub fn focus(&mut self, key: NodeKey)
        requires
            old(self).wf(),
        ensures
            final(self).wf(),
            exists|id: Id| {
                &&& old(self).key_scopes.stack@.len() == 0 ==> id == key.id
                &&& Some(id.0 as int) == scoped_id_spec(old(self).key_scopes.stack@, key.id)
                &&& (old(self).nodes.ids().dom().contains(id) ==>
                        Self::focus_moved(old(self), final(self), old(self).nodes.ids()[id].index(), true))
                &&& (!old(self).nodes.ids().dom().contains(id) ==> *final(self) == *old(self))
            },
    {
        let id = self.key_scopes.id_with_key_scope(key.id);
        if let Some(i) = self.nodes.get_by_id(id) {
            self.set_focus_node(i, true);
        }
    }

    /// Moves the keyboard focus to the next focusable node (see [`Ui::move_keyboard_focus`]).
    pub fn focus_next(&mut self)
        requires
            old(self).wf(),
        ensures
            final(self).wf(),
            keyboard_focus_target(old(self).nodes.map(), old(self).nodes.ids(), old(self).focused, true, old(self).nodes.map().dom().len()) is None
                ==> *final(self) == old(self).with_indicator_shown(),
            keyboard_focus_target(old(self).nodes.map(), old(self).nodes.ids(), old(self).focused, true, old(self).nodes.map().dom().len()) matches Some(c)
                ==> Self::focus_moved(&old(self).with_indicator_shown(), &(Ui { scroll_into_view: old(self).scroll_into_view, ..*final(self) }), c, true)
                    && (final(self).scroll_into_view matches Some(n) && n.index() == c),
    {
        self.move_keyboard_focus(true);
    }

    /// Moves the keyboard focus to the previous focusable node (see [`Ui::move_keyboard_focus`]).
    pub fn focus_previous(&mut self)
        requires
            old(self).wf(),
        ensures
            final(self).wf(),
            keyboard_focus_target(old(self).nodes.map(), old(self).nodes.ids(), old(self).focused, false, old(self).nodes.map().dom().len()) is None
                ==> *final(self) == old(self).with_indicator_shown(),
            keyboard_focus_target(old(self).nodes.map(), old(self).nodes.ids(), old(self).focused, false, old(self).nodes.map().dom().len()) matches Some(c)
                ==> Self::focus_moved(&old(self).with_indicator_shown(), &(Ui { scroll_into_view: old(self).scroll_into_view, ..*final(self) }), c, true)
                    && (final(self).scroll_into_view matches Some(n) && n.index() == c),
    {
        self.move_keyboard_focus(false);
    }

    /// Clears the keyboard focus and hides the focus indicator.
    pub fn unfocus(&mut self)
        ensures
            final(self).focused is None,
            !final(self).show_focus_indicator,
            final(self).text_focus == TextFocusCommand::Clear,
            final(self).changes == (Changes { should_rebuild_render_data: true, focus_changed: true, ..old(self).changes }),
            final(self).scroll_into_view == old(self).scroll_into_view,
            final(self).same_except_focus(old(self)),
    {
        self.focused = None;
        self.show_focus_indicator = false;
        self.text_focus = TextFocusCommand::Clear;
        self.changes.should_rebuild_render_data = true;
        self.changes.focus_changed = true;
    }

    /// Whether the node corresponding to `key` holds the keyboard focus with
    /// the focus indicator shown (a node focused only as a starting point for
    /// keyboard navigation does not count).
    pub fn is_focused(&self, key: NodeKey) -> (r: bool)
        ensures
            self.key_scopes.stack@.len() == 0 ==> r == (self.show_focus_indicator && self.focused == Some(key.id)),
            r == (self.show_focus_indicator && self.focused == Some(self.scoped_id(key))),
    {
        let id = self.key_scopes.id_with_key_scope(key.id);
        self.show_focus_indicator && self.focused == Some(id)
    }

    /// Moves the focus on a mouse press to the topmost hit node, whatever its
    /// senses. A node that cannot be focused is still focused, silently, so
    /// that keyboard navigation can start from it. Pressing on empty space
    /// clears the focus.
    pub fn resolve_focus_on_press(&mut self, hit: Option<Id>)
        requires
            old(self).wf(),
        ensures
            final(self).wf(),
            hit is None ==> {
                &&& final(self).focused is None
                &&& final(self).text_focus == TextFocusCommand::Clear
                &&& final(self).changes == (Changes { focus_changed: true, ..old(self).changes })
                &&& final(self).show_focus_indicator == old(self).show_focus_indicator
                &&& final(self).scroll_into_view == old(self).scroll_into_view
                &&& final(self).same_except_focus(old(self))
            },
            hit is Some && !old(self).nodes.ids().dom().contains(hit.unwrap()) ==> *final(self) == *old(self),
            hit is Some && old(self).nodes.ids().dom().contains(hit.unwrap()) ==> {
                let i = old(self).nodes.ids()[hit.unwrap()].index();
                let focusable = old(self).nodes.map()[i].params.interact.focusable;
                let moved = Ui { new_ui_input: old(self).new_ui_input, ..*final(self) };
                &&& Self::focus_moved(old(self), &moved, i, focusable && old(self).show_focus_indicator)
                &&& final(self).new_ui_input == (old(self).new_ui_input || final(self).focused != old(self).focused)
            },
    {
        let hit_id = match hit {
            Some(h) => h,
            None => {
                self.focused = None;
                self.text_focus = TextFocusCommand::Clear;
                self.changes.focus_changed = true;
                return;
            },
        };
        let i = match self.nodes.get_by_id(hit_id) {
            Some(i) => i,
            None => return,
        };
        let prev_focused = self.focused;
        let interactable = self.is_interactable_for_focus(i);
        if interactable {
            let currently_showing_indicator = self.show_focus_indicator;
            self.set_focus_node(i, currently_showing_indicator);
        } else {
            self.set_focus_node(i, false);
        }
        if self.focused != prev_focused {
            self.new_ui_input = true;
        }
    }

    /// Activates node `i` from the keyboard, as if it had been clicked at
    /// `at`: a synthetic click, the click animation if the node has one, and
    /// new input for the GUI code.
    pub fn activate_focused_node(&mut self, i: NodeI, at: S)
        requires
            old(self).wf(),
            old(self).nodes.contains(i),
        ensures
            final(self).wf(),
            final(self).mouse_input.events_view() == old(self).mouse_input.events_view()
                .push(crate::mouse_events::EventView::Click { targets: seq![old(self).nodes.node(i).id], button: crate::mouse_events::MouseButton::Left, press: at })
                .push(crate::mouse_events::EventView::ClickRelease { targets: seq![old(self).nodes.node(i).id], button: crate::mouse_events::MouseButton::Left, press: at, release: at }),
            final(self).new_ui_input,
            old(self).nodes.node(i).params.interact.click_animation ==> {
                &&& final(self).click_animations@ == old(self).click_animations@.push(i)
                &&& final(self).changes == (Changes { should_rebuild_render_data: true, ..old(self).changes })
            },
            !old(self).nodes.node(i).params.interact.click_animation ==> {
                &&& final(self).click_animations == old(self).click_animations
                &&& final(self).changes == old(self).changes
            },
            final(self).nodes == old(self).nodes,
            final(self).focused == old(self).focused,
            final(self).show_focus_indicator == old(self).show_focus_indicator,
    {
        let node = self.nodes.get(i);
        self.mouse_input.push_synthetic_click(node.id, at);
        if node.params.interact.click_animation {
            self.click_animations.push(i);
            self.changes.should_rebuild_render_data = true;
        }
        self.new_ui_input = true;
    }

    /// Handles a keyboard key for navigation: Tab moves the focus (backwards
    /// with Shift), Escape hides the focus indicator, Space and Enter activate
    /// the focused node unless it is a text edit or cannot be focused.
    /// `activate_at` is the pointer sample a keyboard click is reported at.
    /// Returns whether the key was consumed.
    pub fn handle_navigation_key(&mut self, key: NamedKey, pressed: bool, shift: bool, activate_at: S) -> (r: bool)
        requires
            old(self).wf(),
        ensures
            final(self).wf(),
            key == NamedKey::Tab && pressed ==> r,
            key == NamedKey::Tab && pressed && keyboard_focus_target(old(self).nodes.map(), old(self).nodes.ids(), old(self).focused, !shift, old(self).nodes.map().dom().len()) is None
                ==> *final(self) == old(self).with_indicator_shown(),
            keyboard_focus_target(old(self).nodes.map(), old(self).nodes.ids(), old(self).focused, !shift, old(self).nodes.map().dom().len()) matches Some(c)
                ==> key == NamedKey::Tab && pressed ==> Self::focus_moved(&old(self).with_indicator_shown(), &(Ui { scroll_into_view: old(self).scroll_into_view, ..*final(self) }), c, true)
                    && (final(self).scroll_into_view matches Some(n) && n.index() == c),
            key == NamedKey::Escape && pressed && old(self).show_focus_indicator ==> r
                && *final(self) == (Ui { show_focus_indicator: false, new_ui_input: true, changes: (Changes { should_rebuild_render_data: true, ..old(self).changes }), ..*old(self) }),
            key == NamedKey::Escape && pressed && !old(self).show_focus_indicator ==> !r && *final(self) == *old(self),
            (key == NamedKey::Space || key == NamedKey::Enter) && pressed ==> (r <==> (
                old(self).focused matches Some(id) && old(self).nodes.ids().dom().contains(id)
                && old(self).nodes.map()[old(self).nodes.ids()[id].index()].params.interact.focusable
                && !(old(self).nodes.map()[old(self).nodes.ids()[id].index()].text_i matches Some(TextI::TextEdit(_))))),
            (key == NamedKey::Space || key == NamedKey::Enter) && pressed && !r ==> *final(self) == *old(self),
            (key == NamedKey::Space || key == NamedKey::Enter) && pressed && r ==> {
                let i = old(self).nodes.ids()[old(self).focused.unwrap()];
                &&& final(self).mouse_input.events_view() == old(self).mouse_input.events_view()
                    .push(crate::mouse_events::EventView::Click { targets: seq![old(self).nodes.node(i).id], button: crate::mouse_events::MouseButton::Left, press: activate_at })
                    .push(crate::mouse_events::EventView::ClickRelease { targets: seq![old(self).nodes.node(i).id], button: crate::mouse_events::MouseButton::Left, press: activate_at, release: activate_at })
                &&& final(self).new_ui_input
                &&& final(self).nodes == old(self).nodes
                &&& final(self).focused == old(self).focused
            },
            !pressed ==> !r && *final(self) == *old(self),
            key == NamedKey::Other || key == NamedKey::F1 ==> !r && *final(self) == *old(self),
    {
        if !pressed {
            return false;
        }
        match key {
            NamedKey::Tab => {
                self.move_keyboard_focus(!shift);
                true
            },
            NamedKey::Escape => {
                if self.show_focus_indicator {
                    self.show_focus_indicator = false;
                    self.changes.should_rebuild_render_data = true;
                    self.new_ui_input = true;
                    true
                } else {
                    false
                }
            },
            NamedKey::Space | NamedKey::Enter => {
                let fi = match self.focused {
                    Some(id) => self.nodes.get_by_id(id),
                    None => None,
                };
                match fi {
                    Some(i) => {
                        let node = self.nodes.get(i);
                        let is_text_edit = match node.text_i {
                            Some(TextI::TextEdit(_)) => true,
                            _ => false,
                        };
                        if self.is_interactable_for_focus(i) && !is_text_edit {
                            self.activate_focused_node(i, activate_at);
                            true
                        } else {
                            false
                        }
                    },
                    None => false,
                }
            },
            _ => false,
        }
    }
}


/// The part of the state that hover resolution changes.
pub struct HoverState {
    pub m: Map<usize, InnerNode>,
    pub hovered: Seq<Id>,
    pub changes: Seq<HoverChange>,
    pub new_ui_input: bool,
    pub rebuild: bool,
}

/// The pointer left the node with this id.
pub open spec fn end_hover_step(st: HoverState, ids: Map<Id, NodeI>, frame: u64, id: Id) -> HoverState {
    if !ids.dom().contains(id) {
        st
    } else {
        let i = ids[id].index();
        let n = st.m[i];
        let animate = n.last_frame_touched == frame && n.params.interact.click_animation;
        HoverState {
            m: if animate { st.m.insert(i, InnerNode { hovered: false, ..n }) } else { st.m },
            hovered: st.hovered,
            changes: st.changes.push(HoverChange { id, entered: false, animate }),
            new_ui_input: st.new_ui_input || n.params.interact.senses.spec_contains(crate::sense::Sense { bits: 256 }),
            rebuild: st.rebuild || animate,
        }
    }
}

/// The pointer is over the node with this id: it starts hovering it, or
/// keeps hovering it.
pub open spec fn start_hover_step(st: HoverState, ids: Map<Id, NodeI>, id: Id) -> HoverState {
    if !st.hovered.contains(id) {
        let hovered = st.hovered.push(id);
        if !ids.dom().contains(id) {
            HoverState { hovered, ..st }
        } else {
            let i = ids[id].index();
            let n = st.m[i];
            let has_hover = n.params.interact.senses.spec_intersects(crate::sense::Sense { bits: 260 });
            let animate = n.params.interact.click_animation;
            HoverState {
                m: if animate { st.m.insert(i, InnerNode { hovered: true, ..n }) } else { st.m },
                hovered,
                changes: st.changes.push(HoverChange { id, entered: true, animate }),
                new_ui_input: st.new_ui_input || has_hover,
                rebuild: st.rebuild || animate,
            }
        }
    } else if ids.dom().contains(id) && st.m[ids[id].index()].params.interact.senses.spec_contains(crate::sense::Sense { bits: 4 }) {
        HoverState { new_ui_input: true, ..st }
    } else {
        st
    }
}

/// Ends the hover of the first `k` previously hovered ids that are no longer hit.
pub open spec fn end_hover_phase(st: HoverState, ids: Map<Id, NodeI>, frame: u64, previous: Seq<Id>, hit: Seq<Id>, k: int) -> HoverState
    decreases k,
{
    if k <= 0 {
        st
    } else {
        let before = end_hover_phase(st, ids, frame, previous, hit, k - 1);
        if hit.contains(previous[k - 1]) { before } else { end_hover_step(before, ids, frame, previous[k - 1]) }
    }
}

/// Starts or keeps the hover of the first `k` hit ids.
pub open spec fn start_hover_phase(st: HoverState, ids: Map<Id, NodeI>, hit: Seq<Id>, k: int) -> HoverState
    decreases k,
{
    if k <= 0 {
        st
    } else {
        start_hover_step(start_hover_phase(st, ids, hit, k - 1), ids, hit[k - 1])
    }
}

/// The ids of `s` that are in `keep`, in order.
pub open spec fn retain_in(s: Seq<Id>, keep: Seq<Id>) -> Seq<Id>
    decreases s.len(),
{
    if s.len() == 0 {
        s
    } else {
        let rest = retain_in(s.drop_last(), keep);
        if keep.contains(s.last()) { rest.push(s.last()) } else { rest }
    }
}

/// The whole hover resolution: first the ends, then the starts.
pub open spec fn resolve_hover_spec(st: HoverState, ids: Map<Id, NodeI>, frame: u64, hit: Seq<Id>) -> HoverState {
    let ended = end_hover_phase(st, ids, frame, st.hovered, hit, st.hovered.len() as int);
    let started = start_hover_phase(ended, ids, hit, hit.len() as int);
    HoverState { hovered: retain_in(started.hovered, hit), ..started }
}

proof fn lemma_end_phase_keeps_hovered(st: HoverState, ids: Map<Id, NodeI>, frame: u64, previous: Seq<Id>, hit: Seq<Id>, k: int)
    ensures
        end_hover_phase(st, ids, frame, previous, hit, k).hovered == st.hovered,
    decreases k,
{
    if k > 0 {
        lemma_end_phase_keeps_hovered(st, ids, frame, previous, hit, k - 1);
    }
}

proof fn lemma_start_phase_hovered(st: HoverState, ids: Map<Id, NodeI>, hit: Seq<Id>, k: int)
    requires
        0 <= k <= hit.len(),
    ensures
        forall|x: Id| #[trigger] start_hover_phase(st, ids, hit, k).hovered.contains(x) <==> (st.hovered.contains(x) || hit.take(k).contains(x)),
        st.hovered.no_duplicates() ==> start_hover_phase(st, ids, hit, k).hovered.no_duplicates(),
    decreases k,
{
    if k > 0 {
        lemma_start_phase_hovered(st, ids, hit, k - 1);
        let prev = start_hover_phase(st, ids, hit, k - 1);
        let cur = start_hover_phase(st, ids, hit, k);
        let id = hit[k - 1];
        let tp = hit.take(k - 1);
        let tk = hit.take(k);
        assert(tk =~= tp.push(id));
        if !prev.hovered.contains(id) {
            assert(cur.hovered =~= prev.hovered.push(id));
            assert forall|x: Id| #[trigger] cur.hovered.contains(x) <==> (prev.hovered.contains(x) || x == id) by {
                if cur.hovered.contains(x) {
                    let j = choose|j: int| 0 <= j < cur.hovered.len() && cur.hovered[j] == x;
                    if j < prev.hovered.len() {
                        assert(prev.hovered[j] == x);
                    }
                }
                if prev.hovered.contains(x) {
                    let j = choose|j: int| 0 <= j < prev.hovered.len() && prev.hovered[j] == x;
                    assert(cur.hovered[j] == x);
                }
                if x == id {
                    assert(cur.hovered[prev.hovered.len() as int] == x);
                }
            }
            assert forall|x: Id| #[trigger] tk.contains(x) <==> (tp.contains(x) || x == id) by {
                if tk.contains(x) {
                    let j = choose|j: int| 0 <= j < tk.len() && tk[j] == x;
                    if j < k - 1 {
                        assert(tp[j] == x);
                    }
                }
                if tp.contains(x) {
                    let j = choose|j: int| 0 <= j < tp.len() && tp[j] == x;
                    assert(tk[j] == x);
                }
                if x == id {
                    assert(tk[k - 1] == x);
                }
            }
            if st.hovered.no_duplicates() {
                assert forall|a: int, b: int| 0 <= a < cur.hovered.len() && 0 <= b < cur.hovered.len() && a != b
                    implies cur.hovered[a] != cur.hovered[b] by {
                    if a < prev.hovered.len() && b < prev.hovered.len() {
                        assert(prev.hovered[a] != prev.hovered[b]);
                    } else if a < prev.hovered.len() {
                        assert(prev.hovered.contains(cur.hovered[a]));
                    } else if b < prev.hovered.len() {
                        assert(prev.hovered.contains(cur.hovered[b]));
                    }
                }
            }
        } else {
            assert(cur.hovered == prev.hovered);
            assert forall|x: Id| #[trigger] tk.contains(x) <==> (tp.contains(x) || x == id) by {
                if tk.contains(x) {
                    let j = choose|j: int| 0 <= j < tk.len() && tk[j] == x;
                    if j < k - 1 {
                        assert(tp[j] == x);
                    }
                }
                if tp.contains(x) {
                    let j = choose|j: int| 0 <= j < tp.len() && tp[j] == x;
                    assert(tk[j] == x);
                }
                if x == id {
                    assert(tk[k - 1] == x);
                }
            }
        }
    } else {
        assert(hit.take(0) =~= Seq::<Id>::empty());
    }
}

proof fn lemma_retain_in(s: Seq<Id>, keep: Seq<Id>)
    ensures
        forall|x: Id| #[trigger] retain_in(s, keep).contains(x) <==> (s.contains(x) && keep.contains(x)),
        s.no_duplicates() ==> retain_in(s, keep).no_duplicates(),
    decreases s.len(),
{
    if s.len() > 0 {
        let init = s.drop_last();
        let last = s.last();
        lemma_retain_in(init, keep);
        let rest = retain_in(init, keep);
        let r = retain_in(s, keep);
        assert(s =~= init.push(last));
        assert forall|x: Id| #[trigger] s.contains(x) <==> (init.contains(x) || x == last) by {
            if s.contains(x) {
                let j = choose|j: int| 0 <= j < s.len() && s[j] == x;
                if j < init.len() {
                    assert(init[j] == x);
                }
            }
            if init.contains(x) {
                let j = choose|j: int| 0 <= j < init.len() && init[j] == x;
                assert(s[j] == x);
            }
        }
        if keep.contains(last) {
            assert(r =~= rest.push(last));
            assert forall|x: Id| #[trigger] r.contains(x) <==> (rest.contains(x) || x == last) by {
                if r.contains(x) {
                    let j = choose|j: int| 0 <= j < r.len() && r[j] == x;
                    if j < rest.len() {
                        assert(rest[j] == x);
                    }
                }
                if rest.contains(x) {
                    let j = choose|j: int| 0 <= j < rest.len() && rest[j] == x;
                    assert(r[j] == x);
                }
                if x == last {
                    assert(r[rest.len() as int] == x);
                }
            }
            if s.no_duplicates() {
                assert(init.no_duplicates()) by {
                    assert forall|a: int, b: int| 0 <= a < init.len() && 0 <= b < init.len() && a != b implies init[a] != init[b] by {
                        assert(s[a] != s[b]);
                    }
                }
                assert(!init.contains(last)) by {
                    if init.contains(last) {
                        let j = choose|j: int| 0 <= j < init.len() && init[j] == last;
                        assert(s[j] == s[s.len() - 1]);
                    }
                }
                assert forall|a: int, b: int| 0 <= a < r.len() && 0 <= b < r.len() && a != b implies r[a] != r[b] by {
                    if a < rest.len() && b < rest.len() {
                        assert(rest[a] != rest[b]);
                    } else if a < rest.len() {
                        assert(rest.contains(r[a]));
                    } else if b < rest.len() {
                        assert(rest.contains(r[b]));
                    }
                }
            }
        } else {
            if s.no_duplicates() {
                assert forall|a: int, b: int| 0 <= a < init.len() && 0 <= b < init.len() && a != b implies init[a] != init[b] by {
                    assert(s[a] != s[b]);
                }
            }
        }
    }
}

/// After hover resolution the hovered nodes are exactly the hit nodes under
/// the pointer: a node stops being hovered when it is no longer hit and
/// starts when it is. No node is hovered twice.
pub proof fn lemma_hovered_are_hit(st: HoverState, ids: Map<Id, NodeI>, frame: u64, hit: Seq<Id>)
    ensures
        forall|x: Id| #[trigger] resolve_hover_spec(st, ids, frame, hit).hovered.contains(x) <==> hit.contains(x),
        st.hovered.no_duplicates() ==> resolve_hover_spec(st, ids, frame, hit).hovered.no_duplicates(),
{
    let ended = end_hover_phase(st, ids, frame, st.hovered, hit, st.hovered.len() as int);
    lemma_end_phase_keeps_hovered(st, ids, frame, st.hovered, hit, st.hovered.len() as int);
    let started = start_hover_phase(ended, ids, hit, hit.len() as int);
    lemma_start_phase_hovered(ended, ids, hit, hit.len() as int);
    assert(hit.take(hit.len() as int) =~= hit);
    lemma_retain_in(started.hovered, hit);
}

impl<S: Copy, D: Copy> Ui<S, D> {
    /// The part of the state that hover resolution changes.
    pub open spec fn hover_state(&self) -> HoverState {
        HoverState {
            m: self.nodes.map(),
            hovered: self.hovered@,
            changes: self.hover_changes@,
            new_ui_input: self.new_ui_input,
            rebuild: self.changes.should_rebuild_render_data,
        }
    }

    /// The pointer left the node with this id.
    fn end_hovering(&mut self, id: Id)
        requires
            old(self).wf(),
        ensures
            final(self).wf(),
            final(self).hover_state() == end_hover_step(old(self).hover_state(), old(self).nodes.ids(), old(self).current_frame, id),
            final(self).nodes.ids() == old(self).nodes.ids(),
            final(self).current_frame == old(self).current_frame,
    {
        if let Some(i) = self.nodes.get_by_id(id) {
            let node = self.nodes.get(i);
            let animate = node.last_frame_touched == self.current_frame && node.params.interact.click_animation;
            if animate {
                self.nodes.set_hovered(i, false);
                self.changes.should_rebuild_render_data = true;
            }
            self.hover_changes.push(HoverChange { id, entered: false, animate });
            if node.params.interact.senses.contains(crate::sense::Sense::hover_enter_or_exit()) {
                self.new_ui_input = true;
            }
        }
    }

    /// The pointer is over the node with this id and was not before.
    fn start_hovering(&mut self, id: Id)
        requires
            old(self).wf(),
            !old(self).hovered@.contains(id),
        ensures
            final(self).wf(),
            final(self).hover_state() == start_hover_step(old(self).hover_state(), old(self).nodes.ids(), id),
            final(self).nodes.ids() == old(self).nodes.ids(),
            final(self).current_frame == old(self).current_frame,
    {
        self.hovered.push(id);
        if let Some(i) = self.nodes.get_by_id(id) {
            let node = self.nodes.get(i);
            let mask = crate::sense::Sense::hover().union(crate::sense::Sense::hover_enter_or_exit());
            proof {
                assert(4u16 | 256u16 == 260u16) by (bit_vector);
            }
            let has_hover = node.params.interact.senses.intersects(mask);
            let animate = node.params.interact.click_animation;
            if animate {
                self.nodes.set_hovered(i, true);
                self.changes.should_rebuild_render_data = true;
            }
            self.hover_changes.push(HoverChange { id, entered: true, animate });
            if has_hover {
                self.new_ui_input = true;
            }
        }
    }

    /// Whether `id` is in the hovered list.
    fn hovered_contains(&self, id: Id) -> (r: bool)
        ensures
            r == self.hovered@.contains(id),
    {
        let mut i: usize = 0;
        while i < self.hovered.len()
            invariant
                i <= self.hovered@.len(),
                forall|j: int| 0 <= j < i ==> self.hovered@[j] != id,
            decreases self.hovered@.len() - i,
        {
            if self.hovered[i] == id {
                return true;
            }
            i = i + 1;
        }
        false
    }

    /// Updates the hovered nodes from the ids under the pointer (topmost
    /// first): nodes that are no longer hit stop being hovered, newly hit
    /// nodes start being hovered, in that order.
    pub fn resolve_hover(&mut self, hovered_ids: &Vec<Id>)
        requires
            old(self).wf(),
        ensures
            final(self).wf(),
            final(self).hover_state() == resolve_hover_spec(old(self).hover_state(), old(self).nodes.ids(), old(self).current_frame, hovered_ids@),
            final(self).nodes.ids() == old(self).nodes.ids(),
            forall|x: Id| #[trigger] final(self).hovered@.contains(x) <==> hovered_ids@.contains(x),
            old(self).hovered@.no_duplicates() ==> final(self).hovered@.no_duplicates(),
    {
        let ghost st0 = self.hover_state();
        let ghost ids = self.nodes.ids();
        let ghost frame = self.current_frame;
        let ghost previous = self.hovered@;
        let n = self.hovered.len();
        let mut k: usize = 0;
        while k < n
            invariant
                self.wf(),
                n == previous.len(),
                k <= n,
                self.nodes.ids() == ids,
                self.current_frame == frame,
                self.hovered@ == previous,
                self.hover_state() == end_hover_phase(st0, ids, frame, previous, hovered_ids@, k as int),
            decreases n - k,
        {
            let old_id = self.hovered[k];
            let mut found = false;
            let mut j: usize = 0;
            while j < hovered_ids.len()
                invariant
                    j <= hovered_ids@.len(),
                    !found ==> forall|q: int| 0 <= q < j ==> hovered_ids@[q] != old_id,
                    found ==> hovered_ids@.contains(old_id),
                decreases hovered_ids@.len() - j,
            {
                if hovered_ids[j] == old_id {
                    found = true;
                }
                j = j + 1;
            }
            if !found {
                self.end_hovering(old_id);
            }
            k = k + 1;
        }
        let ghost st1 = self.hover_state();
        let m = hovered_ids.len();
        let mut k: usize = 0;
        while k < m
            invariant
                self.wf(),
                m == hovered_ids@.len(),
                k <= m,
                self.nodes.ids() == ids,
                self.current_frame == frame,
                self.hover_state() == start_hover_phase(st1, ids, hovered_ids@, k as int),
            decreases m - k,
        {
            let id = hovered_ids[k];
            if !self.hovered_contains(id) {
                self.start_hovering(id);
            } else {
                if let Some(i) = self.nodes.get_by_id(id) {
                    if self.nodes.get(i).params.interact.senses.contains(crate::sense::Sense::hover()) {
                        self.new_ui_input = true;
                    }
                }
            }
            k = k + 1;
        }
        let ghost all = self.hovered@;
        let mut kept: Vec<Id> = Vec::new();
        let h = self.hovered.len();
        let mut k: usize = 0;
        while k < h
            invariant
                h == all.len(),
                self.hovered@ == all,
                k <= h,
                kept@ == retain_in(all.take(k as int), hovered_ids@),
            decreases h - k,
        {
            proof {
                assert(all.take(k as int + 1).drop_last() =~= all.take(k as int));
            }
            let id = self.hovered[k];
            let mut found = false;
            let mut j: usize = 0;
            while j < hovered_ids.len()
                invariant
                    j <= hovered_ids@.len(),
                    !found ==> forall|q: int| 0 <= q < j ==> hovered_ids@[q] != id,
                    found ==> hovered_ids@.contains(id),
                decreases hovered_ids@.len() - j,
            {
                if hovered_ids[j] == id {
                    found = true;
                }
                j = j + 1;
            }
            if found {
                kept.push(id);
            }
            k = k + 1;
        }
        proof {
            assert(all.take(h as int) =~= all);
        }
        self.hovered = kept;
        proof {
            lemma_hovered_are_hit(st0, ids, frame, hovered_ids@);
            assert(self.hovered@ == resolve_hover_spec(st0, ids, frame, hovered_ids@).hovered);
        }
    }

    /// Whether the node corresponding to `key` is hovered.
    pub fn is_hovered(&self, key: NodeKey) -> (r: bool)
        ensures
            self.key_scopes.stack@.len() == 0 ==> r == self.hovered@.contains(key.id),
            r == self.hovered@.contains(self.scoped_id(key)),
    {
        let id = self.key_scopes.id_with_key_scope(key.id);
        self.hovered_contains(id)
    }
}


/// Whether the list holds `(id, action)`.
pub open spec fn has_action(actions: Seq<(Id, AccessKitAction)>, id: Id, action: AccessKitAction) -> bool {
    exists|k: int| 0 <= k < actions.len() && #[trigger] actions[k] == (id, action)
}

/// Whether the list holds `(id, action)`.
fn find_action(actions: &Vec<(Id, AccessKitAction)>, id: Id, action: AccessKitAction) -> (r: bool)
    ensures
        r == has_action(actions@, id, action),
{
    let mut k: usize = 0;
    while k < actions.len()
        invariant
            k <= actions@.len(),
            forall|j: int| 0 <= j < k ==> actions@[j] != (id, action),
        decreases actions@.len() - k,
    {
        let (qid, a) = actions[k];
        if qid == id && a == action {
            proof {
                assert(actions@[k as int] == (id, action));
            }
            return true;
        }
        k = k + 1;
    }
    false
}

impl<S: Copy, D: Copy> Ui<S, D> {
    /// Whether the node corresponding to `key` was pressed with the left
    /// button this frame ("act on press").
    pub fn is_clicked(&self, key: NodeKey) -> (r: bool)
        ensures
            r == exists|k: int| 0 <= k < self.mouse_input.events_view().len()
                && crate::mouse_events::is_press_on(#[trigger] self.mouse_input.events_view()[k], self.scoped_id(key), MouseButton::Left),
    {
        self.mouse_input.check_pressed(self.key_scopes.id_with_key_scope(key.id), MouseButton::Left)
    }

    /// Whether the node corresponding to `key` was pressed with the right button this frame.
    pub fn is_right_clicked(&self, key: NodeKey) -> (r: bool)
        ensures
            r == exists|k: int| 0 <= k < self.mouse_input.events_view().len()
                && crate::mouse_events::is_press_on(#[trigger] self.mouse_input.events_view()[k], self.scoped_id(key), MouseButton::Right),
    {
        self.mouse_input.check_pressed(self.key_scopes.id_with_key_scope(key.id), MouseButton::Right)
    }

    /// Whether the node corresponding to `key` was pressed with `button` this frame.
    pub fn is_mouse_button_clicked(&self, key: NodeKey, button: MouseButton) -> (r: bool)
        ensures
            r == exists|k: int| 0 <= k < self.mouse_input.events_view().len()
                && crate::mouse_events::is_press_on(#[trigger] self.mouse_input.events_view()[k], self.scoped_id(key), button),
    {
        self.mouse_input.check_pressed(self.key_scopes.id_with_key_scope(key.id), button)
    }

    /// Whether a left-button click was released on the node corresponding to `key` this frame.
    pub fn is_click_released(&self, key: NodeKey) -> (r: bool)
        ensures
            r == exists|k: int| 0 <= k < self.mouse_input.events_view().len()
                && crate::mouse_events::is_click_release_on(#[trigger] self.mouse_input.events_view()[k], self.scoped_id(key), MouseButton::Left),
    {
        self.mouse_input.check_click_released(self.key_scopes.id_with_key_scope(key.id), MouseButton::Left)
    }

    /// Whether a left-button drag of the node corresponding to `key` ended this
    /// frame (wherever the pointer is).
    pub fn is_drag_released(&self, key: NodeKey) -> (r: bool)
        ensures
            r == exists|k: int| 0 <= k < self.mouse_input.events_view().len()
                && crate::mouse_events::is_drag_release_on(#[trigger] self.mouse_input.events_view()[k], self.scoped_id(key), MouseButton::Left),
    {
        self.mouse_input.check_drag_released(self.key_scopes.id_with_key_scope(key.id), MouseButton::Left)
    }

    /// The first left-button drag of the node corresponding to `key` this
    /// frame, as its start, previous and current pointer samples.
    pub fn is_dragged(&self, key: NodeKey) -> (r: Option<(S, S, S)>)
        ensures
            r == crate::mouse_events::first_drag(self.mouse_input.events_view(), self.scoped_id(key), MouseButton::Left),
    {
        self.mouse_input.check_dragged(self.key_scopes.id_with_key_scope(key.id), MouseButton::Left)
    }

    /// If the node corresponding to `key` is held with the left button, the
    /// pointer sample at which the hold started.
    pub fn is_held(&self, key: NodeKey) -> (r: Option<S>)
        ensures
            match crate::mouse_events::first_drag(self.mouse_input.events_view(), self.scoped_id(key), MouseButton::Left) {
                Some(x) => r == Some(x.0),
                None => r is None,
            },
    {
        match self.mouse_input.check_dragged(self.key_scopes.id_with_key_scope(key.id), MouseButton::Left) {
            Some((start, _, _)) => Some(start),
            None => None,
        }
    }

    /// The scroll amounts on the node corresponding to `key` this frame, in order.
    pub fn is_scrolled(&self, key: NodeKey) -> (r: Vec<D>)
        ensures
            r@ == crate::mouse_events::scroll_deltas_of(self.mouse_input.events_view(), self.scoped_id(key)),
    {
        self.mouse_input.scroll_deltas(self.key_scopes.id_with_key_scope(key.id))
    }

    /// Whether a screen reader requested `action` on the node corresponding to
    /// `key` this frame.
    pub fn accesskit_action(&self, key: NodeKey, action: AccessKitAction) -> (r: bool)
        ensures
            r == has_action(self.accesskit_actions@, self.scoped_id(key), action),
    {
        let id = self.key_scopes.id_with_key_scope(key.id);
        proof {
            if self.key_scopes.stack@.len() > 0 {
                assert(self.scoped_id(key) == id);
            }
        }
        find_action(&self.accesskit_actions, id, action)
    }

    /// The frame-end readings of the observer clock are in order, and the
    /// clock has moved past the last one.
    pub open spec fn clock_ahead(&self) -> bool {
        self.third_last_frame_end_fake_time <= self.second_last_frame_end_fake_time
            <= self.last_frame_end_fake_time < self.clock.time
    }

    /// Ends a frame: the frame-end readings of the observer clock move back by
    /// one frame, and the clock's current timestamp becomes the last one.
    pub fn end_frame_timestamps(&mut self)
        ensures
            final(self).third_last_frame_end_fake_time == old(self).second_last_frame_end_fake_time,
            final(self).second_last_frame_end_fake_time == old(self).last_frame_end_fake_time,
            final(self).last_frame_end_fake_time == old(self).clock.time,
            final(self).clock.time == (if old(self).clock.time == u64::MAX { 0 } else { (old(self).clock.time + 1) as u64 }),
            *final(self) == (Ui {
                third_last_frame_end_fake_time: final(self).third_last_frame_end_fake_time,
                second_last_frame_end_fake_time: final(self).second_last_frame_end_fake_time,
                last_frame_end_fake_time: final(self).last_frame_end_fake_time,
                clock: final(self).clock,
                ..*old(self)
            }),
            old(self).clock_ahead() && old(self).clock.time < u64::MAX ==> final(self).clock_ahead(),
    {
        let now = self.clock.observer_timestamp();
        self.third_last_frame_end_fake_time = self.second_last_frame_end_fake_time;
        self.second_last_frame_end_fake_time = self.last_frame_end_fake_time;
        self.last_frame_end_fake_time = now;
    }

    /// Node `i` starts leaving the tree (see [`exit_spec`](crate::nodes::exit_spec)):
    /// with an exit animation, its whole subtree takes part in it.
    pub fn init_exit_animations(&mut self, i: NodeI)
        requires
            old(self).wf(),
            old(self).nodes.contains(i),
        ensures
            final(self).wf(),
            final(self).nodes.ids() == old(self).nodes.ids(),
            final(self).nodes.map() == crate::nodes::exit_spec(old(self).nodes.map(), i.index(), old(self).nodes.map().dom().len()),
            *final(self) == (Ui { nodes: final(self).nodes, ..*old(self) }),
    {
        self.nodes.init_exit_animations(i);
    }

    /// Whether the observed value changed after the end of the third-to-last frame.
    pub fn check_changes<T>(&self, observer: &Observer<T>) -> (r: bool)
        ensures
            r == crate::observer::changed_since(observer.changed_at, self.third_last_frame_end_fake_time),
    {
        observer.changed_at > self.third_last_frame_end_fake_time
    }

    /// Where a scroll goes: from the topmost opaque node under the pointer
    /// (the first of `hovered_ids`), the target of each moving axis (see
    /// [`Nodes::scroll_routes`]). Nothing if no known node is under the pointer.
    pub fn scroll_routes(&self, hovered_ids: &Vec<Id>, moves: crate::math::Xy<bool>) -> (r: Vec<(NodeI, bool, crate::math::Xy<bool>)>)
        requires
            self.wf(),
        ensures
            hovered_ids@.len() == 0 ==> r@.len() == 0,
            hovered_ids@.len() > 0 && !self.nodes.ids().dom().contains(hovered_ids@[0]) ==> r@.len() == 0,
            hovered_ids@.len() > 0 && self.nodes.ids().dom().contains(hovered_ids@[0]) ==>
                r@.map_values(|e: (NodeI, bool, crate::math::Xy<bool>)| crate::navigation::route_view(e))
                    == crate::navigation::scroll_routes_spec(self.nodes.map(), self.nodes.ids()[hovered_ids@[0]].index(), moves),
    {
        if hovered_ids.len() == 0 {
            return Vec::new();
        }
        match self.nodes.get_by_id(hovered_ids[0]) {
            Some(i) => self.nodes.scroll_routes(i, moves),
            None => Vec::new(),
        }
    }

    /// Hands a scroll to its routes (see [`Ui::scroll_routes`]), route `k`
    /// taking `deltas[k]`: a node that senses scrolling gets a scroll event and
    /// makes new input; the scrolling containers are returned with their part,
    /// for the renderer to move their content, and then the render data must
    /// be rebuilt and the window redrawn.
    pub fn apply_scroll_routes(&mut self, routes: &Vec<(NodeI, bool, crate::math::Xy<bool>)>, deltas: &Vec<D>) -> (r: Vec<(NodeI, D)>)
        requires
            old(self).wf(),
            deltas@.len() == routes@.len(),
            forall|k: int| 0 <= k < routes@.len() ==> old(self).nodes.contains(#[trigger] routes@[k].0),
        ensures
            final(self).wf(),
            final(self).mouse_input.events_view() == old(self).mouse_input.events_view()
                + route_scroll_events(old(self).nodes.map(), routes@, deltas@, old(self).mouse_input.cursor()),
            final(self).mouse_input.pending_view() == old(self).mouse_input.pending_view(),
            final(self).mouse_input.cursor() == old(self).mouse_input.cursor(),
            final(self).mouse_input.prev_cursor() == old(self).mouse_input.prev_cursor(),
            r@ == route_containers(routes@, deltas@),
            final(self).new_ui_input == (old(self).new_ui_input
                || route_scroll_events(old(self).nodes.map(), routes@, deltas@, old(self).mouse_input.cursor()).len() > 0),
            final(self).changes == (Changes {
                should_rebuild_render_data: old(self).changes.should_rebuild_render_data || r@.len() > 0,
                need_rerender: old(self).changes.need_rerender || r@.len() > 0,
                ..old(self).changes
            }),
            *final(self) == (Ui {
                mouse_input: final(self).mouse_input,
                new_ui_input: final(self).new_ui_input,
                changes: final(self).changes,
                ..*old(self)
            }),
    {
        let ghost m = self.nodes.map();
        let ghost at = self.mouse_input.cursor();
        let ghost e0 = self.mouse_input.events_view();
        let mut containers: Vec<(NodeI, D)> = Vec::new();
        let mut k: usize = 0;
        while k < routes.len()
            invariant
                self.wf(),
                self.nodes == old(self).nodes,
                m == old(self).nodes.map(),
                at == old(self).mouse_input.cursor(),
                e0 == old(self).mouse_input.events_view(),
                deltas@.len() == routes@.len(),
                forall|j: int| 0 <= j < routes@.len() ==> old(self).nodes.contains(#[trigger] routes@[j].0),
                k <= routes@.len(),
                self.mouse_input.events_view() == e0 + route_scroll_events(m, routes@.take(k as int), deltas@.take(k as int), at),
                self.mouse_input.pending_view() == old(self).mouse_input.pending_view(),
                self.mouse_input.cursor() == at,
                self.mouse_input.prev_cursor() == old(self).mouse_input.prev_cursor(),
                containers@ == route_containers(routes@.take(k as int), deltas@.take(k as int)),
                self.new_ui_input == (old(self).new_ui_input
                    || route_scroll_events(m, routes@.take(k as int), deltas@.take(k as int), at).len() > 0),
                *self == (Ui { mouse_input: self.mouse_input, new_ui_input: self.new_ui_input, ..*old(self) }),
            decreases routes@.len() - k,
        {
            let (i, senses_scroll, _axes) = routes[k];
            let d = deltas[k];
            proof {
                let r1 = routes@.take(k + 1);
                let d1 = deltas@.take(k + 1);
                assert(r1.drop_last() =~= routes@.take(k as int));
                assert(d1.take(k as int) =~= deltas@.take(k as int));
                assert(r1[k as int] == routes@[k as int]);
                assert(d1[k as int] == deltas@[k as int]);
            }
            if senses_scroll {
                let id = self.nodes.get(i).id;
                let ghost before = self.mouse_input.events_view();
                self.mouse_input.push_scroll(d, id);
                self.new_ui_input = true;
                proof {
                    assert(self.mouse_input.events_view() =~= e0 + route_scroll_events(m, routes@.take(k + 1), deltas@.take(k + 1), at));
                }
            } else {
                containers.push((i, d));
            }
            k = k + 1;
        }
        proof {
            assert(routes@.take(routes@.len() as int) =~= routes@);
            assert(deltas@.take(deltas@.len() as int) =~= deltas@);
        }
        if containers.len() > 0 {
            self.changes.should_rebuild_render_data = true;
            self.changes.need_rerender = true;
        }
        containers
    }

    /// The drag of `src_id` with `button` that ended this frame over
    /// `dest_id`, if `dest_id` is a drop target under the pointer.
    pub fn check_drag_released_onto(&self, src_id: Id, dest_id: Id, button: MouseButton, rects: &Vec<crate::hits::ClickRect>, hits: &Vec<bool>) -> (r: bool)
        requires
            hits@.len() == rects@.len(),
        ensures
            r == (crate::hits::scan_hits_below(rects@, hits@, crate::hits::HitFilter::Senses(crate::sense::Sense { bits: 64 }), rects@.len() as int).contains(dest_id)
                && exists|k: int| 0 <= k < self.mouse_input.events_view().len()
                    && crate::mouse_events::is_drag_release_on(#[trigger] self.mouse_input.events_view()[k], src_id, button)),
    {
        if !crate::hits::drop_target_hit(rects, hits, dest_id) {
            return false;
        }
        self.mouse_input.check_drag_released(src_id, button)
    }

    /// The ongoing drag of `src_id` with `button` while `dest_id` is a drop
    /// target under the pointer.
    pub fn check_drag_hovered_onto(&self, src_id: Id, dest_id: Id, button: MouseButton, rects: &Vec<crate::hits::ClickRect>, hits: &Vec<bool>) -> (r: Option<(S, S, S)>)
        requires
            hits@.len() == rects@.len(),
        ensures
            r == (if crate::hits::scan_hits_below(rects@, hits@, crate::hits::HitFilter::Senses(crate::sense::Sense { bits: 64 }), rects@.len() as int).contains(dest_id) {
                crate::mouse_events::first_drag(self.mouse_input.events_view(), src_id, button)
            } else {
                None
            }),
    {
        if !crate::hits::drop_target_hit(rects, hits, dest_id) {
            return None;
        }
        self.mouse_input.check_dragged(src_id, button)
    }

    /// Any ongoing drag with `button` while `dest_id` is a drop target under
    /// the pointer.
    pub fn check_any_drag_hovered_onto(&self, dest_id: Id, button: MouseButton, rects: &Vec<crate::hits::ClickRect>, hits: &Vec<bool>) -> (r: Option<(S, S, S)>)
        requires
            hits@.len() == rects@.len(),
        ensures
            r == (if crate::hits::scan_hits_below(rects@, hits@, crate::hits::HitFilter::Senses(crate::sense::Sense { bits: 64 }), rects@.len() as int).contains(dest_id) {
                crate::mouse_events::first_drag_with(self.mouse_input.events_view(), button)
            } else {
                None
            }),
    {
        if !crate::hits::drop_target_hit(rects, hits, dest_id) {
            return None;
        }
        self.mouse_input.check_any_dragged(button)
    }

    /// Whether any drag with `button` ended this frame over `dest_id`, a drop
    /// target under the pointer.
    pub fn check_any_drag_released_onto(&self, dest_id: Id, button: MouseButton, rects: &Vec<crate::hits::ClickRect>, hits: &Vec<bool>) -> (r: bool)
        requires
            hits@.len() == rects@.len(),
        ensures
            r == (crate::hits::scan_hits_below(rects@, hits@, crate::hits::HitFilter::Senses(crate::sense::Sense { bits: 64 }), rects@.len() as int).contains(dest_id)
                && exists|k: int| 0 <= k < self.mouse_input.events_view().len()
                    && crate::mouse_events::is_drag_release_with(#[trigger] self.mouse_input.events_view()[k], button)),
    {
        if !crate::hits::drop_target_hit(rects, hits, dest_id) {
            return false;
        }
        self.mouse_input.check_any_drag_released(button)
    }

    /// The actions the accessibility tree advertises for node `i` (see
    /// [`accessible_actions_spec`]), given the actions the node declares.
    pub fn accessible_actions(&self, i: NodeI, declared: &Vec<AccessKitAction>) -> (r: Vec<AccessKitAction>)
        requires
            self.wf(),
            self.nodes.contains(i),
        ensures
            r@ == accessible_actions_spec(self.nodes.map(), i.index(), declared@),
    {
        let node = self.nodes.get(i);
        let mut out: Vec<AccessKitAction> = Vec::new();
        if node.params.interact.focusable {
            out.push(AccessKitAction::Focus);
        }
        if node.params.interact.senses.contains(crate::sense::Sense::click()) {
            out.push(AccessKitAction::Click);
        }
        if i.as_usize() != 1 {
            out.push(AccessKitAction::ScrollIntoView);
        }
        if node.params.scrollable.y {
            out.push(AccessKitAction::ScrollUp);
            out.push(AccessKitAction::ScrollDown);
        }
        if node.params.scrollable.x {
            out.push(AccessKitAction::ScrollLeft);
            out.push(AccessKitAction::ScrollRight);
        }
        let ghost fixed = out@;
        let mut k: usize = 0;
        while k < declared.len()
            invariant
                k <= declared@.len(),
                out@ == fixed + declared@.take(k as int),
            decreases declared@.len() - k,
        {
            out.push(declared[k]);
            proof {
                assert(declared@.take(k as int + 1) =~= declared@.take(k as int).push(declared@[k as int]));
            }
            k = k + 1;
        }
        proof {
            assert(declared@.take(declared@.len() as int) =~= declared@);
            let n = self.nodes.map()[i.index()];
            let opt = |c: bool, a: AccessKitAction| if c { seq![a] } else { Seq::<AccessKitAction>::empty() };
            assert(fixed =~= opt(n.params.interact.focusable, AccessKitAction::Focus)
                + opt(n.params.interact.senses.spec_contains(crate::sense::Sense { bits: 1 }), AccessKitAction::Click)
                + opt(i.index() != 1, AccessKitAction::ScrollIntoView)
                + (if n.params.scrollable.y { seq![AccessKitAction::ScrollUp, AccessKitAction::ScrollDown] } else { Seq::empty() })
                + (if n.params.scrollable.x { seq![AccessKitAction::ScrollLeft, AccessKitAction::ScrollRight] } else { Seq::empty() }));
        }
        out
    }

    /// A key scope named by `key`, to re-enter the same private keys from elsewhere.
    pub fn named_key_scope(&mut self, key: NodeKey) -> (r: UiKeyScope)
        ensures
            r.key == key,
            *final(self) == *old(self),
    {
        UiKeyScope { key }
    }

    /// Starts a new input frame: ongoing drags report their movement.
    pub fn begin_frame_resolve_inputs(&mut self)
        ensures
            final(self).mouse_input.events_view() == old(self).mouse_input.events_view()
                + crate::mouse_events::frame_drag_events::<S, D>(old(self).mouse_input.pending_view(), old(self).mouse_input.cursor()),
            final(self).mouse_input.pending_view() == old(self).mouse_input.pending_view().map_values(
                |p: crate::mouse_events::PendingView<S>| crate::mouse_events::advance_drags(p, old(self).mouse_input.cursor())),
            final(self).mouse_input.cursor() == old(self).mouse_input.cursor(),
            final(self).nodes == old(self).nodes,
            final(self).focused == old(self).focused,
            *final(self) == (Ui { mouse_input: final(self).mouse_input, ..*old(self) }),
    {
        self.mouse_input.begin_new_frame();
    }

    /// `after` differs from `before` at most in the new-input flag, the click
    /// animations and the render-data flag.
    pub open spec fn same_except_clicks(after: Self, before: Self) -> bool {
        after == Ui {
            new_ui_input: after.new_ui_input,
            click_animations: after.click_animations,
            changes: Changes { should_rebuild_render_data: after.changes.should_rebuild_render_data, ..before.changes },
            ..before
        }
    }

    /// The keyboard focus of `after` is the one a press on the topmost hit node
    /// `hit` gives from `before`: pressing on empty space clears the focus, a
    /// press on an unknown node changes nothing, and a press on a node moves the
    /// focus to it, keeping the indicator only if the node is focusable.
    pub open spec fn focus_after_press(before: Self, after: Self, hit: Option<Id>) -> bool {
        let m = before.nodes.map();
        let ids = before.nodes.ids();
        match hit {
            None => {
                &&& after.focused is None
                &&& after.text_focus == TextFocusCommand::Clear
                &&& after.show_focus_indicator == before.show_focus_indicator
                &&& after.changes == (Changes { focus_changed: true,
                        should_rebuild_render_data: after.changes.should_rebuild_render_data, ..before.changes })
            },
            Some(h) => if !ids.dom().contains(h) {
                &&& after.focused == before.focused
                &&& after.text_focus == before.text_focus
                &&& after.show_focus_indicator == before.show_focus_indicator
                &&& after.changes == (Changes {
                        should_rebuild_render_data: after.changes.should_rebuild_render_data, ..before.changes })
            } else {
                let i = ids[h].index();
                &&& after.focused == Some(m[i].id)
                &&& after.text_focus == text_focus_after(before.text_focus, m[i].text_i)
                &&& after.show_focus_indicator == (m[i].params.interact.focusable && before.show_focus_indicator)
                &&& after.changes == (Changes { focus_changed: true,
                        should_rebuild_render_data: after.changes.should_rebuild_render_data, ..before.changes })
            },
        }
    }

    /// A mouse button was pressed: the press is recorded on the hit targets,
    /// the focus moves to the topmost hit node, and the click targets react:
    /// each known one that senses clicks is new input, and on a left press each
    /// known one with the click animation gets it. Returns whether a click
    /// target absorbs mouse events.
    #[verifier::rlimit(40)]
    pub fn handle_mouse_press(&mut self, button: MouseButton, hits: crate::hits::PressHits) -> (r: bool)
        requires
            old(self).wf(),
        ensures
            final(self).wf(),
            final(self).nodes == old(self).nodes,
            r == exists|k: int| 0 <= k < crate::targets::targets_seq(hits.click_ids).len() && {
                let id = #[trigger] crate::targets::targets_seq(hits.click_ids)[k];
                old(self).nodes.ids().dom().contains(id)
                && old(self).nodes.map()[old(self).nodes.ids()[id].index()].params.interact.absorbs_mouse_events
            },
            final(self).mouse_input.events_view() == (if crate::targets::targets_seq(hits.click_ids).len() > 0 {
                old(self).mouse_input.events_view().push(crate::mouse_events::EventView::Click {
                    targets: crate::targets::targets_seq(hits.click_ids), button, press: old(self).mouse_input.cursor() })
            } else {
                old(self).mouse_input.events_view()
            }),
            final(self).mouse_input.pending_view() == {
                let with_click = if crate::targets::targets_seq(hits.click_ids).len() > 0 {
                    old(self).mouse_input.pending_view().push(crate::mouse_events::PendingView::Click {
                        button, press: old(self).mouse_input.cursor(), targets: crate::targets::targets_seq(hits.click_ids) })
                } else {
                    old(self).mouse_input.pending_view()
                };
                if crate::targets::targets_seq(hits.drag_ids).len() > 0 {
                    with_click.push(crate::mouse_events::PendingView::Drag {
                        button, start: old(self).mouse_input.cursor(), last: old(self).mouse_input.cursor(),
                        targets: crate::targets::targets_seq(hits.drag_ids) })
                } else {
                    with_click
                }
            },
            final(self).mouse_input.cursor() == old(self).mouse_input.cursor(),
            final(self).mouse_input.prev_cursor() == old(self).mouse_input.prev_cursor(),
            ({
                let o = *old(self);
                let f = *final(self);
                let clicks = crate::targets::targets_seq(hits.click_ids);
                let anims = press_animations(o.nodes.map(), o.nodes.ids(), button, clicks);
                &&& Self::focus_after_press(o, f, hits.topmost)
                &&& f.changes.should_rebuild_render_data == (o.changes.should_rebuild_render_data
                        || (hits.topmost matches Some(h) && o.nodes.ids().dom().contains(h))
                        || anims.len() > 0)
                &&& f.scroll_into_view == o.scroll_into_view
                &&& f.click_animations@ == o.click_animations@ + anims
                &&& f.new_ui_input == (o.new_ui_input
                        || (hits.topmost matches Some(h) && o.nodes.ids().dom().contains(h) && f.focused != o.focused)
                        || click_senses_any(o.nodes.map(), o.nodes.ids(), clicks))
                &&& f.hovered == o.hovered
                &&& f.key_scopes == o.key_scopes
                &&& f.accesskit_actions == o.accesskit_actions
                &&& f.last_frame_end_fake_time == o.last_frame_end_fake_time
                &&& f.second_last_frame_end_fake_time == o.second_last_frame_end_fake_time
                &&& f.third_last_frame_end_fake_time == o.third_last_frame_end_fake_time
                &&& f.current_frame == o.current_frame
                &&& f.hover_changes == o.hover_changes
                &&& f.synthetic_scrolls == o.synthetic_scrolls
                &&& f.clock == o.clock
            }),
    {
        let crate::hits::PressHits { click_ids, drag_ids, topmost } = hits;
        let click_list = click_ids.to_vec();
        self.mouse_input.push_press(button, click_ids, drag_ids);
        self.resolve_focus_on_press(topmost);
        self.resolve_click_presses(button, &click_list)
    }

    /// The reactions of the click targets `clicks` to a press, in order.
    /// Returns whether one of them absorbs mouse events.
    #[verifier::rlimit(40)]
    fn resolve_click_presses(&mut self, button: MouseButton, clicks: &Vec<Id>) -> (r: bool)
        requires
            old(self).wf(),
        ensures
            final(self).wf(),
            final(self).nodes == old(self).nodes,
            r == exists|k: int| 0 <= k < clicks@.len() && {
                let id = #[trigger] clicks@[k];
                old(self).nodes.ids().dom().contains(id)
                && old(self).nodes.map()[old(self).nodes.ids()[id].index()].params.interact.absorbs_mouse_events
            },
            Self::same_except_clicks(*final(self), *old(self)),
            final(self).click_animations@ == old(self).click_animations@
                + press_animations(old(self).nodes.map(), old(self).nodes.ids(), button, clicks@),
            final(self).new_ui_input == (old(self).new_ui_input
                || click_senses_any(old(self).nodes.map(), old(self).nodes.ids(), clicks@)),
            final(self).changes.should_rebuild_render_data == (old(self).changes.should_rebuild_render_data
                || press_animations(old(self).nodes.map(), old(self).nodes.ids(), button, clicks@).len() > 0),
    {
        let ghost s2 = *self;
        let ghost ids = self.nodes.ids();
        let ghost m = self.nodes.map();
        let mut any_consumed = false;
        let mut k: usize = 0;
        while k < clicks.len()
            invariant
                self.wf(),
                self.nodes.ids() == ids,
                self.nodes.map() == m,
                ids == old(self).nodes.ids(),
                m == old(self).nodes.map(),
                self.nodes == old(self).nodes,
                s2 == *old(self),
                k <= clicks@.len(),
                any_consumed == exists|j: int| 0 <= j < k && {
                    let id = #[trigger] clicks@[j];
                    ids.dom().contains(id) && m[ids[id].index()].params.interact.absorbs_mouse_events
                },
                Self::same_except_clicks(*self, s2),
                self.click_animations@ == s2.click_animations@ + press_animations(m, ids, button, clicks@.take(k as int)),
                self.new_ui_input == (s2.new_ui_input || click_senses_any(m, ids, clicks@.take(k as int))),
                self.changes.should_rebuild_render_data == (s2.changes.should_rebuild_render_data
                    || press_animations(m, ids, button, clicks@.take(k as int)).len() > 0),
            decreases clicks@.len() - k,
        {
            let id = clicks[k];
            proof {
                assert(clicks@.take(k + 1) == clicks@.take(k as int).push(id));
                lemma_press_step(m, ids, button, clicks@.take(k as int), id);
            }
            if let Some(i) = self.nodes.get_by_id(id) {
                let consumed = self.resolve_click_press(button, i);
                any_consumed = any_consumed || consumed;
            }
            proof {
                if !ids.dom().contains(id) {
                    assert(forall|j: int| 0 <= j < k + 1 && j != k ==> #[trigger] clicks@[j] == clicks@[j]);
                }
            }
            k = k + 1;
        }
        proof {
            assert(clicks@.take(clicks@.len() as int) == clicks@);
        }
        any_consumed
    }

    /// The reaction of one click target to a press: new input if it senses
    /// clicks, the click animation for a left press. Returns whether the node
    /// absorbs mouse events.
    fn resolve_click_press(&mut self, button: MouseButton, i: NodeI) -> (r: bool)
        requires
            old(self).wf(),
            old(self).nodes.contains(i),
        ensures
            final(self).wf(),
            final(self).nodes == old(self).nodes,
            r == old(self).nodes.node(i).params.interact.absorbs_mouse_events,
            Self::same_except_clicks(*final(self), *old(self)),
            final(self).new_ui_input == (old(self).new_ui_input
                || old(self).nodes.node(i).params.interact.senses.spec_contains(crate::sense::Sense { bits: 1 })),
            final(self).click_animations@ == old(self).click_animations@
                + press_animation_of(old(self).nodes.node(i), i, button),
            final(self).changes.should_rebuild_render_data == (old(self).changes.should_rebuild_render_data
                || press_animation_of(old(self).nodes.node(i), i, button).len() > 0),
    {
        let node = self.nodes.get(i);
        if node.params.interact.senses.contains(crate::sense::Sense::click()) {
            self.new_ui_input = true;
        }
        if button == MouseButton::Left && node.params.interact.click_animation {
            self.click_animations.push(i);
            self.changes.should_rebuild_render_data = true;
        }
        proof {
            assert(old(self).click_animations@ + press_animation_of(node, i, button) == self.click_animations@);
        }
        node.params.interact.absorbs_mouse_events
    }

    /// A mouse button was released over `click_ids`: the pending presses are
    /// resolved, and nodes that care about releases get new input.
    pub fn handle_mouse_release(&mut self, button: MouseButton, click_ids: crate::targets::Targets)
        requires
            old(self).wf(),
        ensures
            final(self).wf(),
            final(self).nodes == old(self).nodes,
            final(self).mouse_input.events_view() == old(self).mouse_input.events_view()
                + crate::mouse_events::release_events::<S, D>(old(self).mouse_input.pending_view(), button,
                    crate::targets::targets_seq(click_ids), old(self).mouse_input.cursor()),
            final(self).mouse_input.pending_view() == crate::mouse_events::other_buttons(old(self).mouse_input.pending_view(), button),
            final(self).new_ui_input == (old(self).new_ui_input || exists|k: int| 0 <= k < crate::targets::targets_seq(click_ids).len() && {
                let id = #[trigger] crate::targets::targets_seq(click_ids)[k];
                old(self).nodes.ids().dom().contains(id)
                && old(self).nodes.map()[old(self).nodes.ids()[id].index()].params.interact.senses.spec_intersects(crate::sense::Sense { bits: 98 })
            }),
            *final(self) == (Ui { mouse_input: final(self).mouse_input, new_ui_input: final(self).new_ui_input, ..*old(self) }),
    {
        let list = click_ids.to_vec();
        self.mouse_input.push_release(button, click_ids);
        let mask = crate::sense::Sense::click_release().union(crate::sense::Sense::drag()).union(crate::sense::Sense::drag_drop_target());
        proof {
            assert(32u16 | 2u16 == 34u16) by (bit_vector);
            assert(34u16 | 64u16 == 98u16) by (bit_vector);
        }
        let ghost ids = self.nodes.ids();
        let ghost m = self.nodes.map();
        let ghost input0 = self.new_ui_input;
        let ghost mi = self.mouse_input;
        let mut k: usize = 0;
        while k < list.len()
            invariant
                self.wf(),
                self.nodes == old(self).nodes,
                ids == old(self).nodes.ids(),
                m == old(self).nodes.map(),
                input0 == old(self).new_ui_input,
                mask.bits == 98,
                self.mouse_input == mi,
                *self == (Ui { mouse_input: mi, new_ui_input: self.new_ui_input, ..*old(self) }),
                k <= list@.len(),
                self.new_ui_input == (input0 || exists|j: int| 0 <= j < k && {
                    let id = #[trigger] list@[j];
                    ids.dom().contains(id) && m[ids[id].index()].params.interact.senses.spec_intersects(crate::sense::Sense { bits: 98 })
                }),
            decreases list@.len() - k,
        {
            let id = list[k];
            if let Some(i) = self.nodes.get_by_id(id) {
                if self.nodes.get(i).params.interact.senses.intersects(mask) {
                    self.new_ui_input = true;
                }
            }
            k = k + 1;
        }
    }
}

impl UiKeyScope {
    /// Runs `content` inside the key scope: keys used inside resolve to ids
    /// private to this scope. The scope is closed again afterwards.
    ///
    /// `r` is what `content` returned when it ran on the GUI with this
    /// scope's id pushed on the key scopes (the id of this scope's key in the
    /// enclosing scope); afterwards the key scopes are the ones open before
    /// the call, whatever `content` did with them.
    pub fn start<S: Copy, D: Copy, T, F: FnOnce(&mut Ui<S, D>) -> T>(&self, ui: &mut Ui<S, D>, content: F) -> (r: T)
        requires
            forall|u: &mut Ui<S, D>| call_requires(content, (u,)),
        ensures
            exists|u: &mut Ui<S, D>, scope_id: Id| {
                &&& call_ensures(content, (u,), r)
                &&& (old(ui).key_scopes.stack@.len() == 0 ==> scope_id == self.key.id)
                &&& (Some(scope_id.0 as int) == scoped_id_spec(old(ui).key_scopes.stack@, self.key.id))
                &&& mut_ref_current(u).key_scopes.stack@ == old(ui).key_scopes.stack@.push(scope_id)
                &&& *old(ui) == (Ui { key_scopes: old(ui).key_scopes, ..mut_ref_current(u) })
                &&& *final(ui) == (Ui { key_scopes: final(ui).key_scopes, ..mut_ref_future(u) })
            },
            final(ui).key_scopes.stack@ == old(ui).key_scopes.stack@,
    {
        let saved = ui.key_scopes.snapshot();
        let scope_id = ui.key_scopes.id_with_key_scope(self.key.id);
        ui.key_scopes.push(scope_id);
        let ghost mid = *ui;
        let result = content(ui);
        let ghost after = *ui;
        proof {
            assert(exists|u: &mut Ui<S, D>| call_ensures(content, (u,), result) && mut_ref_current(u) == mid && mut_ref_future(u) == after);
        }
        ui.key_scopes = saved;
        proof {
            let u = choose|u: &mut Ui<S, D>| call_ensures(content, (u,), result) && mut_ref_current(u) == mid && mut_ref_future(u) == after;
            assert(mid.key_scopes.stack@ == old(ui).key_scopes.stack@.push(scope_id));
            assert(*old(ui) == (Ui { key_scopes: old(ui).key_scopes, ..mid }));
            assert(*ui == (Ui { key_scopes: ui.key_scopes, ..after }));
        }
        result
    }
}

impl UiParent {
    /// The key that refers to this node: its id, in no key scope.
    pub fn key<S: Copy, D: Copy>(&self, ui: &Ui<S, D>) -> (r: NodeKey)
        requires
            ui.wf(),
            ui.nodes.contains(self.i),
        ensures
            r.id == ui.nodes.node(self.i).id,
    {
        NodeKey::new(ui.nodes.get(self.i).id, "")
    }
}


impl<S: Copy, D: Copy> Ui<S, D> {
    /// Handles an action requested by a screen reader on the node with id
    /// `target`: the request is recorded for [`Ui::accesskit_action`], then
    /// focus and scroll-into-view requests move the focus, blur clears it
    /// when the node holds it, click emits a synthetic click at `click_at`,
    /// and scroll requests queue a synthetic scroll step. Requests for nodes
    /// that do not exist are ignored.
    pub fn handle_accesskit_action(&mut self, target: u64, action: AccessKitAction, click_at: S)
        requires
            old(self).wf(),
        ensures
            final(self).wf(),
            final(self).nodes == old(self).nodes,
            !old(self).nodes.ids().dom().contains(Id(target)) ==> *final(self) == *old(self),
            old(self).nodes.ids().dom().contains(Id(target)) ==> {
                let i = old(self).nodes.ids()[Id(target)];
                let recorded = old(self).accesskit_actions@.push((Id(target), action));
                &&& final(self).accesskit_actions@ == recorded
                &&& final(self).new_ui_input
                &&& (action == AccessKitAction::Focus || action == AccessKitAction::ScrollIntoView) ==> {
                    &&& final(self).focused == Some(Id(target))
                    &&& final(self).show_focus_indicator
                    &&& final(self).scroll_into_view == Some(i)
                }
                &&& action == AccessKitAction::Blur && old(self).focused == Some(Id(target)) ==> {
                    &&& final(self).focused is None
                    &&& !final(self).show_focus_indicator
                    &&& final(self).text_focus == TextFocusCommand::Clear
                }
                &&& action == AccessKitAction::Blur && old(self).focused != Some(Id(target)) ==> {
                    &&& final(self).focused == old(self).focused
                    &&& final(self).show_focus_indicator == old(self).show_focus_indicator
                    &&& final(self).text_focus == old(self).text_focus
                }
                &&& action != AccessKitAction::Focus && action != AccessKitAction::ScrollIntoView ==> final(self).scroll_into_view == old(self).scroll_into_view
                &&& action == AccessKitAction::Click ==> final(self).mouse_input.events_view() == old(self).mouse_input.events_view()
                        .push(crate::mouse_events::EventView::Click { targets: seq![Id(target)], button: MouseButton::Left, press: click_at })
                        .push(crate::mouse_events::EventView::ClickRelease { targets: seq![Id(target)], button: MouseButton::Left, press: click_at, release: click_at })
                &&& action != AccessKitAction::Click ==> final(self).mouse_input == old(self).mouse_input
                &&& action == AccessKitAction::ScrollUp ==> final(self).synthetic_scrolls@ == old(self).synthetic_scrolls@.push((i, ScrollStep::Up))
                &&& action == AccessKitAction::ScrollDown ==> final(self).synthetic_scrolls@ == old(self).synthetic_scrolls@.push((i, ScrollStep::Down))
                &&& action == AccessKitAction::ScrollLeft ==> final(self).synthetic_scrolls@ == old(self).synthetic_scrolls@.push((i, ScrollStep::Left))
                &&& action == AccessKitAction::ScrollRight ==> final(self).synthetic_scrolls@ == old(self).synthetic_scrolls@.push((i, ScrollStep::Right))
                &&& !(action == AccessKitAction::ScrollUp || action == AccessKitAction::ScrollDown
                      || action == AccessKitAction::ScrollLeft || action == AccessKitAction::ScrollRight)
                    ==> final(self).synthetic_scrolls == old(self).synthetic_scrolls
                &&& !(action == AccessKitAction::Focus || action == AccessKitAction::ScrollIntoView || action == AccessKitAction::Blur)
                    ==> final(self).focused == old(self).focused && final(self).show_focus_indicator == old(self).show_focus_indicator
                        && final(self).text_focus == old(self).text_focus && final(self).changes == old(self).changes
                &&& *final(self) == (Ui {
                        accesskit_actions: final(self).accesskit_actions,
                        focused: final(self).focused,
                        show_focus_indicator: final(self).show_focus_indicator,
                        changes: final(self).changes,
                        text_focus: final(self).text_focus,
                        scroll_into_view: final(self).scroll_into_view,
                        mouse_input: final(self).mouse_input,
                        synthetic_scrolls: final(self).synthetic_scrolls,
                        new_ui_input: final(self).new_ui_input,
                        ..*old(self)
                    })
            },
    {
        let id = Id(target);
        let i = match self.nodes.get_by_id(id) {
            Some(i) => i,
            None => return,
        };
        self.accesskit_actions.push((id, action));
        match action {
            AccessKitAction::Focus | AccessKitAction::ScrollIntoView => {
                self.set_focus_node(i, true);
                self.scroll_into_view = Some(i);
            },
            AccessKitAction::Blur => {
                if self.focused == Some(id) {
                    self.unfocus();
                }
            },
            AccessKitAction::Click => {
                self.mouse_input.push_synthetic_click(id, click_at);
            },
            AccessKitAction::ScrollUp => {
                self.synthetic_scrolls.push((i, ScrollStep::Up));
            },
            AccessKitAction::ScrollDown => {
                self.synthetic_scrolls.push((i, ScrollStep::Down));
            },
            AccessKitAction::ScrollLeft => {
                self.synthetic_scrolls.push((i, ScrollStep::Left));
            },
            AccessKitAction::ScrollRight => {
                self.synthetic_scrolls.push((i, ScrollStep::Right));
            },
            _ => {},
        }
        self.new_ui_input = true;
    }
}

impl UiParent {
    /// Whether this node was pressed with the left button this frame.
    pub fn is_clicked<S: Copy, D: Copy>(&self, ui: &Ui<S, D>) -> (r: bool)
        requires
            ui.wf(),
            ui.nodes.contains(self.i),
        ensures
            r == exists|k: int| 0 <= k < ui.mouse_input.events_view().len()
                && crate::mouse_events::is_press_on(#[trigger] ui.mouse_input.events_view()[k], ui.nodes.node(self.i).id, MouseButton::Left),
    {
        ui.mouse_input.check_pressed(self.key(ui).id, MouseButton::Left)
    }

    /// Whether this node was pressed with the right button this frame.
    pub fn is_right_clicked<S: Copy, D: Copy>(&self, ui: &Ui<S, D>) -> (r: bool)
        requires
            ui.wf(),
            ui.nodes.contains(self.i),
        ensures
            r == exists|k: int| 0 <= k < ui.mouse_input.events_view().len()
                && crate::mouse_events::is_press_on(#[trigger] ui.mouse_input.events_view()[k], ui.nodes.node(self.i).id, MouseButton::Right),
    {
        ui.mouse_input.check_pressed(self.key(ui).id, MouseButton::Right)
    }

    /// Whether a left-button click was released on this node this frame.
    pub fn is_click_released<S: Copy, D: Copy>(&self, ui: &Ui<S, D>) -> (r: bool)
        requires
            ui.wf(),
            ui.nodes.contains(self.i),
        ensures
            r == exists|k: int| 0 <= k < ui.mouse_input.events_view().len()
                && crate::mouse_events::is_click_release_on(#[trigger] ui.mouse_input.events_view()[k], ui.nodes.node(self.i).id, MouseButton::Left),
    {
        ui.mouse_input.check_click_released(self.key(ui).id, MouseButton::Left)
    }

    /// Whether a left-button drag of this node ended this frame.
    pub fn is_drag_released<S: Copy, D: Copy>(&self, ui: &Ui<S, D>) -> (r: bool)
        requires
            ui.wf(),
            ui.nodes.contains(self.i),
        ensures
            r == exists|k: int| 0 <= k < ui.mouse_input.events_view().len()
                && crate::mouse_events::is_drag_release_on(#[trigger] ui.mouse_input.events_view()[k], ui.nodes.node(self.i).id, MouseButton::Left),
    {
        ui.mouse_input.check_drag_released(self.key(ui).id, MouseButton::Left)
    }

    /// Whether this node is hovered.
    pub fn is_hovered<S: Copy, D: Copy>(&self, ui: &Ui<S, D>) -> (r: bool)
        requires
            ui.wf(),
            ui.nodes.contains(self.i),
        ensures
            r == ui.hovered@.contains(ui.nodes.node(self.i).id),
    {
        ui.hovered_contains(self.key(ui).id)
    }

    /// Whether this node holds the keyboard focus with the indicator shown.
    pub fn is_focused<S: Copy, D: Copy>(&self, ui: &Ui<S, D>) -> (r: bool)
        requires
            ui.wf(),
            ui.nodes.contains(self.i),
        ensures
            r == (ui.show_focus_indicator && ui.focused == Some(ui.nodes.node(self.i).id)),
    {
        ui.show_focus_indicator && ui.focused == Some(self.key(ui).id)
    }

    /// If this node is held with the left button, the pointer sample at which
    /// the hold started.
    pub fn is_held<S: Copy, D: Copy>(&self, ui: &Ui<S, D>) -> (r: Option<S>)
        requires
            ui.wf(),
            ui.nodes.contains(self.i),
        ensures
            match crate::mouse_events::first_drag(ui.mouse_input.events_view(), ui.nodes.node(self.i).id, MouseButton::Left) {
                Some(x) => r == Some(x.0),
                None => r is None,
            },
    {
        match ui.mouse_input.check_dragged(self.key(ui).id, MouseButton::Left) {
            Some((start, _, _)) => Some(start),
            None => None,
        }
    }
}

/// A value written with the GUI's observer clock (stamped with the clock's
/// current reading or a later one) counts as changed for
/// [`Ui::check_changes`]. The clock running ahead of the frame-end readings
/// is part of the GUI's invariant [`Ui::wf`].
pub proof fn lemma_write_is_seen<S: Copy, D: Copy>(ui: Ui<S, D>, stamp: u64)
    requires
        ui.clock_ahead(),
        stamp >= ui.clock.time,
    ensures
        crate::observer::changed_since(stamp, ui.third_last_frame_end_fake_time),
{
}

/// A value written during a frame is still reported changed after that frame
/// ends and after the next one ends (see [`Ui::end_frame_timestamps`]).
pub proof fn lemma_write_seen_after_frame_ends<S: Copy, D: Copy>(ui: Ui<S, D>, after_one: Ui<S, D>, after_two: Ui<S, D>, stamp: u64)
    requires
        ui.clock_ahead(),
        stamp >= ui.clock.time,
        after_one.third_last_frame_end_fake_time == ui.second_last_frame_end_fake_time,
        after_one.second_last_frame_end_fake_time == ui.last_frame_end_fake_time,
        after_two.third_last_frame_end_fake_time == after_one.second_last_frame_end_fake_time,
    ensures
        crate::observer::changed_since(stamp, after_one.third_last_frame_end_fake_time),
        crate::observer::changed_since(stamp, after_two.third_last_frame_end_fake_time),
{
}

} // verus!
