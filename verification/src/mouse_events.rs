use vstd::prelude::*;
use crate::ids::Id;
use crate::targets::{Targets, targets_seq, targets_clone, targets_eq, targets_len, targets_get};

verus! {

/// A mouse button.
#[derive(Debug, Clone, Copy, PartialEq, Eq, Structural)]
pub enum MouseButton {
    Left,
    Right,
    Middle,
    Back,
    Forward,
    Other(u16),
}

/// An input event that happened during the current frame.
///
/// `S` is a sample of the pointer (its position and the time it was taken),
/// `D` a scroll amount; the library only stores and hands them back.
pub enum InputEvent<S, D> {
    /// A mouse button was just pressed on the targets.
    Click { targets: Targets, button: MouseButton, press: S },
    /// A mouse button was pressed and then released on the same targets.
    ClickRelease { targets: Targets, button: MouseButton, press: S, release: S },
    /// An ongoing drag, emitted every frame while dragging: from `start`, the
    /// pointer moved from `previous` to `current` during the frame.
    Drag { targets: Targets, button: MouseButton, start: S, previous: S, current: S },
    /// A drag just ended.
    DragRelease { targets: Targets, button: MouseButton, start: S, end: S },
    /// A scroll on one target.
    Scroll { target: Id, delta: D, at: S },
}

/// A press that is waiting for its release.
pub enum Pending<S> {
    /// A potential click, resolved on release.
    Click { button: MouseButton, press: S, targets: Targets },
    /// An ongoing drag, which emits a drag event every frame.
    Drag { button: MouseButton, start: S, last: S, targets: Targets },
}

/// The mathematical view of an [`InputEvent`], with target lists as sequences.
pub enum EventView<S, D> {
    Click { targets: Seq<Id>, button: MouseButton, press: S },
    ClickRelease { targets: Seq<Id>, button: MouseButton, press: S, release: S },
    Drag { targets: Seq<Id>, button: MouseButton, start: S, previous: S, current: S },
    DragRelease { targets: Seq<Id>, button: MouseButton, start: S, end: S },
    Scroll { target: Id, delta: D, at: S },
}

/// The mathematical view of a [`Pending`] press.
pub enum PendingView<S> {
    Click { button: MouseButton, press: S, targets: Seq<Id> },
    Drag { button: MouseButton, start: S, last: S, targets: Seq<Id> },
}

pub open spec fn event_view<S, D>(e: InputEvent<S, D>) -> EventView<S, D> {
    match e {
        InputEvent::Click { targets, button, press } => EventView::Click { targets: targets_seq(targets), button, press },
        InputEvent::ClickRelease { targets, button, press, release } =>
            EventView::ClickRelease { targets: targets_seq(targets), button, press, release },
        InputEvent::Drag { targets, button, start, previous, current } =>
            EventView::Drag { targets: targets_seq(targets), button, start, previous, current },
        InputEvent::DragRelease { targets, button, start, end } =>
            EventView::DragRelease { targets: targets_seq(targets), button, start, end },
        InputEvent::Scroll { target, delta, at } => EventView::Scroll { target, delta, at },
    }
}

pub open spec fn pending_view<S>(p: Pending<S>) -> PendingView<S> {
    match p {
        Pending::Click { button, press, targets } => PendingView::Click { button, press, targets: targets_seq(targets) },
        Pending::Drag { button, start, last, targets } => PendingView::Drag { button, start, last, targets: targets_seq(targets) },
    }
}

impl<S> PendingView<S> {
    pub open spec fn button(self) -> MouseButton {
        match self {
            PendingView::Click { button, .. } => button,
            PendingView::Drag { button, .. } => button,
        }
    }
}

/// The events `begin_new_frame` emits for the pending presses: one drag event
/// per pending drag, in order, moved to `cursor`.
pub open spec fn frame_drag_events<S, D>(pending: Seq<PendingView<S>>, cursor: S) -> Seq<EventView<S, D>>
    decreases pending.len(),
{
    if pending.len() == 0 {
        Seq::empty()
    } else {
        let rest = frame_drag_events(pending.drop_last(), cursor);
        match pending.last() {
            PendingView::Drag { button, start, last, targets } =>
                rest.push(EventView::Drag { targets, button, start, previous: last, current: cursor }),
            PendingView::Click { .. } => rest,
        }
    }
}

/// The pending presses after `begin_new_frame`: every drag now last seen at `cursor`.
pub open spec fn advance_drags<S>(p: PendingView<S>, cursor: S) -> PendingView<S> {
    match p {
        PendingView::Drag { button, start, last, targets } => PendingView::Drag { button, start, last: cursor, targets },
        PendingView::Click { .. } => p,
    }
}

/// Drags chain from frame to frame: a drag that was pending when one frame
/// began at pointer sample `c1` emits, when the next frame begins at `c2`, a
/// drag event from `c1` to `c2` with the same start; so the frame steps of a
/// drag add up to the whole drag.
pub proof fn lemma_drag_events_chain<S, D>(button: MouseButton, start: S, last: S, targets: Seq<Id>, c1: S, c2: S)
    ensures
        frame_drag_events::<S, D>(seq![advance_drags(PendingView::Drag { button, start, last, targets }, c1)], c2)
            == seq![EventView::<S, D>::Drag { targets, button, start, previous: c1, current: c2 }],
{
    let p = seq![advance_drags(PendingView::Drag { button, start, last, targets }, c1)];
    assert(p.drop_last() =~= Seq::<PendingView<S>>::empty());
    assert(frame_drag_events::<S, D>(Seq::<PendingView<S>>::empty(), c2) == Seq::<EventView<S, D>>::empty());
    assert(p.last() == PendingView::Drag { button, start, last: c1, targets });
    assert(frame_drag_events::<S, D>(p, c2) =~= seq![EventView::<S, D>::Drag { targets, button, start, previous: c1, current: c2 }]);
}

/// The events a release of `button` emits for the pending presses, in order:
/// a click release for a pending click whose targets are the targets under
/// the pointer now, a drag release for every pending drag.
pub open spec fn release_events<S, D>(pending: Seq<PendingView<S>>, button: MouseButton, now_targets: Seq<Id>, cursor: S) -> Seq<EventView<S, D>>
    decreases pending.len(),
{
    if pending.len() == 0 {
        Seq::empty()
    } else {
        let rest = release_events(pending.drop_last(), button, now_targets, cursor);
        let p = pending.last();
        if p.button() != button {
            rest
        } else {
            match p {
                PendingView::Click { button, press, targets } =>
                    if targets == now_targets {
                        rest.push(EventView::ClickRelease { targets, button, press, release: cursor })
                    } else {
                        rest
                    },
                PendingView::Drag { button, start, targets, .. } =>
                    rest.push(EventView::DragRelease { targets, button, start, end: cursor }),
            }
        }
    }
}

/// The pending presses of other buttons, in order.
pub open spec fn other_buttons<S>(pending: Seq<PendingView<S>>, button: MouseButton) -> Seq<PendingView<S>>
    decreases pending.len(),
{
    if pending.len() == 0 {
        Seq::empty()
    } else {
        let rest = other_buttons(pending.drop_last(), button);
        if pending.last().button() != button {
            rest.push(pending.last())
        } else {
            rest
        }
    }
}

/// The amounts of the scrolls on `id`, in order.
pub open spec fn scroll_deltas_of<S, D>(ev: Seq<EventView<S, D>>, id: Id) -> Seq<D>
    decreases ev.len(),
{
    if ev.len() == 0 {
        Seq::empty()
    } else {
        let rest = scroll_deltas_of(ev.drop_last(), id);
        match ev.last() {
            EventView::Scroll { target, delta, .. } => if target == id { rest.push(delta) } else { rest },
            _ => rest,
        }
    }
}

/// The first drag of `id` with `b` among the events, as its start, previous
/// and current samples.
pub open spec fn first_drag<S, D>(ev: Seq<EventView<S, D>>, id: Id, b: MouseButton) -> Option<(S, S, S)>
    decreases ev.len(),
{
    if ev.len() == 0 {
        None
    } else {
        match ev[0] {
            EventView::Drag { targets, button, start, previous, current } =>
                if button == b && targets.contains(id) { Some((start, previous, current)) } else { first_drag(ev.drop_first(), id, b) },
            _ => first_drag(ev.drop_first(), id, b),
        }
    }
}

/// The first drag with `b` among the events, whatever it drags, as its start,
/// previous and current samples.
pub open spec fn first_drag_with<S, D>(ev: Seq<EventView<S, D>>, b: MouseButton) -> Option<(S, S, S)>
    decreases ev.len(),
{
    if ev.len() == 0 {
        None
    } else {
        match ev[0] {
            EventView::Drag { button, start, previous, current, .. } =>
                if button == b { Some((start, previous, current)) } else { first_drag_with(ev.drop_first(), b) },
            _ => first_drag_with(ev.drop_first(), b),
        }
    }
}

/// A press of `b` on a list of targets that holds `id`.
pub open spec fn is_press_on<S, D>(e: EventView<S, D>, id: Id, b: MouseButton) -> bool {
    e matches EventView::Click { targets, button, .. } && button == b && targets.contains(id)
}

/// A click release of `b` on a list of targets that holds `id`.
pub open spec fn is_click_release_on<S, D>(e: EventView<S, D>, id: Id, b: MouseButton) -> bool {
    e matches EventView::ClickRelease { targets, button, .. } && button == b && targets.contains(id)
}

/// A drag with `b` of a list of targets that holds `id`.
pub open spec fn is_drag_on<S, D>(e: EventView<S, D>, id: Id, b: MouseButton) -> bool {
    e matches EventView::Drag { targets, button, .. } && button == b && targets.contains(id)
}

/// The end of a drag with `b` of a list of targets that holds `id`.
pub open spec fn is_drag_release_on<S, D>(e: EventView<S, D>, id: Id, b: MouseButton) -> bool {
    e matches EventView::DragRelease { targets, button, .. } && button == b && targets.contains(id)
}

/// A scroll on `id`.
pub open spec fn is_scroll_on<S, D>(e: EventView<S, D>, id: Id) -> bool {
    e matches EventView::Scroll { target, .. } && target == id
}

/// A drag with `b`, of any targets.
pub open spec fn is_drag_with<S, D>(e: EventView<S, D>, b: MouseButton) -> bool {
    e matches EventView::Drag { button, .. } && button == b
}

/// The end of a drag with `b`, of any targets.
pub open spec fn is_drag_release_with<S, D>(e: EventView<S, D>, b: MouseButton) -> bool {
    e matches EventView::DragRelease { button, .. } && button == b
}

/// The first targets of the pending drags, with their buttons, in order.
pub open spec fn dragging<S>(pending: Seq<PendingView<S>>) -> Seq<(Id, MouseButton)>
    decreases pending.len(),
{
    if pending.len() == 0 {
        Seq::empty()
    } else {
        let rest = dragging(pending.drop_last());
        match pending.last() {
            PendingView::Drag { targets, button, .. } => if targets.len() > 0 { rest.push((targets[0], button)) } else { rest },
            PendingView::Click { .. } => rest,
        }
    }
}

/// Releasing a button handles the pending presses one by one: the events of a
/// list of them are those of its first part followed by those of the rest.
pub proof fn lemma_release_events_split<S, D>(p1: Seq<PendingView<S>>, p2: Seq<PendingView<S>>, b: MouseButton, now: Seq<Id>, c: S)
    ensures
        release_events::<S, D>(p1 + p2, b, now, c) == release_events::<S, D>(p1, b, now, c) + release_events::<S, D>(p2, b, now, c),
    decreases p2.len(),
{
    if p2.len() == 0 {
        assert(p1 + p2 =~= p1);
        assert(release_events::<S, D>(p1, b, now, c) + Seq::<EventView<S, D>>::empty() =~= release_events::<S, D>(p1, b, now, c));
    } else {
        lemma_release_events_split::<S, D>(p1, p2.drop_last(), b, now, c);
        assert((p1 + p2).drop_last() =~= p1 + p2.drop_last());
        assert((p1 + p2).last() == p2.last());
        let r1 = release_events::<S, D>(p1, b, now, c);
        let r2 = release_events::<S, D>(p2.drop_last(), b, now, c);
        assert forall|e: EventView<S, D>| (r1 + r2).push(e) =~= r1 + r2.push(e) by {}
    }
}

/// What releasing `b` emits for one pending press: a press of another button
/// emits nothing (and stays pending); a drag of `b` ends at the pointer, from
/// where it started, whatever is under the pointer now; a click of `b` is
/// released only if the targets under the pointer are the ones it pressed.
pub proof fn lemma_release_one<S, D>(p: PendingView<S>, b: MouseButton, now: Seq<Id>, c: S)
    ensures
        p.button() != b ==> release_events::<S, D>(seq![p], b, now, c) == Seq::<EventView<S, D>>::empty()
            && other_buttons(seq![p], b) == seq![p],
        p.button() == b ==> other_buttons(seq![p], b) == Seq::<PendingView<S>>::empty(),
        match p {
            PendingView::Drag { button, start, targets, .. } => button == b ==>
                release_events::<S, D>(seq![p], b, now, c) == seq![EventView::<S, D>::DragRelease { targets, button: b, start, end: c }],
            PendingView::Click { button, press, targets } => button == b ==>
                release_events::<S, D>(seq![p], b, now, c) == (if targets == now {
                    seq![EventView::<S, D>::ClickRelease { targets, button: b, press, release: c }]
                } else {
                    Seq::<EventView<S, D>>::empty()
                }),
        },
{
    let s = seq![p];
    assert(s.drop_last() =~= Seq::<PendingView<S>>::empty());
    assert(s.last() == p);
    assert(release_events::<S, D>(Seq::<PendingView<S>>::empty(), b, now, c) == Seq::<EventView<S, D>>::empty());
    assert(other_buttons(Seq::<PendingView<S>>::empty(), b) == Seq::<PendingView<S>>::empty());
    assert(Seq::<EventView<S, D>>::empty().push(EventView::<S, D>::DragRelease { targets: Seq::empty(), button: b, start: c, end: c }).len() == 1);
    match p {
        PendingView::Drag { button, start, targets, .. } => {
            if button == b {
                assert(release_events::<S, D>(s, b, now, c) =~= seq![EventView::<S, D>::DragRelease { targets, button: b, start, end: c }]);
            }
        },
        PendingView::Click { button, press, targets } => {
            if button == b && targets == now {
                assert(release_events::<S, D>(s, b, now, c) =~= seq![EventView::<S, D>::ClickRelease { targets, button: b, press, release: c }]);
            }
        },
    }
    if p.button() != b {
        assert(other_buttons(s, b) =~= seq![p]);
    }
}

/// After a release of `b`, no press of `b` stays pending, and every press of
/// another button does, in order.
pub proof fn lemma_other_buttons<S>(p: Seq<PendingView<S>>, b: MouseButton)
    ensures
        forall|k: int| 0 <= k < other_buttons(p, b).len() ==> #[trigger] other_buttons(p, b)[k].button() != b,
        other_buttons(p, b).len() <= p.len(),
        (forall|k: int| 0 <= k < p.len() ==> #[trigger] p[k].button() != b) ==> other_buttons(p, b) == p,
    decreases p.len(),
{
    if p.len() > 0 {
        lemma_other_buttons(p.drop_last(), b);
        let rest = other_buttons(p.drop_last(), b);
        if p.last().button() != b {
            assert forall|k: int| 0 <= k < other_buttons(p, b).len() implies #[trigger] other_buttons(p, b)[k].button() != b by {
                if k < rest.len() {
                    assert(other_buttons(p, b)[k] == rest[k]);
                }
            }
        }
        if forall|k: int| 0 <= k < p.len() ==> #[trigger] p[k].button() != b {
            assert forall|k: int| 0 <= k < p.drop_last().len() implies #[trigger] p.drop_last()[k].button() != b by {
                assert(p.drop_last()[k] == p[k]);
            }
            assert(p.last().button() != b);
            assert(p.drop_last().push(p.last()) =~= p);
        }
    } else {
        assert(p =~= Seq::<PendingView<S>>::empty());
    }
}

/// The scroll amounts of `id` in a list of events are those of its first
/// part followed by those of the rest; a scroll on `id` adds its amount, any
/// other event nothing.
pub proof fn lemma_scroll_deltas_split<S, D>(e1: Seq<EventView<S, D>>, e2: Seq<EventView<S, D>>, id: Id)
    ensures
        scroll_deltas_of(e1 + e2, id) == scroll_deltas_of(e1, id) + scroll_deltas_of(e2, id),
    decreases e2.len(),
{
    if e2.len() == 0 {
        assert(e1 + e2 =~= e1);
        assert(scroll_deltas_of(e1, id) + Seq::<D>::empty() =~= scroll_deltas_of(e1, id));
    } else {
        lemma_scroll_deltas_split(e1, e2.drop_last(), id);
        assert((e1 + e2).drop_last() =~= e1 + e2.drop_last());
        assert((e1 + e2).last() == e2.last());
        let r1 = scroll_deltas_of(e1, id);
        let r2 = scroll_deltas_of(e2.drop_last(), id);
        assert forall|d: D| (r1 + r2).push(d) =~= r1 + r2.push(d) by {}
    }
}

/// The drag events of a frame for a list of pending presses are those of its
/// first part followed by those of the rest; a pending click emits none.
pub proof fn lemma_frame_drag_events_split<S, D>(p1: Seq<PendingView<S>>, p2: Seq<PendingView<S>>, c: S)
    ensures
        frame_drag_events::<S, D>(p1 + p2, c) == frame_drag_events::<S, D>(p1, c) + frame_drag_events::<S, D>(p2, c),
    decreases p2.len(),
{
    if p2.len() == 0 {
        assert(p1 + p2 =~= p1);
        assert(frame_drag_events::<S, D>(p1, c) + Seq::<EventView<S, D>>::empty() =~= frame_drag_events::<S, D>(p1, c));
    } else {
        lemma_frame_drag_events_split::<S, D>(p1, p2.drop_last(), c);
        assert((p1 + p2).drop_last() =~= p1 + p2.drop_last());
        assert((p1 + p2).last() == p2.last());
        let r1 = frame_drag_events::<S, D>(p1, c);
        let r2 = frame_drag_events::<S, D>(p2.drop_last(), c);
        assert forall|e: EventView<S, D>| (r1 + r2).push(e) =~= r1 + r2.push(e) by {}
    }
}

/// Tracks mouse presses across frames and collects the input events of the
/// current frame.
pub struct MouseInput<S, D> {
    events: Vec<InputEvent<S, D>>,
    pending: Vec<Pending<S>>,
    cursor_position: S,
    prev_cursor_position: S,
}

impl<S: Copy, D: Copy> MouseInput<S, D> {
    /// The events of the current frame.
    pub closed spec fn events_view(&self) -> Seq<EventView<S, D>> {
        self.events@.map_values(|e: InputEvent<S, D>| event_view(e))
    }

    /// The last pointer sample.
    pub closed spec fn cursor(&self) -> S {
        self.cursor_position
    }

    /// The pointer sample before the last one.
    pub closed spec fn prev_cursor(&self) -> S {
        self.prev_cursor_position
    }

    /// The presses waiting for their release.
    pub closed spec fn pending_view(&self) -> Seq<PendingView<S>> {
        self.pending@.map_values(|p: Pending<S>| pending_view(p))
    }

    /// No events, nothing pending, the pointer at `cursor`.
    pub fn new(cursor: S) -> (r: Self)
        ensures
            r.events_view() == Seq::<EventView<S, D>>::empty(),
            r.pending_view() == Seq::<PendingView<S>>::empty(),
            r.cursor() == cursor,
            r.prev_cursor() == cursor,
    {
        let r = MouseInput { events: Vec::new(), pending: Vec::new(), cursor_position: cursor, prev_cursor_position: cursor };
        proof {
            assert(r.events_view() =~= Seq::<EventView<S, D>>::empty());
            assert(r.pending_view() =~= Seq::<PendingView<S>>::empty());
        }
        r
    }

    /// Called at the start of each frame: every ongoing drag emits a drag
    /// event up to the current pointer position.
    pub fn begin_new_frame(&mut self)
        ensures
            final(self).events_view() == old(self).events_view() + frame_drag_events::<S, D>(old(self).pending_view(), old(self).cursor()),
            final(self).pending_view() == old(self).pending_view().map_values(|p: PendingView<S>| advance_drags(p, old(self).cursor())),
            final(self).cursor() == old(self).cursor(),
            final(self).prev_cursor() == old(self).prev_cursor(),
            final(self).pending_view().len() == old(self).pending_view().len(),
            forall|k: int| 0 <= k < old(self).pending_view().len() ==> match #[trigger] old(self).pending_view()[k] {
                PendingView::Drag { button, start, last, targets } =>
                    final(self).pending_view()[k] == PendingView::Drag { button, start, last: old(self).cursor(), targets },
                PendingView::Click { .. } => final(self).pending_view()[k] == old(self).pending_view()[k],
            },
    {
        let ghost old_events = self.events_view();
        let ghost old_pending = self.pending_view();
        let cursor = self.cursor_position;
        let ghost prev = self.prev_cursor_position;
        let n = self.pending.len();
        let mut new_pending: Vec<Pending<S>> = Vec::new();
        let mut i: usize = 0;
        while i < n
            invariant
                n == self.pending@.len(),
                i <= n,
                self.pending_view() == old_pending,
                self.cursor_position == cursor,
                self.prev_cursor_position == prev,
                self.events_view() == old_events + frame_drag_events::<S, D>(old_pending.take(i as int), cursor),
                new_pending@.map_values(|p: Pending<S>| pending_view(p)) == old_pending.take(i as int).map_values(|p: PendingView<S>| advance_drags(p, cursor)),
            decreases n - i,
        {
            proof {
                assert(old_pending.take(i as int + 1).drop_last() =~= old_pending.take(i as int));
                assert(old_pending[i as int] == pending_view(self.pending@[i as int]));
            }
            match &self.pending[i] {
                Pending::Drag { button, start, last, targets } => {
                    let e = InputEvent::Drag { targets: targets_clone(targets), button: *button, start: *start, previous: *last, current: cursor };
                    let ghost ev_before = self.events_view();
                    self.events.push(e);
                    proof {
                        assert(self.events_view() =~= ev_before.push(event_view(e)));
                    }
                    let p = Pending::Drag { button: *button, start: *start, last: cursor, targets: targets_clone(targets) };
                    let ghost np_before = new_pending@;
                    new_pending.push(p);
                    proof {
                        assert(new_pending@.map_values(|p: Pending<S>| pending_view(p)) =~= np_before.map_values(|p: Pending<S>| pending_view(p)).push(pending_view(p)));
                    }
                },
                Pending::Click { button, press, targets } => {
                    let p = Pending::Click { button: *button, press: *press, targets: targets_clone(targets) };
                    let ghost np_before = new_pending@;
                    new_pending.push(p);
                    proof {
                        assert(new_pending@.map_values(|p: Pending<S>| pending_view(p)) =~= np_before.map_values(|p: Pending<S>| pending_view(p)).push(pending_view(p)));
                    }
                },
            }
            proof {
                assert(old_pending.take(i as int + 1).map_values(|p: PendingView<S>| advance_drags(p, cursor))
                    =~= old_pending.take(i as int).map_values(|p: PendingView<S>| advance_drags(p, cursor)).push(advance_drags(old_pending[i as int], cursor)));
                assert(old_events + frame_drag_events::<S, D>(old_pending.take(i as int + 1), cursor)
                    =~= self.events_view());
            }
            i = i + 1;
        }
        self.pending = new_pending;
        proof {
            assert(old_pending.take(n as int) =~= old_pending);
            assert(self.pending_view() =~= old_pending.map_values(|p: PendingView<S>| advance_drags(p, cursor)));
        }
    }

    /// Called at the end of each frame: the frame's events are dropped.
    pub fn finish_frame(&mut self)
        ensures
            final(self).events_view() == Seq::<EventView<S, D>>::empty(),
            final(self).pending_view() == old(self).pending_view(),
            final(self).cursor() == old(self).cursor(),
            final(self).prev_cursor() == old(self).prev_cursor(),
    {
        self.events.clear();
        proof {
            assert(self.events_view() =~= Seq::<EventView<S, D>>::empty());
        }
    }

    /// The pointer moved: the new sample becomes the cursor.
    pub fn cursor_moved(&mut self, sample: S)
        ensures
            final(self).cursor() == sample,
            final(self).prev_cursor() == old(self).cursor(),
            final(self).events_view() == old(self).events_view(),
            final(self).pending_view() == old(self).pending_view(),
    {
        self.prev_cursor_position = self.cursor_position;
        self.cursor_position = sample;
    }

    /// The last pointer sample.
    pub fn cursor_position(&self) -> (r: S)
        ensures
            r == self.cursor(),
    {
        self.cursor_position
    }

    /// The pointer sample before the last one.
    pub fn prev_cursor_position(&self) -> (r: S)
        ensures
            r == self.prev_cursor(),
    {
        self.prev_cursor_position
    }

    /// A mouse button was pressed. If there are click targets, a press event
    /// is emitted and a click is left pending; if there are drag targets, a
    /// drag is left pending.
    pub fn push_press(&mut self, button: MouseButton, click_targets: Targets, drag_targets: Targets)
        ensures
            final(self).events_view() == (if targets_seq(click_targets).len() > 0 {
                old(self).events_view().push(EventView::Click { targets: targets_seq(click_targets), button, press: old(self).cursor() })
            } else {
                old(self).events_view()
            }),
            final(self).pending_view() == {
                let with_click = if targets_seq(click_targets).len() > 0 {
                    old(self).pending_view().push(PendingView::Click { button, press: old(self).cursor(), targets: targets_seq(click_targets) })
                } else {
                    old(self).pending_view()
                };
                if targets_seq(drag_targets).len() > 0 {
                    with_click.push(PendingView::Drag { button, start: old(self).cursor(), last: old(self).cursor(), targets: targets_seq(drag_targets) })
                } else {
                    with_click
                }
            },
            final(self).cursor() == old(self).cursor(),
            final(self).prev_cursor() == old(self).prev_cursor(),
    {
        let now = self.cursor_position;
        if targets_len(&click_targets) > 0 {
            let e = InputEvent::Click { targets: targets_clone(&click_targets), button, press: now };
            let ghost before = self.events_view();
            self.events.push(e);
            let p = Pending::Click { button, press: now, targets: click_targets };
            let ghost pbefore = self.pending_view();
            self.pending.push(p);
            proof {
                assert(self.events_view() =~= before.push(event_view(e)));
                assert(self.pending_view() =~= pbefore.push(pending_view(p)));
            }
        }
        if targets_len(&drag_targets) > 0 {
            let p = Pending::Drag { button, start: now, last: now, targets: drag_targets };
            let ghost pbefore = self.pending_view();
            self.pending.push(p);
            proof {
                assert(self.pending_view() =~= pbefore.push(pending_view(p)));
            }
        }
    }

    /// A mouse button was released. Every press of that button that was
    /// pending is resolved, in order: a pending click becomes a click release
    /// if the targets under the pointer are the ones it was pressed on, a
    /// pending drag becomes a drag release.
    pub fn push_release(&mut self, button: MouseButton, current_click_targets: Targets)
        ensures
            final(self).events_view() == old(self).events_view()
                + release_events::<S, D>(old(self).pending_view(), button, targets_seq(current_click_targets), old(self).cursor()),
            final(self).pending_view() == other_buttons(old(self).pending_view(), button),
            final(self).cursor() == old(self).cursor(),
            final(self).prev_cursor() == old(self).prev_cursor(),
    {
        let ghost old_events = self.events_view();
        let ghost old_pending = self.pending_view();
        let ghost now_targets = targets_seq(current_click_targets);
        let cursor = self.cursor_position;
        let ghost prev = self.prev_cursor_position;
        let mut old_list: Vec<Pending<S>> = Vec::new();
        std::mem::swap(&mut old_list, &mut self.pending);
        proof {
            assert(old_list@.map_values(|p: Pending<S>| pending_view(p)) == old_pending);
        }
        let n = old_list.len();
        let mut i: usize = 0;
        while i < n
            invariant
                n == old_list@.len(),
                i <= n,
                old_list@.map_values(|p: Pending<S>| pending_view(p)) == old_pending,
                self.cursor_position == cursor,
                self.prev_cursor_position == prev,
                now_targets == targets_seq(current_click_targets),
                self.events_view() == old_events + release_events::<S, D>(old_pending.take(i as int), button, now_targets, cursor),
                self.pending_view() == other_buttons(old_pending.take(i as int), button),
            decreases n - i,
        {
            proof {
                assert(old_pending.take(i as int + 1).drop_last() =~= old_pending.take(i as int));
                assert(old_pending.take(i as int + 1).last() == old_pending[i as int]);
                assert(old_pending[i as int] == pending_view(old_list@[i as int]));
            }
            let ghost ev_before = self.events_view();
            let ghost pe_before = self.pending_view();
            match &old_list[i] {
                Pending::Click { button: b, press, targets } => {
                    if *b == button {
                        if targets_eq(targets, &current_click_targets) {
                            let e = InputEvent::ClickRelease { targets: targets_clone(targets), button, press: *press, release: cursor };
                            self.events.push(e);
                            proof {
                                assert(self.events_view() =~= ev_before.push(event_view(e)));
                            }
                        }
                    } else {
                        let p = Pending::Click { button: *b, press: *press, targets: targets_clone(targets) };
                        self.pending.push(p);
                        proof {
                            assert(self.pending_view() =~= pe_before.push(pending_view(p)));
                        }
                    }
                },
                Pending::Drag { button: b, start, last, targets } => {
                    if *b == button {
                        let e = InputEvent::DragRelease { targets: targets_clone(targets), button, start: *start, end: cursor };
                        self.events.push(e);
                        proof {
                            assert(self.events_view() =~= ev_before.push(event_view(e)));
                        }
                    } else {
                        let p = Pending::Drag { button: *b, start: *start, last: *last, targets: targets_clone(targets) };
                        self.pending.push(p);
                        proof {
                            assert(self.pending_view() =~= pe_before.push(pending_view(p)));
                        }
                    }
                },
            }
            proof {
                assert(self.events_view() =~= old_events + release_events::<S, D>(old_pending.take(i as int + 1), button, now_targets, cursor));
            }
            i = i + 1;
        }
        proof {
            assert(old_pending.take(n as int) =~= old_pending);
        }
    }

    /// A scroll on `target`, at the current pointer sample.
    pub fn push_scroll(&mut self, delta: D, target: Id)
        ensures
            final(self).events_view() == old(self).events_view().push(EventView::Scroll { target, delta, at: old(self).cursor() }),
            final(self).pending_view() == old(self).pending_view(),
            final(self).cursor() == old(self).cursor(),
            final(self).prev_cursor() == old(self).prev_cursor(),
    {
        let e = InputEvent::Scroll { target, delta, at: self.cursor_position };
        let ghost before = self.events_view();
        self.events.push(e);
        proof {
            assert(self.events_view() =~= before.push(event_view(e)));
        }
    }

    /// A click pressed and released at once on one node (keyboard activation):
    /// a press event and a click release event on `id` with the left button,
    /// both at `at`.
    pub fn push_synthetic_click(&mut self, id: Id, at: S)
        ensures
            final(self).events_view() == old(self).events_view()
                .push(EventView::Click { targets: seq![id], button: MouseButton::Left, press: at })
                .push(EventView::ClickRelease { targets: seq![id], button: MouseButton::Left, press: at, release: at }),
            final(self).pending_view() == old(self).pending_view(),
            final(self).cursor() == old(self).cursor(),
            final(self).prev_cursor() == old(self).prev_cursor(),
    {
        let mut ids: Vec<Id> = Vec::new();
        ids.push(id);
        let t1 = Targets::from_vec(&ids);
        let t2 = Targets::from_vec(&ids);
        let e1 = InputEvent::Click { targets: t1, button: MouseButton::Left, press: at };
        let e2 = InputEvent::ClickRelease { targets: t2, button: MouseButton::Left, press: at, release: at };
        let ghost before = self.events_view();
        self.events.push(e1);
        self.events.push(e2);
        proof {
            assert(ids@ =~= seq![id]);
            assert(self.events_view() =~= before.push(event_view(e1)).push(event_view(e2)));
        }
    }

    /// The first targets of the ongoing drags, with their buttons.
    pub fn currently_dragging(&self) -> (r: Vec<(Id, MouseButton)>)
        ensures
            r@ == dragging(self.pending_view()),
    {
        let ghost pv = self.pending_view();
        let mut out: Vec<(Id, MouseButton)> = Vec::new();
        let n = self.pending.len();
        let mut i: usize = 0;
        while i < n
            invariant
                n == self.pending@.len(),
                pv == self.pending_view(),
                i <= n,
                out@ == dragging(pv.take(i as int)),
            decreases n - i,
        {
            proof {
                assert(pv.take(i as int + 1).drop_last() =~= pv.take(i as int));
                assert(pv[i as int] == pending_view(self.pending@[i as int]));
            }
            match &self.pending[i] {
                Pending::Drag { targets, button, .. } => {
                    if targets_len(targets) > 0 {
                        out.push((targets_get(targets, 0), *button));
                    }
                },
                Pending::Click { .. } => {},
            }
            i = i + 1;
        }
        proof {
            assert(pv.take(n as int) =~= pv);
        }
        out
    }

    /// Whether `id` was pressed with `button` during this frame.
    pub fn check_pressed(&self, id: Id, button: MouseButton) -> (r: bool)
        ensures
            r == exists|k: int| 0 <= k < self.events_view().len() && is_press_on(#[trigger] self.events_view()[k], id, button),
    {
        let ghost ev = self.events_view();
        let n = self.events.len();
        let mut i: usize = 0;
        while i < n
            invariant
                n == ev.len(),
                ev == self.events_view(),
                i <= n,
                forall|k: int| 0 <= k < i ==> !is_press_on(#[trigger] ev[k], id, button),
            decreases n - i,
        {
            proof {
                assert(ev[i as int] == event_view(self.events@[i as int]));
            }
            if let InputEvent::Click { targets, button: b, .. } = &self.events[i] {
                if *b == button && targets.contains(id) {
                    return true;
                }
            }
            i = i + 1;
        }
        false
    }

    /// Whether a click with `button` was released on `id` during this frame.
    pub fn check_click_released(&self, id: Id, button: MouseButton) -> (r: bool)
        ensures
            r == exists|k: int| 0 <= k < self.events_view().len() && is_click_release_on(#[trigger] self.events_view()[k], id, button),
    {
        let ghost ev = self.events_view();
        let n = self.events.len();
        let mut i: usize = 0;
        while i < n
            invariant
                n == ev.len(),
                ev == self.events_view(),
                i <= n,
                forall|k: int| 0 <= k < i ==> !is_click_release_on(#[trigger] ev[k], id, button),
            decreases n - i,
        {
            proof {
                assert(ev[i as int] == event_view(self.events@[i as int]));
            }
            if let InputEvent::ClickRelease { targets, button: b, .. } = &self.events[i] {
                if *b == button && targets.contains(id) {
                    return true;
                }
            }
            i = i + 1;
        }
        false
    }

    /// Whether a drag of `id` with `button` ended during this frame.
    pub fn check_drag_released(&self, id: Id, button: MouseButton) -> (r: bool)
        ensures
            r == exists|k: int| 0 <= k < self.events_view().len() && is_drag_release_on(#[trigger] self.events_view()[k], id, button),
    {
        let ghost ev = self.events_view();
        let n = self.events.len();
        let mut i: usize = 0;
        while i < n
            invariant
                n == ev.len(),
                ev == self.events_view(),
                i <= n,
                forall|k: int| 0 <= k < i ==> !is_drag_release_on(#[trigger] ev[k], id, button),
            decreases n - i,
        {
            proof {
                assert(ev[i as int] == event_view(self.events@[i as int]));
            }
            if let InputEvent::DragRelease { targets, button: b, .. } = &self.events[i] {
                if *b == button && targets.contains(id) {
                    return true;
                }
            }
            i = i + 1;
        }
        false
    }

    /// The first drag of `id` with `button` during this frame, as its start,
    /// previous and current pointer samples.
    pub fn check_dragged(&self, id: Id, button: MouseButton) -> (r: Option<(S, S, S)>)
        ensures
            r == first_drag(self.events_view(), id, button),
    {
        let ghost ev = self.events_view();
        let n = self.events.len();
        let mut i: usize = 0;
        proof {
            assert(ev.skip(0) =~= ev);
        }
        while i < n
            invariant
                n == ev.len(),
                ev == self.events_view(),
                i <= n,
                first_drag(ev.skip(i as int), id, button) == first_drag(ev, id, button),
            decreases n - i,
        {
            proof {
                assert(ev[i as int] == event_view(self.events@[i as int]));
                assert(ev.skip(i as int)[0] == ev[i as int]);
                assert(ev.skip(i as int).drop_first() =~= ev.skip(i as int + 1));
            }
            if let InputEvent::Drag { targets, button: b, start, previous, current } = &self.events[i] {
                if *b == button && targets.contains(id) {
                    return Some((*start, *previous, *current));
                }
            }
            i = i + 1;
        }
        proof {
            assert(ev.skip(n as int) =~= Seq::<EventView<S, D>>::empty());
        }
        None
    }

    /// The first drag with `button` during this frame, whatever it drags.
    pub fn check_any_dragged(&self, button: MouseButton) -> (r: Option<(S, S, S)>)
        ensures
            r == first_drag_with(self.events_view(), button),
    {
        let ghost ev = self.events_view();
        let n = self.events.len();
        let mut i: usize = 0;
        proof {
            assert(ev.skip(0) =~= ev);
        }
        while i < n
            invariant
                n == ev.len(),
                ev == self.events_view(),
                i <= n,
                first_drag_with(ev.skip(i as int), button) == first_drag_with(ev, button),
            decreases n - i,
        {
            proof {
                assert(ev[i as int] == event_view(self.events@[i as int]));
                assert(ev.skip(i as int)[0] == ev[i as int]);
                assert(ev.skip(i as int).drop_first() =~= ev.skip(i as int + 1));
            }
            if let InputEvent::Drag { button: b, start, previous, current, .. } = &self.events[i] {
                if *b == button {
                    return Some((*start, *previous, *current));
                }
            }
            i = i + 1;
        }
        proof {
            assert(ev.skip(n as int) =~= Seq::<EventView<S, D>>::empty());
        }
        None
    }

    /// Whether some drag with `button` ended during this frame.
    pub fn check_any_drag_released(&self, button: MouseButton) -> (r: bool)
        ensures
            r == exists|k: int| 0 <= k < self.events_view().len() && is_drag_release_with(#[trigger] self.events_view()[k], button),
    {
        let ghost ev = self.events_view();
        let n = self.events.len();
        let mut i: usize = 0;
        while i < n
            invariant
                n == ev.len(),
                ev == self.events_view(),
                i <= n,
                forall|k: int| 0 <= k < i ==> !is_drag_release_with(#[trigger] ev[k], button),
            decreases n - i,
        {
            proof {
                assert(ev[i as int] == event_view(self.events@[i as int]));
            }
            if let InputEvent::DragRelease { button: b, .. } = &self.events[i] {
                if *b == button {
                    return true;
                }
            }
            i = i + 1;
        }
        false
    }

    /// The last scroll on `id` during this frame, as its amount and pointer sample.
    pub fn check_last_scroll_event(&self, id: Id) -> (r: Option<(D, S)>)
        ensures
            r is None ==> forall|k: int| 0 <= k < self.events_view().len() ==> !is_scroll_on(#[trigger] self.events_view()[k], id),
            r matches Some(x) ==> exists|k: int| 0 <= k < self.events_view().len() && {
                &&& is_scroll_on(#[trigger] self.events_view()[k], id)
                &&& self.events_view()[k] matches EventView::Scroll { delta, at, .. } && x == (delta, at)
                &&& forall|j: int| k < j < self.events_view().len() ==> !is_scroll_on(#[trigger] self.events_view()[j], id)
            },
    {
        let ghost ev = self.events_view();
        let n = self.events.len();
        let mut i: usize = n;
        while i > 0
            invariant
                n == ev.len(),
                ev == self.events_view(),
                i <= n,
                forall|k: int| i <= k < n ==> !is_scroll_on(#[trigger] ev[k], id),
            decreases i,
        {
            i = i - 1;
            proof {
                assert(ev[i as int] == event_view(self.events@[i as int]));
            }
            if let InputEvent::Scroll { target, delta, at } = &self.events[i] {
                if *target == id {
                    proof {
                        assert(is_scroll_on(ev[i as int], id));
                    }
                    return Some((*delta, *at));
                }
            }
        }
        None
    }

    /// The amounts of all scrolls on `id` during this frame, in order.
    pub fn scroll_deltas(&self, id: Id) -> (r: Vec<D>)
        ensures
            r@ == scroll_deltas_of(self.events_view(), id),
    {
        let ghost ev = self.events_view();
        let n = self.events.len();
        let mut out: Vec<D> = Vec::new();
        let mut i: usize = 0;
        while i < n
            invariant
                n == ev.len(),
                ev == self.events_view(),
                i <= n,
                out@ == scroll_deltas_of(ev.take(i as int), id),
            decreases n - i,
        {
            proof {
                assert(ev[i as int] == event_view(self.events@[i as int]));
                assert(ev.take(i as int + 1).drop_last() =~= ev.take(i as int));
            }
            if let InputEvent::Scroll { target, delta, .. } = &self.events[i] {
                if *target == id {
                    out.push(*delta);
                }
            }
            i = i + 1;
        }
        proof {
            assert(ev.take(n as int) =~= ev);
        }
        out
    }
}

} // verus!
