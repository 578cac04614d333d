use vstd::prelude::*;
use crate::ids::{Id, NodeI};
use crate::math::Xy;
use crate::sense::Sense;
use crate::nodes::{Nodes, InnerNode};
use crate::targets::{Targets, targets_seq, targets_new, targets_push, targets_contains};

verus! {

/// The input-related data of a node that was drawn this frame, in drawing
/// order. Whether the pointer is over the node is decided outside (it is a
/// geometric test on the node's rectangle and shape).
#[derive(Debug, Clone, Copy)]
pub struct ClickRect {
    pub i: NodeI,
    pub id: Id,
    pub senses: Sense,
    pub scrollable: Xy<bool>,
    pub absorbs_mouse_events: bool,
}

/// Which of the hit nodes a hit scan reports.
#[derive(Debug, Clone, Copy)]
pub enum HitFilter {
    /// Nodes that react to the mouse in any way: with a sense, scrollable, or absorbing events.
    Opaque,
    /// Nodes that have all of these senses.
    Senses(Sense),
    /// All nodes.
    Any,
}

pub open spec fn filter_matches(f: HitFilter, r: ClickRect) -> bool {
    match f {
        HitFilter::Opaque => r.senses.bits != 0 || r.scrollable.x || r.scrollable.y || r.absorbs_mouse_events,
        HitFilter::Senses(s) => r.senses.spec_contains(s),
        HitFilter::Any => true,
    }
}

/// Whether a hit node passes the filter.
pub fn hit_filter_matches(f: HitFilter, r: &ClickRect) -> (b: bool)
    ensures
        b == filter_matches(f, *r),
{
    match f {
        HitFilter::Opaque => r.senses.bits != 0 || r.scrollable.x || r.scrollable.y || r.absorbs_mouse_events,
        HitFilter::Senses(s) => r.senses.contains(s),
        HitFilter::Any => true,
    }
}

/// The ids the scan reports for the rectangles below index `k`, topmost
/// first: every hit rectangle that passes the filter, stopping after the
/// first one of them that absorbs mouse events.
pub open spec fn scan_hits_below(rects: Seq<ClickRect>, hits: Seq<bool>, f: HitFilter, k: int) -> Seq<Id>
    decreases k,
{
    if k <= 0 {
        Seq::empty()
    } else {
        let j = k - 1;
        if hits[j] && filter_matches(f, rects[j]) {
            if rects[j].absorbs_mouse_events {
                seq![rects[j].id]
            } else {
                seq![rects[j].id] + scan_hits_below(rects, hits, f, j)
            }
        } else {
            scan_hits_below(rects, hits, f, j)
        }
    }
}

/// Scans the rectangles from the topmost down and returns the ids of the hit
/// nodes that pass the filter. A node that absorbs mouse events and passes
/// the filter hides the nodes below it.
pub fn scan_hits(rects: &Vec<ClickRect>, hits: &Vec<bool>, f: HitFilter) -> (r: Vec<Id>)
    requires
        hits@.len() == rects@.len(),
    ensures
        r@ == scan_hits_below(rects@, hits@, f, rects@.len() as int),
{
    let n = rects.len();
    let mut out: Vec<Id> = Vec::new();
    let mut i: usize = n;
    while i > 0
        invariant
            n == rects@.len(),
            hits@.len() == n,
            i <= n,
            out@ + scan_hits_below(rects@, hits@, f, i as int) == scan_hits_below(rects@, hits@, f, n as int),
        decreases i,
    {
        let ghost before = out@;
        i = i - 1;
        let rect = rects[i];
        if hits[i] {
            let matched = hit_filter_matches(f, &rect);
            if matched {
                out.push(rect.id);
                if rect.absorbs_mouse_events {
                    proof {
                        assert(out@ =~= before + seq![rect.id]);
                        assert(before + scan_hits_below(rects@, hits@, f, i as int + 1) == scan_hits_below(rects@, hits@, f, n as int));
                    }
                    return out;
                }
                proof {
                    assert(before + scan_hits_below(rects@, hits@, f, i as int + 1) =~= out@ + scan_hits_below(rects@, hits@, f, i as int));
                }
            }
        }
    }
    proof {
        assert(out@ + Seq::<Id>::empty() =~= out@);
    }
    out
}

/// Whether `dest` is reachable as a drop target under the pointer: among the
/// hit nodes that sense drops, before the first of them that absorbs events.
pub fn drop_target_hit(rects: &Vec<ClickRect>, hits: &Vec<bool>, dest: Id) -> (r: bool)
    requires
        hits@.len() == rects@.len(),
    ensures
        r == scan_hits_below(rects@, hits@, HitFilter::Senses(Sense { bits: 64 }), rects@.len() as int).contains(dest),
{
    let drop = Sense::drag_drop_target();
    proof {
        assert(drop == Sense { bits: 64 });
    }
    let targets = scan_hits(rects, hits, HitFilter::Senses(drop));
    let mut k: usize = 0;
    while k < targets.len()
        invariant
            k <= targets@.len(),
            targets@ == scan_hits_below(rects@, hits@, HitFilter::Senses(Sense { bits: 64 }), rects@.len() as int),
            forall|j: int| 0 <= j < k ==> targets@[j] != dest,
        decreases targets@.len() - k,
    {
        if targets[k] == dest {
            proof {
                assert(targets@[k as int] == dest);
            }
            return true;
        }
        k = k + 1;
    }
    false
}

/// The state of a press scan.
pub struct PressScanState {
    pub click_ids: Seq<Id>,
    pub drag_ids: Seq<Id>,
    pub topmost: Option<Id>,
    pub click_absorbed: bool,
    pub drag_absorbed: bool,
    pub hold_absorbed: bool,
}

pub open spec fn press_scan_step(st: PressScanState, r: ClickRect, hit: bool) -> PressScanState {
    if !hit {
        st
    } else {
        let click = r.senses.spec_contains(Sense { bits: 1 });
        let drag = r.senses.spec_contains(Sense { bits: 2 });
        let hold = r.senses.spec_contains(Sense { bits: 16 });
        PressScanState {
            topmost: if st.topmost is None { Some(r.id) } else { st.topmost },
            click_ids: if !st.click_absorbed && click { st.click_ids.push(r.id) } else { st.click_ids },
            drag_ids: if ((!st.drag_absorbed && drag) || (!st.hold_absorbed && hold)) && !st.drag_ids.contains(r.id) {
                st.drag_ids.push(r.id)
            } else {
                st.drag_ids
            },
            click_absorbed: st.click_absorbed || (r.absorbs_mouse_events && click),
            drag_absorbed: st.drag_absorbed || (r.absorbs_mouse_events && drag),
            hold_absorbed: st.hold_absorbed || (r.absorbs_mouse_events && hold),
        }
    }
}

/// The state of the press scan after the rectangles from the topmost down to
/// index `k` (inclusive).
pub open spec fn press_scan_from(rects: Seq<ClickRect>, hits: Seq<bool>, k: int) -> PressScanState
    decreases rects.len() - k,
{
    if k >= rects.len() || k < 0 {
        PressScanState {
            click_ids: Seq::empty(),
            drag_ids: Seq::empty(),
            topmost: None,
            click_absorbed: false,
            drag_absorbed: false,
            hold_absorbed: false,
        }
    } else {
        press_scan_step(press_scan_from(rects, hits, k + 1), rects[k], hits[k])
    }
}

/// Once the scan has passed a hit node that absorbs mouse events, the kinds of
/// event that node senses stay absorbed for every node below it.
proof fn lemma_absorbed_below(rects: Seq<ClickRect>, hits: Seq<bool>, j: int, k: int)
    requires
        hits.len() == rects.len(),
        0 <= k <= j < rects.len(),
        hits[j],
        rects[j].absorbs_mouse_events,
    ensures
        rects[j].senses.spec_contains(Sense { bits: 1 }) ==> press_scan_from(rects, hits, k).click_absorbed,
        rects[j].senses.spec_contains(Sense { bits: 2 }) ==> press_scan_from(rects, hits, k).drag_absorbed,
        rects[j].senses.spec_contains(Sense { bits: 16 }) ==> press_scan_from(rects, hits, k).hold_absorbed,
    decreases j - k,
{
    if k < j {
        lemma_absorbed_below(rects, hits, j, k + 1);
    }
}

/// A hit node that absorbs mouse events hides every node below it from the
/// events it absorbs: scanning a node below an absorbing draggable node adds
/// it to the drag targets only if it senses holds that are not absorbed yet;
/// below an absorbing clickable node, no node becomes a click target. The
/// topmost hit node is the first one scanned.
pub proof fn lemma_absorbing_node_hides_below(rects: Seq<ClickRect>, hits: Seq<bool>, j: int, k: int)
    requires
        hits.len() == rects.len(),
        0 <= k < j < rects.len(),
        hits[j],
        rects[j].absorbs_mouse_events,
    ensures
        rects[j].senses.spec_contains(Sense { bits: 2 }) && !rects[k].senses.spec_contains(Sense { bits: 16 })
            ==> press_scan_from(rects, hits, k).drag_ids == press_scan_from(rects, hits, k + 1).drag_ids,
        rects[j].senses.spec_contains(Sense { bits: 2 }) && rects[j].senses.spec_contains(Sense { bits: 16 })
            ==> press_scan_from(rects, hits, k).drag_ids == press_scan_from(rects, hits, k + 1).drag_ids,
        rects[j].senses.spec_contains(Sense { bits: 1 })
            ==> press_scan_from(rects, hits, k).click_ids == press_scan_from(rects, hits, k + 1).click_ids,
        press_scan_from(rects, hits, k).topmost == press_scan_from(rects, hits, k + 1).topmost,
{
    lemma_absorbed_below(rects, hits, j, k + 1);
    lemma_topmost_set(rects, hits, j, k + 1);
}

/// After a hit node has been scanned, the topmost node is known.
proof fn lemma_topmost_set(rects: Seq<ClickRect>, hits: Seq<bool>, j: int, k: int)
    requires
        hits.len() == rects.len(),
        0 <= k <= j < rects.len(),
        hits[j],
    ensures
        press_scan_from(rects, hits, k).topmost is Some,
    decreases j - k,
{
    if k < j {
        lemma_topmost_set(rects, hits, j, k + 1);
    }
}

/// A node becomes a drag target only if it is hit and senses drags or
/// holds, and a click target only if it is hit and senses clicks; the drag
/// targets never repeat an id.
pub proof fn lemma_press_targets_sense(rects: Seq<ClickRect>, hits: Seq<bool>, k: int)
    requires
        hits.len() == rects.len(),
        0 <= k < rects.len(),
    ensures
        press_scan_from(rects, hits, k).click_ids != press_scan_from(rects, hits, k + 1).click_ids
            ==> hits[k] && rects[k].senses.spec_contains(Sense { bits: 1 })
                && press_scan_from(rects, hits, k).click_ids == press_scan_from(rects, hits, k + 1).click_ids.push(rects[k].id),
        press_scan_from(rects, hits, k).drag_ids != press_scan_from(rects, hits, k + 1).drag_ids
            ==> hits[k] && (rects[k].senses.spec_contains(Sense { bits: 2 }) || rects[k].senses.spec_contains(Sense { bits: 16 }))
                && !press_scan_from(rects, hits, k + 1).drag_ids.contains(rects[k].id)
                && press_scan_from(rects, hits, k).drag_ids == press_scan_from(rects, hits, k + 1).drag_ids.push(rects[k].id),
{
}

/// Every drag target was added by the scan step of a node with that id.
proof fn lemma_drag_ids_origin(rects: Seq<ClickRect>, hits: Seq<bool>, m: int, x: Id)
    requires
        hits.len() == rects.len(),
        0 <= m <= rects.len(),
        press_scan_from(rects, hits, m).drag_ids.contains(x),
    ensures
        exists|q: int| m <= q < rects.len() && #[trigger] rects[q].id == x
            && press_scan_from(rects, hits, q).drag_ids != press_scan_from(rects, hits, q + 1).drag_ids,
    decreases rects.len() - m,
{
    if m == rects.len() {
        assert(press_scan_from(rects, hits, m).drag_ids == Seq::<Id>::empty());
    } else {
        lemma_press_targets_sense(rects, hits, m);
        let cur = press_scan_from(rects, hits, m).drag_ids;
        let next = press_scan_from(rects, hits, m + 1).drag_ids;
        if cur == next {
            lemma_drag_ids_origin(rects, hits, m + 1, x);
            let q = choose|q: int| m + 1 <= q < rects.len() && #[trigger] rects[q].id == x
                && press_scan_from(rects, hits, q).drag_ids != press_scan_from(rects, hits, q + 1).drag_ids;
            assert(rects[q].id == x);
        } else {
            assert(cur == next.push(rects[m].id));
            if rects[m].id == x {
                assert(rects[m].id == x);
            } else {
                let k = choose|k: int| 0 <= k < cur.len() && cur[k] == x;
                assert(k < next.len());
                assert(next[k] == x);
                lemma_drag_ids_origin(rects, hits, m + 1, x);
                let q = choose|q: int| m + 1 <= q < rects.len() && #[trigger] rects[q].id == x
                    && press_scan_from(rects, hits, q).drag_ids != press_scan_from(rects, hits, q + 1).drag_ids;
                assert(rects[q].id == x);
            }
        }
    }
}

/// On nodes with distinct ids, a node that senses drags but not holds and
/// lies below a hit node that absorbs mouse events and senses drags is never
/// a drag target of the press: the absorbing node hides it.
pub proof fn lemma_absorbing_drag_hides_below(rects: Seq<ClickRect>, hits: Seq<bool>, j: int, k: int)
    requires
        hits.len() == rects.len(),
        0 <= k < j < rects.len(),
        forall|a: int, b: int| 0 <= a < b < rects.len() ==> rects[a].id != rects[b].id,
        hits[j],
        rects[j].absorbs_mouse_events,
        rects[j].senses.spec_contains(Sense { bits: 2 }),
        !rects[k].senses.spec_contains(Sense { bits: 16 }),
    ensures
        !press_scan_from(rects, hits, 0).drag_ids.contains(rects[k].id),
{
    lemma_absorbing_node_hides_below(rects, hits, j, k);
    if press_scan_from(rects, hits, 0).drag_ids.contains(rects[k].id) {
        lemma_drag_ids_origin(rects, hits, 0, rects[k].id);
        let q = choose|q: int| 0 <= q < rects.len() && #[trigger] rects[q].id == rects[k].id
            && press_scan_from(rects, hits, q).drag_ids != press_scan_from(rects, hits, q + 1).drag_ids;
        assert(q == k);
    }
}

/// The topmost node of a scan is the hit node drawn last, if any is hit.
pub proof fn lemma_topmost_is_last_hit(rects: Seq<ClickRect>, hits: Seq<bool>, k: int)
    requires
        hits.len() == rects.len(),
        0 <= k <= rects.len(),
    ensures
        (forall|q: int| k <= q < rects.len() ==> !#[trigger] hits[q]) ==> press_scan_from(rects, hits, k).topmost is None,
        press_scan_from(rects, hits, k).topmost matches Some(t) ==> exists|q: int| k <= q < rects.len() && #[trigger] hits[q]
            && rects[q].id == t && forall|p: int| q < p < rects.len() ==> !#[trigger] hits[p],
        (exists|q: int| k <= q < rects.len() && #[trigger] hits[q]) ==> press_scan_from(rects, hits, k).topmost is Some,
    decreases rects.len() - k,
{
    if k < rects.len() {
        lemma_topmost_is_last_hit(rects, hits, k + 1);
        if exists|q: int| k <= q < rects.len() && #[trigger] hits[q] {
            let q = choose|q: int| k <= q < rects.len() && #[trigger] hits[q];
            if q > k {
                assert(hits[q]);
            }
        }
        if press_scan_from(rects, hits, k + 1).topmost is None && hits[k] {
            assert forall|p: int| k < p < rects.len() implies !#[trigger] hits[p] by {
                if hits[p] {
                    assert(exists|q: int| k + 1 <= q < rects.len() && #[trigger] hits[q]);
                }
            }
        }
    }
}

/// Every click target was added by the scan step of a node with that id.
proof fn lemma_click_ids_origin(rects: Seq<ClickRect>, hits: Seq<bool>, m: int, x: Id)
    requires
        hits.len() == rects.len(),
        0 <= m <= rects.len(),
        press_scan_from(rects, hits, m).click_ids.contains(x),
    ensures
        exists|q: int| m <= q < rects.len() && #[trigger] rects[q].id == x
            && press_scan_from(rects, hits, q).click_ids != press_scan_from(rects, hits, q + 1).click_ids,
    decreases rects.len() - m,
{
    if m == rects.len() {
        assert(press_scan_from(rects, hits, m).click_ids == Seq::<Id>::empty());
    } else {
        lemma_press_targets_sense(rects, hits, m);
        let cur = press_scan_from(rects, hits, m).click_ids;
        let next = press_scan_from(rects, hits, m + 1).click_ids;
        if cur == next {
            lemma_click_ids_origin(rects, hits, m + 1, x);
            let q = choose|q: int| m + 1 <= q < rects.len() && #[trigger] rects[q].id == x
                && press_scan_from(rects, hits, q).click_ids != press_scan_from(rects, hits, q + 1).click_ids;
            assert(rects[q].id == x);
        } else {
            assert(cur == next.push(rects[m].id));
            if rects[m].id != x {
                let k = choose|k: int| 0 <= k < cur.len() && cur[k] == x;
                assert(k < next.len());
                assert(next[k] == x);
                lemma_click_ids_origin(rects, hits, m + 1, x);
                let q = choose|q: int| m + 1 <= q < rects.len() && #[trigger] rects[q].id == x
                    && press_scan_from(rects, hits, q).click_ids != press_scan_from(rects, hits, q + 1).click_ids;
                assert(rects[q].id == x);
            }
        }
    }
}

/// On nodes with distinct ids, a node below a hit node that absorbs mouse
/// events and senses clicks is never a click target of the press; and every
/// click target is a hit node that senses clicks.
pub proof fn lemma_absorbing_click_hides_below(rects: Seq<ClickRect>, hits: Seq<bool>, j: int, k: int)
    requires
        hits.len() == rects.len(),
        0 <= k < j < rects.len(),
        forall|a: int, b: int| 0 <= a < b < rects.len() ==> rects[a].id != rects[b].id,
        hits[j],
        rects[j].absorbs_mouse_events,
        rects[j].senses.spec_contains(Sense { bits: 1 }),
    ensures
        !press_scan_from(rects, hits, 0).click_ids.contains(rects[k].id),
{
    lemma_absorbing_node_hides_below(rects, hits, j, k);
    if press_scan_from(rects, hits, 0).click_ids.contains(rects[k].id) {
        lemma_click_ids_origin(rects, hits, 0, rects[k].id);
        let q = choose|q: int| 0 <= q < rects.len() && #[trigger] rects[q].id == rects[k].id
            && press_scan_from(rects, hits, q).click_ids != press_scan_from(rects, hits, q + 1).click_ids;
        assert(q == k);
    }
}

/// Every click target of a press is a hit node that senses clicks, and every
/// drag target a hit node that senses drags or holds.
pub proof fn lemma_press_targets_are_hit(rects: Seq<ClickRect>, hits: Seq<bool>, x: Id)
    requires
        hits.len() == rects.len(),
    ensures
        press_scan_from(rects, hits, 0).click_ids.contains(x) ==> exists|q: int| 0 <= q < rects.len() && #[trigger] rects[q].id == x
            && hits[q] && rects[q].senses.spec_contains(Sense { bits: 1 }),
        press_scan_from(rects, hits, 0).drag_ids.contains(x) ==> exists|q: int| 0 <= q < rects.len() && #[trigger] rects[q].id == x
            && hits[q] && (rects[q].senses.spec_contains(Sense { bits: 2 }) || rects[q].senses.spec_contains(Sense { bits: 16 })),
{
    if press_scan_from(rects, hits, 0).click_ids.contains(x) {
        lemma_click_ids_origin(rects, hits, 0, x);
        let q = choose|q: int| 0 <= q < rects.len() && #[trigger] rects[q].id == x
            && press_scan_from(rects, hits, q).click_ids != press_scan_from(rects, hits, q + 1).click_ids;
        lemma_press_targets_sense(rects, hits, q);
    }
    if press_scan_from(rects, hits, 0).drag_ids.contains(x) {
        lemma_drag_ids_origin(rects, hits, 0, x);
        let q = choose|q: int| 0 <= q < rects.len() && #[trigger] rects[q].id == x
            && press_scan_from(rects, hits, q).drag_ids != press_scan_from(rects, hits, q + 1).drag_ids;
        lemma_press_targets_sense(rects, hits, q);
    }
}

/// The result of a mouse-press hit scan.
pub struct PressHits {
    /// The hit nodes that sense clicks and are not hidden by an absorbing clickable node above.
    pub click_ids: Targets,
    /// The hit nodes that sense drags or holds and are not hidden, without repeats.
    pub drag_ids: Targets,
    /// The topmost hit node, whatever its senses.
    pub topmost: Option<Id>,
}

/// Scans the rectangles from the topmost down for a mouse press: collects
/// the click targets, the drag targets and the topmost hit node. An absorbing
/// node hides the nodes below it from each kind of event it senses.
pub fn scan_press_hits(rects: &Vec<ClickRect>, hits: &Vec<bool>) -> (r: PressHits)
    requires
        hits@.len() == rects@.len(),
    ensures
        targets_seq(r.click_ids) == press_scan_from(rects@, hits@, 0).click_ids,
        targets_seq(r.drag_ids) == press_scan_from(rects@, hits@, 0).drag_ids,
        r.topmost == press_scan_from(rects@, hits@, 0).topmost,
        (forall|a: int, b: int| 0 <= a < b < rects@.len() ==> rects@[a].id != rects@[b].id) ==>
            forall|j: int, k: int| 0 <= k < j < rects@.len() && hits@[j] && #[trigger] rects@[j].absorbs_mouse_events
                && rects@[j].senses.spec_contains(Sense { bits: 2 }) && !#[trigger] rects@[k].senses.spec_contains(Sense { bits: 16 })
                ==> !targets_seq(r.drag_ids).contains(rects@[k].id),
        (forall|a: int, b: int| 0 <= a < b < rects@.len() ==> rects@[a].id != rects@[b].id) ==>
            forall|j: int, k: int| #![trigger rects@[j].absorbs_mouse_events, rects@[k].id] 0 <= k < j < rects@.len() && hits@[j] && rects@[j].absorbs_mouse_events
                && rects@[j].senses.spec_contains(Sense { bits: 1 })
                ==> !targets_seq(r.click_ids).contains(rects@[k].id),
        (forall|q: int| 0 <= q < rects@.len() ==> !#[trigger] hits@[q]) ==> r.topmost is None,
        r.topmost matches Some(t) ==> exists|q: int| 0 <= q < rects@.len() && #[trigger] hits@[q]
            && rects@[q].id == t && forall|p: int| q < p < rects@.len() ==> !#[trigger] hits@[p],
        (exists|q: int| 0 <= q < rects@.len() && #[trigger] hits@[q]) ==> r.topmost is Some,
        forall|x: Id| #[trigger] targets_seq(r.click_ids).contains(x) ==> exists|q: int| 0 <= q < rects@.len()
            && #[trigger] rects@[q].id == x && hits@[q] && rects@[q].senses.spec_contains(Sense { bits: 1 }),
        forall|x: Id| #[trigger] targets_seq(r.drag_ids).contains(x) ==> exists|q: int| 0 <= q < rects@.len()
            && #[trigger] rects@[q].id == x && hits@[q]
            && (rects@[q].senses.spec_contains(Sense { bits: 2 }) || rects@[q].senses.spec_contains(Sense { bits: 16 })),
{
    let n = rects.len();
    let mut click_ids = targets_new();
    let mut drag_ids = targets_new();
    let mut topmost: Option<Id> = None;
    let mut click_absorbed = false;
    let mut drag_absorbed = false;
    let mut hold_absorbed = false;
    let mut i: usize = n;
    while i > 0
        invariant
            n == rects@.len(),
            hits@.len() == n,
            i <= n,
            ({
                let st = press_scan_from(rects@, hits@, i as int);
                &&& targets_seq(click_ids) == st.click_ids
                &&& targets_seq(drag_ids) == st.drag_ids
                &&& topmost == st.topmost
                &&& click_absorbed == st.click_absorbed
                &&& drag_absorbed == st.drag_absorbed
                &&& hold_absorbed == st.hold_absorbed
            }),
        decreases i,
    {
        i = i - 1;
        let rect = rects[i];
        if hits[i] {
            let id = rect.id;
            if topmost.is_none() {
                topmost = Some(id);
            }
            let click = rect.senses.contains(Sense::click());
            let drag = rect.senses.contains(Sense::drag());
            let hold = rect.senses.contains(Sense::hold());
            if !click_absorbed && click {
                targets_push(&mut click_ids, id);
            }
            if ((!drag_absorbed && drag) || (!hold_absorbed && hold)) && !targets_contains(&drag_ids, id) {
                targets_push(&mut drag_ids, id);
            }
            if rect.absorbs_mouse_events {
                if click {
                    click_absorbed = true;
                }
                if drag {
                    drag_absorbed = true;
                }
                if hold {
                    hold_absorbed = true;
                }
            }
        }
    }
    proof {
        if forall|a: int, b: int| 0 <= a < b < rects@.len() ==> rects@[a].id != rects@[b].id {
            assert forall|j: int, k: int| 0 <= k < j < rects@.len() && hits@[j] && #[trigger] rects@[j].absorbs_mouse_events
                && rects@[j].senses.spec_contains(Sense { bits: 2 }) && !#[trigger] rects@[k].senses.spec_contains(Sense { bits: 16 })
                implies !press_scan_from(rects@, hits@, 0).drag_ids.contains(rects@[k].id) by {
                lemma_absorbing_drag_hides_below(rects@, hits@, j, k);
            }
            assert forall|j: int, k: int| #![trigger rects@[j].absorbs_mouse_events, rects@[k].id] 0 <= k < j < rects@.len() && hits@[j] && rects@[j].absorbs_mouse_events
                && rects@[j].senses.spec_contains(Sense { bits: 1 })
                implies !press_scan_from(rects@, hits@, 0).click_ids.contains(rects@[k].id) by {
                lemma_absorbing_click_hides_below(rects@, hits@, j, k);
            }
        }
        lemma_topmost_is_last_hit(rects@, hits@, 0);
        assert forall|x: Id| #[trigger] press_scan_from(rects@, hits@, 0).click_ids.contains(x) implies exists|q: int| 0 <= q < rects@.len()
            && #[trigger] rects@[q].id == x && hits@[q] && rects@[q].senses.spec_contains(Sense { bits: 1 }) by {
            lemma_press_targets_are_hit(rects@, hits@, x);
        }
        assert forall|x: Id| #[trigger] press_scan_from(rects@, hits@, 0).drag_ids.contains(x) implies exists|q: int| 0 <= q < rects@.len()
            && #[trigger] rects@[q].id == x && hits@[q]
            && (rects@[q].senses.spec_contains(Sense { bits: 2 }) || rects@[q].senses.spec_contains(Sense { bits: 16 })) by {
            lemma_press_targets_are_hit(rects@, hits@, x);
        }
    }
    PressHits { click_ids, drag_ids, topmost }
}

impl Nodes {
    /// The input-related data of node `i`, for a hit scan.
    pub fn click_rect(&self, i: NodeI) -> (r: ClickRect)
        requires
            self.contains(i),
        ensures
            r.i == i,
            r.id == self.node(i).id,
            r.senses == self.node(i).params.interact.senses,
            r.scrollable == self.node(i).params.scrollable,
            r.absorbs_mouse_events == self.node(i).params.interact.absorbs_mouse_events,
    {
        let node = self.get(i);
        ClickRect {
            i,
            id: node.id,
            senses: node.params.interact.senses,
            scrollable: node.params.scrollable,
            absorbs_mouse_events: node.params.interact.absorbs_mouse_events,
        }
    }
}

} // verus!
