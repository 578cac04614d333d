use vstd::prelude::*;
use crate::ids::NodeI;
use crate::math::{Axis, Xy};
use crate::nodes::{Nodes, InnerNode, tree_wf, node_wf};

verus! {

/// Walking up from `cursor`, the next sibling of the nearest node (itself
/// first) that has one, stopping below the root. `fuel` bounds the walk; the
/// node's depth is always enough.
pub open spec fn next_up(m: Map<usize, InnerNode>, cursor: usize, fuel: nat) -> Option<usize>
    decreases fuel,
{
    if fuel == 0 {
        None
    } else {
        match m[cursor].next_sibling {
            Some(s) => Some(s.index()),
            None => {
                let p = m[cursor].parent.index();
                if p == 1 {
                    None
                } else {
                    next_up(m, p, (fuel - 1) as nat)
                }
            },
        }
    }
}

/// The node after `i` in depth-first order, if any.
pub open spec fn next_in_order(m: Map<usize, InnerNode>, i: usize) -> Option<usize> {
    match m[i].first_child {
        Some(c) => Some(c.index()),
        None => next_up(m, i, m[i].depth as nat),
    }
}

/// Following last children down from `i`, at most `fuel` steps.
pub open spec fn deepest_last(m: Map<usize, InnerNode>, i: usize, fuel: nat) -> usize
    decreases fuel,
{
    if fuel == 0 {
        i
    } else {
        match m[i].last_child {
            Some(c) => deepest_last(m, c.index(), (fuel - 1) as nat),
            None => i,
        }
    }
}

/// The deepest last descendant of `i` (`i` itself if it has no children).
pub open spec fn deepest(m: Map<usize, InnerNode>, i: usize) -> usize {
    deepest_last(m, i, (usize::MAX - m[i].depth) as nat)
}

/// The node before `i` in depth-first order, if any (the root is not part of the order).
pub open spec fn prev_in_order(m: Map<usize, InnerNode>, i: usize) -> Option<usize> {
    match m[i].prev_sibling {
        Some(s) => Some(deepest(m, s.index())),
        None => if m[i].parent.index() == 1 { None } else { Some(m[i].parent.index()) },
    }
}

/// The first node of the tree in depth-first order.
pub open spec fn first_in_order(m: Map<usize, InnerNode>) -> Option<usize> {
    match m[1].first_child {
        Some(c) => Some(c.index()),
        None => None,
    }
}

/// The last node of the tree in depth-first order.
pub open spec fn last_in_order(m: Map<usize, InnerNode>) -> Option<usize> {
    match m[1].last_child {
        Some(c) => Some(deepest(m, c.index())),
        None => None,
    }
}

/// Walking up from `i`, the first node that senses scrolling (`true`) or
/// scrolls its content along `axis` (`false`), stopping below the root.
pub open spec fn scroll_target(m: Map<usize, InnerNode>, i: usize, axis: Axis, fuel: nat) -> Option<(usize, bool)>
    decreases fuel,
{
    if fuel == 0 {
        None
    } else if m[i].params.interact.senses.spec_contains(crate::sense::Sense { bits: 8 }) {
        Some((i, true))
    } else if m[i].params.scrollable.at(axis) {
        Some((i, false))
    } else {
        let p = m[i].parent.index();
        if p == 1 {
            None
        } else {
            scroll_target(m, p, axis, (fuel - 1) as nat)
        }
    }
}

/// The index of an optional node, as an optional slot.
pub open spec fn slot_of(i: Option<NodeI>) -> Option<usize> {
    match i {
        Some(n) => Some(n.index()),
        None => None,
    }
}

/// A non-root node is at least one level deep and its parent is a node of the tree.
proof fn lemma_parent(m: Map<usize, InnerNode>, k: usize)
    requires
        tree_wf(m),
        m.dom().contains(k),
        k >= 2,
    ensures
        m[k].depth >= 1,
        m.dom().contains(m[k].parent.index()),
        m[k].parent.index() >= 1,
        m[m[k].parent.index()].depth + 1 == m[k].depth,
        m[k].parent.index() >= 2 ==> m[m[k].parent.index()].depth >= 1,
{
    assert(node_wf(m, k));
    let p = m[k].parent.index();
    if p >= 2 {
        assert(node_wf(m, p));
    }
}

/// The scroll target along `axis` for a scroll over node `i`: the root is
/// checked on its own, other nodes walk up.
pub open spec fn scroll_target_of(m: Map<usize, InnerNode>, i: usize, axis: Axis) -> Option<(usize, bool)> {
    if i == 1 {
        if m[1].params.interact.senses.spec_contains(crate::sense::Sense { bits: 8 }) {
            Some((1usize, true))
        } else if m[1].params.scrollable.at(axis) {
            Some((1usize, false))
        } else {
            None
        }
    } else {
        scroll_target(m, i, axis, m[i].depth as nat)
    }
}

/// Where a scroll over node `i` goes, for the axes that move: one entry per
/// target node, with whether it senses scrolling and the axes it receives;
/// the target of the X axis comes first.
pub open spec fn scroll_routes_spec(m: Map<usize, InnerNode>, i: usize, moves: Xy<bool>) -> Seq<(usize, bool, Xy<bool>)> {
    let tx = if moves.x { scroll_target_of(m, i, Axis::X) } else { None };
    let ty = if moves.y { scroll_target_of(m, i, Axis::Y) } else { None };
    match (tx, ty) {
        (None, None) => Seq::empty(),
        (Some(a), None) => seq![(a.0, a.1, Xy { x: true, y: false })],
        (None, Some(b)) => seq![(b.0, b.1, Xy { x: false, y: true })],
        (Some(a), Some(b)) => if a.0 == b.0 {
            seq![(a.0, a.1, Xy { x: true, y: true })]
        } else {
            seq![(a.0, a.1, Xy { x: true, y: false }), (b.0, b.1, Xy { x: false, y: true })]
        },
    }
}

pub open spec fn route_view(e: (NodeI, bool, Xy<bool>)) -> (usize, bool, Xy<bool>) {
    (e.0.index(), e.1, e.2)
}

impl Nodes {
    /// The first node of the tree in depth-first order (the root's first child).
    pub fn first_node(&self) -> (r: Option<NodeI>)
        requires
            self.wf(),
        ensures
            slot_of(r) == first_in_order(self.map()),
            r matches Some(c) ==> self.contains(c) && c.index() >= 2,
    {
        let root = self.get(crate::ids::root_i());
        proof {
            assert(node_wf(self.map(), 1));
        }
        root.first_child
    }

    /// The deepest last descendant of `i`.
    pub fn deepest_last_descendant(&self, i: NodeI) -> (r: NodeI)
        requires
            self.wf(),
            self.contains(i),
        ensures
            r.index() == deepest(self.map(), i.index()),
            self.contains(r),
            i.index() >= 2 ==> r.index() >= 2,
    {
        let ghost m = self.map();
        let mut cursor = i;
        loop
            invariant
                self.wf(),
                m == self.map(),
                self.contains(cursor),
                deepest_last(m, cursor.index(), (usize::MAX - m[cursor.index()].depth) as nat) == deepest(m, i.index()),
                i.index() >= 2 ==> cursor.index() >= 2,
            decreases usize::MAX - m[cursor.index()].depth,
        {
            let node = self.get(cursor);
            proof {
                assert(node_wf(m, cursor.index()));
            }
            match node.last_child {
                Some(child) => {
                    proof {
                        assert(node_wf(m, child.index()));
                        assert(m[child.index()].depth == m[cursor.index()].depth + 1);
                    }
                    cursor = child;
                },
                None => {
                    return cursor;
                },
            }
        }
    }

    /// The last node of the tree in depth-first order (the deepest last descendant).
    pub fn last_node(&self) -> (r: Option<NodeI>)
        requires
            self.wf(),
        ensures
            slot_of(r) == last_in_order(self.map()),
            r matches Some(c) ==> self.contains(c) && c.index() >= 2,
    {
        let root = self.get(crate::ids::root_i());
        proof {
            assert(node_wf(self.map(), 1));
        }
        match root.last_child {
            Some(c) => Some(self.deepest_last_descendant(c)),
            None => None,
        }
    }

    /// The node after `i` in depth-first order: its first child, or else the
    /// next sibling of the nearest node (itself first) that has one.
    pub fn next_node(&self, i: NodeI) -> (r: Option<NodeI>)
        requires
            self.wf(),
            self.contains(i),
        ensures
            slot_of(r) == next_in_order(self.map(), i.index()),
            r matches Some(c) ==> self.contains(c) && c.index() >= 2,
    {
        let ghost m = self.map();
        let node = self.get(i);
        proof {
            assert(node_wf(m, i.index()));
        }
        if let Some(child) = node.first_child {
            return Some(child);
        }
        if i.as_usize() == 1 {
            // The root has no parent to climb to and no siblings.
            proof {
                assert(m[1].depth == 0);
            }
            return None;
        }
        proof {
            lemma_parent(m, i.index());
        }
        let mut cursor = i;
        loop
            invariant
                self.wf(),
                m == self.map(),
                self.contains(cursor),
                cursor.index() >= 2,
                next_up(m, cursor.index(), m[cursor.index()].depth as nat) == next_in_order(m, i.index()),
            decreases m[cursor.index()].depth,
        {
            let cn = self.get(cursor);
            proof {
                assert(node_wf(m, cursor.index()));
                lemma_parent(m, cursor.index());
            }
            if let Some(sibling) = cn.next_sibling {
                return Some(sibling);
            }
            let parent = cn.parent;
            if parent.as_usize() == 1 {
                return None;
            }
            cursor = parent;
        }
    }

    /// The node before `i` in depth-first order: the deepest last descendant
    /// of its previous sibling, or else its parent (unless that is the root).
    pub fn prev_node(&self, i: NodeI) -> (r: Option<NodeI>)
        requires
            self.wf(),
            self.contains(i),
        ensures
            slot_of(r) == prev_in_order(self.map(), i.index()),
            r matches Some(c) ==> self.contains(c) && c.index() >= 2,
    {
        let ghost m = self.map();
        let node = self.get(i);
        proof {
            assert(node_wf(m, i.index()));
        }
        if let Some(sibling) = node.prev_sibling {
            return Some(self.deepest_last_descendant(sibling));
        }
        let parent = node.parent;
        if parent.as_usize() == 1 {
            return None;
        }
        proof {
            if i.index() >= 2 {
                lemma_parent(m, i.index());
            } else {
                assert(m[1].parent.index() == 1);
            }
        }
        Some(parent)
    }

    /// Walks up from `starting_i` to the node that should receive a scroll
    /// along `axis`: the first that senses scrolling (reported with `true`) or
    /// that scrolls its content along the axis (reported with `false`).
    pub fn find_scroll_target(&self, starting_i: NodeI, axis: Axis) -> (r: Option<(NodeI, bool)>)
        requires
            self.wf(),
            self.contains(starting_i),
            starting_i.index() >= 2,
        ensures
            match r {
                Some((n, b)) => scroll_target(self.map(), starting_i.index(), axis, self.map()[starting_i.index()].depth as nat) == Some((n.index(), b)),
                None => scroll_target(self.map(), starting_i.index(), axis, self.map()[starting_i.index()].depth as nat) is None,
            },
    {
        let ghost m = self.map();
        let mut current_i = starting_i;
        proof {
            lemma_parent(m, starting_i.index());
        }
        loop
            invariant
                self.wf(),
                m == self.map(),
                self.contains(current_i),
                current_i.index() >= 2,
                scroll_target(m, current_i.index(), axis, m[current_i.index()].depth as nat)
                    == scroll_target(m, starting_i.index(), axis, m[starting_i.index()].depth as nat),
            decreases m[current_i.index()].depth,
        {
            let node = self.get(current_i);
            proof {
                lemma_parent(m, current_i.index());
            }
            if node.params.interact.senses.contains(crate::sense::Sense::scroll()) {
                return Some((current_i, true));
            }
            if node.params.scrollable.get(axis) {
                return Some((current_i, false));
            }
            let parent_i = node.parent;
            if parent_i.as_usize() == 1 {
                return None;
            }
            current_i = parent_i;
        }
    }

    fn scroll_target_along(&self, i: NodeI, axis: Axis) -> (r: Option<(NodeI, bool)>)
        requires
            self.wf(),
            self.contains(i),
        ensures
            match r {
                Some((n, b)) => scroll_target_of(self.map(), i.index(), axis) == Some((n.index(), b)),
                None => scroll_target_of(self.map(), i.index(), axis) is None,
            },
    {
        if i.as_usize() == 1 {
            let node = self.get(i);
            if node.params.interact.senses.contains(crate::sense::Sense::scroll()) {
                Some((i, true))
            } else if node.params.scrollable.get(axis) {
                Some((i, false))
            } else {
                None
            }
        } else {
            self.find_scroll_target(i, axis)
        }
    }

    /// Where a scroll over node `i` goes, for the axes that move (see
    /// [`Nodes::find_scroll_target`]): one entry per target node, with
    /// whether it senses scrolling and the axes it receives.
    pub fn scroll_routes(&self, i: NodeI, moves: Xy<bool>) -> (r: Vec<(NodeI, bool, Xy<bool>)>)
        requires
            self.wf(),
            self.contains(i),
        ensures
            r@.map_values(|e: (NodeI, bool, Xy<bool>)| route_view(e)) == scroll_routes_spec(self.map(), i.index(), moves),
    {
        let tx = if moves.x { self.scroll_target_along(i, Axis::X) } else { None };
        let ty = if moves.y { self.scroll_target_along(i, Axis::Y) } else { None };
        let mut out: Vec<(NodeI, bool, Xy<bool>)> = Vec::new();
        match tx {
            Some((a, sa)) => {
                match ty {
                    Some((b, sb)) => {
                        if a.as_usize() == b.as_usize() {
                            out.push((a, sa, Xy::new(true, true)));
                        } else {
                            out.push((a, sa, Xy::new(true, false)));
                            out.push((b, sb, Xy::new(false, true)));
                        }
                    }
                    None => out.push((a, sa, Xy::new(true, false))),
                }
            }
            None => {
                match ty {
                    Some((b, sb)) => out.push((b, sb, Xy::new(false, true))),
                    None => {}
                }
            }
        }
        proof {
            assert(out@.map_values(|e: (NodeI, bool, Xy<bool>)| route_view(e)) =~= scroll_routes_spec(self.map(), i.index(), moves));
        }
        out
    }

}

} // verus!
