use vstd::prelude::*;
use crate::ids::NodeI;
use crate::nodes::{InnerNode, link_ok, tree_wf, node_wf};
use crate::ui::{Ui, AccessKitAction, accessible_actions_spec};

verus! {

/// The children the accessibility tree shows, by slot: the chain that starts
/// at `c` and follows next-sibling links, at most `fuel` links long, without
/// the children that are playing their exit animation.
pub open spec fn visible_chain(m: Map<usize, InnerNode>, c: Option<NodeI>, fuel: nat) -> Seq<usize>
    decreases fuel,
{
    if fuel == 0 {
        Seq::empty()
    } else {
        match c {
            None => Seq::empty(),
            Some(x) => {
                let rest = visible_chain(m, m[x.index()].next_sibling, (fuel - 1) as nat);
                if m[x.index()].exiting { rest } else { seq![x.index()].add(rest) }
            },
        }
    }
}

/// The accessibility entry of the node in slot `k`: its accessibility id
/// (the window's id 0 for the root, the node's id otherwise), the ids of its
/// visible children, and the actions it offers.
pub open spec fn access_entry(m: Map<usize, InnerNode>, k: usize, fuel: nat) -> (u64, Seq<u64>, Seq<AccessKitAction>) {
    (
        if k == 1 { 0u64 } else { m[k].id.0 },
        visible_chain(m, m[k].first_child, fuel).map_values(|c: usize| m[c].id.0),
        accessible_actions_spec(m, k, Seq::empty()),
    )
}

/// The accessibility entries of the subtree of slot `k`, parent before
/// children, descending at most `fuel` levels.
pub open spec fn access_preorder(m: Map<usize, InnerNode>, k: usize, fuel: nat) -> Seq<(u64, Seq<u64>, Seq<AccessKitAction>)>
    decreases fuel, 0nat,
{
    if fuel == 0 {
        seq![access_entry(m, k, fuel)]
    } else {
        seq![access_entry(m, k, fuel)].add(access_forest(m, visible_chain(m, m[k].first_child, fuel), (fuel - 1) as nat))
    }
}

/// The accessibility entries of the subtrees of the slots `cs`, in order.
pub open spec fn access_forest(m: Map<usize, InnerNode>, cs: Seq<usize>, fuel: nat) -> Seq<(u64, Seq<u64>, Seq<AccessKitAction>)>
    decreases fuel, cs.len(),
{
    if cs.len() == 0 {
        Seq::empty()
    } else {
        access_forest(m, cs.drop_last(), fuel).add(access_preorder(m, cs.last(), fuel))
    }
}

/// An accessibility entry as plain values.
pub open spec fn entry_view(e: (u64, Vec<u64>, Vec<AccessKitAction>)) -> (u64, Seq<u64>, Seq<AccessKitAction>) {
    (e.0, e.1@, e.2@)
}

/// The children in a visible chain are real nodes of the tree.
proof fn lemma_visible_chain_in_tree(m: Map<usize, InnerNode>, c: Option<NodeI>, fuel: nat)
    requires
        tree_wf(m),
        link_ok(m, c),
    ensures
        forall|j: int| 0 <= j < visible_chain(m, c, fuel).len() ==> {
            let x = #[trigger] visible_chain(m, c, fuel)[j];
            m.dom().contains(x) && x >= 2
        },
    decreases fuel,
{
    if fuel > 0 {
        if let Some(x) = c {
            assert(node_wf(m, x.index()));
            let rest = visible_chain(m, m[x.index()].next_sibling, (fuel - 1) as nat);
            lemma_visible_chain_in_tree(m, m[x.index()].next_sibling, (fuel - 1) as nat);
            let ch = visible_chain(m, c, fuel);
            if !m[x.index()].exiting {
                assert(ch == seq![x.index()].add(rest));
                assert forall|j: int| 0 <= j < ch.len() implies m.dom().contains(#[trigger] ch[j]) && ch[j] >= 2 by {
                    if j > 0 {
                        assert(ch[j] == rest[j - 1]);
                    }
                }
            }
        }
    }
}

/// The children the accessibility tree shows are children of the node, and
/// none of them is exiting.
pub proof fn lemma_visible_children(m: Map<usize, InnerNode>, k: usize, fuel: nat)
    requires
        tree_wf(m),
        m.dom().contains(k),
        k >= 1,
    ensures
        forall|j: int| 0 <= j < visible_chain(m, m[k].first_child, fuel).len() ==> {
            let x = #[trigger] visible_chain(m, m[k].first_child, fuel)[j];
            &&& m.dom().contains(x)
            &&& m[x].parent.index() == k
            &&& !m[x].exiting
        },
{
    assert(node_wf(m, k));
    lemma_chain_children(m, m[k].first_child, k, fuel);
}

proof fn lemma_chain_children(m: Map<usize, InnerNode>, c: Option<NodeI>, k: usize, fuel: nat)
    requires
        tree_wf(m),
        link_ok(m, c),
        c matches Some(x) ==> m[x.index()].parent.index() == k,
    ensures
        forall|j: int| 0 <= j < visible_chain(m, c, fuel).len() ==> {
            let x = #[trigger] visible_chain(m, c, fuel)[j];
            &&& m.dom().contains(x)
            &&& m[x].parent.index() == k
            &&& !m[x].exiting
        },
    decreases fuel,
{
    if fuel > 0 {
        if let Some(x) = c {
            assert(node_wf(m, x.index()));
            let next = m[x.index()].next_sibling;
            lemma_chain_children(m, next, k, (fuel - 1) as nat);
            let rest = visible_chain(m, next, (fuel - 1) as nat);
            let ch = visible_chain(m, c, fuel);
            if !m[x.index()].exiting {
                assert forall|j: int| 0 <= j < ch.len() implies {
                    let y = #[trigger] ch[j];
                    &&& m.dom().contains(y)
                    &&& m[y].parent.index() == k
                    &&& !m[y].exiting
                } by {
                    if j > 0 {
                        assert(ch[j] == rest[j - 1]);
                    }
                }
            }
        }
    }
}

impl<S: Copy, D: Copy> Ui<S, D> {
    /// The visible children of a node, by index, from its child `c` on.
    fn visible_children(&self, c: Option<NodeI>, fuel: usize) -> (r: Vec<NodeI>)
        requires
            self.wf(),
            link_ok(self.nodes.map(), c),
        ensures
            r@.map_values(|n: NodeI| n.index()) == visible_chain(self.nodes.map(), c, fuel as nat),
    {
        let ghost m = self.nodes.map();
        let mut r: Vec<NodeI> = Vec::new();
        let mut cursor = c;
        let mut left = fuel;
        while left > 0 && cursor.is_some()
            invariant
                self.wf(),
                m == self.nodes.map(),
                link_ok(m, cursor),
                left <= fuel,
                r@.map_values(|n: NodeI| n.index()) + visible_chain(m, cursor, left as nat) == visible_chain(m, c, fuel as nat),
            decreases left,
        {
            match cursor {
                None => {},
                Some(x) => {
                    let node = self.nodes.get(x);
                    proof {
                        assert(node_wf(m, x.index()));
                    }
                    let ghost before = r@;
                    if !node.exiting {
                        r.push(x);
                        proof {
                            assert(r@.map_values(|n: NodeI| n.index()) == before.map_values(|n: NodeI| n.index()).push(x.index()));
                            assert(r@.map_values(|n: NodeI| n.index()) + visible_chain(m, node.next_sibling, (left - 1) as nat)
                                =~= before.map_values(|n: NodeI| n.index()) + visible_chain(m, cursor, left as nat));
                        }
                    }
                    cursor = node.next_sibling;
                    left = left - 1;
                },
            }
        }
        proof {
            assert(visible_chain(m, cursor, left as nat) =~= Seq::<usize>::empty());
            assert(r@.map_values(|n: NodeI| n.index()) + Seq::<usize>::empty() =~= r@.map_values(|n: NodeI| n.index()));
        }
        r
    }

    fn push_access_subtree(&self, k: NodeI, fuel: usize, out: &mut Vec<(u64, Vec<u64>, Vec<AccessKitAction>)>)
        requires
            self.wf(),
            self.nodes.contains(k),
        ensures
            final(out)@.map_values(|e: (u64, Vec<u64>, Vec<AccessKitAction>)| entry_view(e))
                == old(out)@.map_values(|e: (u64, Vec<u64>, Vec<AccessKitAction>)| entry_view(e))
                    + access_preorder(self.nodes.map(), k.index(), fuel as nat),
        decreases fuel,
    {
        let ghost m = self.nodes.map();
        let node = self.nodes.get(k);
        proof {
            assert(node_wf(m, k.index()));
        }
        let children = self.visible_children(node.first_child, fuel);
        let mut child_ids: Vec<u64> = Vec::new();
        let mut j: usize = 0;
        while j < children.len()
            invariant
                self.wf(),
                m == self.nodes.map(),
                children@.map_values(|n: NodeI| n.index()) == visible_chain(m, node.first_child, fuel as nat),
                node == m[k.index()],
                self.nodes.contains(k),
                link_ok(m, node.first_child),
                j <= children@.len(),
                child_ids@ == children@.take(j as int).map_values(|n: NodeI| m[n.index()].id.0),
            decreases children@.len() - j,
        {
            let c = children[j];
            proof {
                lemma_visible_chain_in_tree(m, node.first_child, fuel as nat);
                assert(children@.map_values(|n: NodeI| n.index())[j as int] == c.index());
            }
            let cid = self.nodes.get(c).id.0;
            child_ids.push(cid);
            proof {
                assert(children@.take(j + 1) == children@.take(j as int).push(c));
                assert(child_ids@ =~= children@.take(j + 1).map_values(|n: NodeI| m[n.index()].id.0));
            }
            j = j + 1;
        }
        let actions = self.accessible_actions(k, &Vec::new());
        let id: u64 = if k.as_usize() == 1 { 0 } else { node.id.0 };
        let ghost o = out@.map_values(|e: (u64, Vec<u64>, Vec<AccessKitAction>)| entry_view(e));
        proof {
            assert(children@.take(children@.len() as int) == children@);
            assert(child_ids@ =~= visible_chain(m, node.first_child, fuel as nat).map_values(|c: usize| m[c].id.0));
        }
        out.push((id, child_ids, actions));
        proof {
            assert(out@.map_values(|e: (u64, Vec<u64>, Vec<AccessKitAction>)| entry_view(e)) =~= o.push(access_entry(m, k.index(), fuel as nat)));
        }
        if fuel == 0 {
            proof {
                assert(o.push(access_entry(m, k.index(), fuel as nat)) =~= o + seq![access_entry(m, k.index(), fuel as nat)]);
            }
            return;
        }
        let ghost cs = visible_chain(m, node.first_child, fuel as nat);
        let mut j: usize = 0;
        while j < children.len()
            invariant
                self.wf(),
                m == self.nodes.map(),
                fuel > 0,
                children@.map_values(|n: NodeI| n.index()) == cs,
                cs == visible_chain(m, m[k.index()].first_child, fuel as nat),
                node == m[k.index()],
                link_ok(m, node.first_child),
                j <= children@.len(),
                out@.map_values(|e: (u64, Vec<u64>, Vec<AccessKitAction>)| entry_view(e))
                    == o + seq![access_entry(m, k.index(), fuel as nat)] + access_forest(m, cs.take(j as int), (fuel - 1) as nat),
            decreases children@.len() - j,
        {
            let c = children[j];
            proof {
                lemma_visible_chain_in_tree(m, node.first_child, fuel as nat);
                assert(cs[j as int] == c.index());
                assert(m.dom().contains(c.index()) && c.index() >= 2);
            }
            let ghost before = out@.map_values(|e: (u64, Vec<u64>, Vec<AccessKitAction>)| entry_view(e));
            self.push_access_subtree(c, fuel - 1, out);
            proof {
                assert(cs.take(j + 1).drop_last() =~= cs.take(j as int));
                assert(cs.take(j + 1).last() == c.index());
                assert(access_forest(m, cs.take(j + 1), (fuel - 1) as nat)
                    == access_forest(m, cs.take(j as int), (fuel - 1) as nat) + access_preorder(m, c.index(), (fuel - 1) as nat));
            }
            j = j + 1;
        }
        proof {
            assert(cs.take(cs.len() as int) =~= cs);
            assert(children@.len() == cs.len());
            assert(access_preorder(m, k.index(), fuel as nat)
                == seq![access_entry(m, k.index(), fuel as nat)] + access_forest(m, cs, (fuel - 1) as nat));
            assert(o + seq![access_entry(m, k.index(), fuel as nat)] + access_forest(m, cs, (fuel - 1) as nat)
                =~= o + access_preorder(m, k.index(), fuel as nat));
        }
    }

    /// The accessibility tree of the subtree of node `i`, parent before
    /// children: for each node its accessibility id (the window's id 0 for the
    /// root), the ids of its children that are not exiting, and the actions it
    /// offers before the ones it declares. Exiting children are left out with
    /// their subtrees. Chains and depths are followed for at most as many
    /// steps as there are nodes, which a tree never exceeds.
    pub fn accessibility_nodes(&self, i: NodeI) -> (r: Vec<(u64, Vec<u64>, Vec<AccessKitAction>)>)
        requires
            self.wf(),
            self.nodes.contains(i),
        ensures
            r@.map_values(|e: (u64, Vec<u64>, Vec<AccessKitAction>)| entry_view(e))
                == access_preorder(self.nodes.map(), i.index(), self.nodes.map().dom().len()),
            r@.len() >= 1,
            r@[0].0 == (if i.index() == 1 { 0u64 } else { self.nodes.node(i).id.0 }),
            r@[0].2@ == accessible_actions_spec(self.nodes.map(), i.index(), Seq::empty()),
            forall|j: int| #![trigger r@[0].1@[j]] 0 <= j < r@[0].1@.len() ==> exists|c: usize| {
                &&& #[trigger] self.nodes.map().dom().contains(c)
                &&& self.nodes.map()[c].parent.index() == i.index()
                &&& !self.nodes.map()[c].exiting
                &&& self.nodes.map()[c].id.0 == r@[0].1@[j]
            },
    {
        let n = self.nodes.len();
        let mut out: Vec<(u64, Vec<u64>, Vec<AccessKitAction>)> = Vec::new();
        self.push_access_subtree(i, n, &mut out);
        proof {
            let m = self.nodes.map();
            let ghost fuel = n as nat;
            let ch = visible_chain(m, m[i.index()].first_child, fuel);
            lemma_visible_children(m, i.index(), fuel);
            assert(access_preorder(m, i.index(), fuel)[0] == access_entry(m, i.index(), fuel));
            assert(entry_view(out@[0]) == out@.map_values(|e: (u64, Vec<u64>, Vec<AccessKitAction>)| entry_view(e))[0]);
            assert forall|j: int| #![trigger out@[0].1@[j]] 0 <= j < out@[0].1@.len() implies exists|c: usize| {
                &&& #[trigger] m.dom().contains(c)
                &&& m[c].parent.index() == i.index()
                &&& !m[c].exiting
                &&& m[c].id.0 == out@[0].1@[j]
            } by {
                let c = ch[j];
                assert(out@[0].1@ == ch.map_values(|c: usize| m[c].id.0));
                assert(m.dom().contains(c));
                assert(m[c].parent.index() == i.index());
            }
            assert(Seq::<(u64, Vec<u64>, Vec<AccessKitAction>)>::empty().map_values(|e: (u64, Vec<u64>, Vec<AccessKitAction>)| entry_view(e))
                + access_preorder(self.nodes.map(), i.index(), n as nat)
                =~= access_preorder(self.nodes.map(), i.index(), n as nat));
        }
        out
    }
}

} // verus!
