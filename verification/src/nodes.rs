use vstd::prelude::*;
use slab::Slab;
use ahash::AHashMap;
use crate::ids::{Id, NodeI};
use crate::math::Xy;
use crate::sense::Sense;
use crate::keys::{NodeKey, KeyScopes, resolved_id, twin_id_spec};
use crate::fxhash::fx_hash_u64_u32;

verus! {

/// A handle to the text object of a node, owned by the text renderer.
#[derive(Debug, Clone, Copy, PartialEq, Eq, Structural)]
pub enum TextI {
    TextEdit(u64),
    TextBox(u64),
}

/// The node's interact behavior.
#[derive(Debug, Clone, Copy, PartialEq, Eq, Structural)]
pub struct Interact {
    /// Whether the node displays the default animation when clicked and hovered.
    pub click_animation: bool,
    /// Whether the node consumes mouse events, or is transparent to them.
    pub absorbs_mouse_events: bool,
    /// Which types of input the node can respond to.
    pub senses: Sense,
    /// Whether keyboard navigation can stop on this node.
    pub focusable: bool,
}

/// The parameters of a node that input handling reads.
#[derive(Debug, Clone, Copy)]
pub struct NodeParams {
    pub interact: Interact,
    /// Whether the node scrolls its content along each axis.
    pub scrollable: Xy<bool>,
    /// Whether the node plays an exit animation when it leaves the tree.
    pub exit_animation: bool,
}

/// A node of the GUI tree, as stored in the node arena.
#[derive(Debug, Clone, Copy)]
pub struct InnerNode {
    pub id: Id,
    pub depth: usize,
    pub frame_added: u64,
    pub last_frame_touched: u64,
    pub parent: NodeI,
    pub first_child: Option<NodeI>,
    pub last_child: Option<NodeI>,
    pub prev_sibling: Option<NodeI>,
    pub next_sibling: Option<NodeI>,
    pub is_twin: Option<u32>,
    /// How many twins of this node were added in the frame it was last touched.
    pub n_twins: u32,
    /// Whether the node is leaving the tree (it may stay while it or an
    /// ancestor plays an exit animation).
    pub exiting: bool,
    /// Whether the node takes part in a running exit animation.
    pub exit_animation_still_going: bool,
    pub hovered: bool,
    pub text_i: Option<TextI>,
    pub params: NodeParams,
}

#[verifier::external_type_specification]
#[verifier::external_body]
#[verifier::reject_recursive_types(T)]
pub struct ExSlab<T>(Slab<T>);

#[verifier::external_type_specification]
#[verifier::external_body]
pub struct ExRandomState(ahash::RandomState);

#[verifier::external_type_specification]
#[verifier::external_body]
#[verifier::reject_recursive_types(K)]
#[verifier::reject_recursive_types(V)]
#[verifier::reject_recursive_types(S)]
pub struct ExAHashMap<K, V, S>(AHashMap<K, V, S>);

/// The nodes that a node slab holds, by key.
pub uninterp spec fn slab_nodes(s: Slab<InnerNode>) -> Map<usize, InnerNode>;

/// The key that the next insertion into a node slab will use.
pub uninterp spec fn slab_vacant_key(s: Slab<InnerNode>) -> usize;

/// The number of entries (filled or vacant) a node slab has ever grown to.
pub uninterp spec fn slab_entries_len(s: Slab<InnerNode>) -> usize;

/// The entries of an id-to-index map.
pub uninterp spec fn id_map_entries(m: AHashMap<Id, NodeI>) -> Map<Id, NodeI>;

/// `Slab::with_capacity`: an empty slab, with no entries and next key 0.
#[verifier::external_body]
fn slab_with_capacity(capacity: usize) -> (r: Slab<InnerNode>)
    ensures
        slab_nodes(r).dom().is_empty(),
        slab_vacant_key(r) == 0,
        slab_entries_len(r) == 0,
{
    Slab::with_capacity(capacity)
}

/// `Slab::vacant_key`: the key the next insertion will use, which is not in use.
#[verifier::external_body]
fn slab_next_key(s: &Slab<InnerNode>) -> (r: usize)
    ensures
        r == slab_vacant_key(*s),
        !slab_nodes(*s).dom().contains(r),
{
    s.vacant_key()
}

/// `Slab::insert`: stores the value under the vacant key and returns that key.
/// When there is no vacant entry (the next key is the number of entries), the
/// value is appended and the next key becomes the one after it.
#[verifier::external_body]
fn slab_insert(s: &mut Slab<InnerNode>, val: InnerNode) -> (r: usize)
    ensures
        r == slab_vacant_key(*old(s)),
        !slab_nodes(*old(s)).dom().contains(r),
        slab_nodes(*final(s)) == slab_nodes(*old(s)).insert(r, val),
        slab_vacant_key(*old(s)) == slab_entries_len(*old(s)) ==> {
            &&& r < usize::MAX
            &&& slab_vacant_key(*final(s)) == r + 1
            &&& slab_entries_len(*final(s)) == r + 1
        },
{
    s.insert(val)
}

/// `Slab::index`: the value under a key in use (it panics on any other key).
#[verifier::external_body]
fn slab_index(s: &Slab<InnerNode>, key: usize) -> (r: &InnerNode)
    requires
        slab_nodes(*s).dom().contains(key),
    ensures
        *r == slab_nodes(*s)[key],
{
    &s[key]
}

/// `Slab::get_mut` on a key in use, followed by a write through the reference.
#[verifier::external_body]
fn slab_set(s: &mut Slab<InnerNode>, key: usize, val: InnerNode)
    requires
        slab_nodes(*old(s)).dom().contains(key),
    ensures
        slab_nodes(*final(s)) == slab_nodes(*old(s)).insert(key, val),
        slab_vacant_key(*final(s)) == slab_vacant_key(*old(s)),
        slab_entries_len(*final(s)) == slab_entries_len(*old(s)),
{
    if let Some(slot) = s.get_mut(key) {
        *slot = val;
    }
}

/// `Slab::len`: the number of values stored.
#[verifier::external_body]
fn slab_len(s: &Slab<InnerNode>) -> (r: usize)
    ensures
        r == slab_nodes(*s).dom().len(),
{
    s.len()
}

/// `Slab::remove` on a key in use: returns the value, and the key becomes the
/// next vacant one (it panics on a key not in use).
#[verifier::external_body]
fn slab_remove(s: &mut Slab<InnerNode>, key: usize) -> (r: InnerNode)
    requires
        slab_nodes(*old(s)).dom().contains(key),
    ensures
        r == slab_nodes(*old(s))[key],
        slab_nodes(*final(s)) == slab_nodes(*old(s)).remove(key),
        slab_vacant_key(*final(s)) == key,
        slab_entries_len(*final(s)) == slab_entries_len(*old(s)),
{
    s.remove(key)
}

/// The keys in use of a node slab, in the order `Slab::iter` visits them,
/// which is increasing.
#[verifier::external_body]
fn slab_keys(s: &Slab<InnerNode>) -> (r: Vec<usize>)
    ensures
        forall|a: int, b: int| 0 <= a < b < r@.len() ==> r@[a] < r@[b],
        forall|k: usize| slab_nodes(*s).dom().contains(k) <==> r@.contains(k),
{
    s.iter().map(|(k, _)| k).collect()
}

/// `AHashMap::with_capacity`: an empty map.
#[verifier::external_body]
fn id_map_with_capacity(capacity: usize) -> (r: AHashMap<Id, NodeI>)
    ensures
        id_map_entries(r).dom().is_empty(),
{
    AHashMap::with_capacity(capacity)
}

/// `AHashMap::get`, with the value copied out.
#[verifier::external_body]
fn id_map_get(m: &AHashMap<Id, NodeI>, k: &Id) -> (r: Option<NodeI>)
    ensures
        id_map_entries(*m).dom().contains(*k) ==> r == Some(id_map_entries(*m)[*k]),
        !id_map_entries(*m).dom().contains(*k) ==> r == None::<NodeI>,
{
    m.get(k).copied()
}

/// `AHashMap::insert`: sets the value under a key and returns the previous one.
#[verifier::external_body]
fn id_map_insert(m: &mut AHashMap<Id, NodeI>, k: Id, v: NodeI) -> (r: Option<NodeI>)
    ensures
        id_map_entries(*final(m)) == id_map_entries(*old(m)).insert(k, v),
        id_map_entries(*old(m)).dom().contains(k) ==> r == Some(id_map_entries(*old(m))[k]),
        !id_map_entries(*old(m)).dom().contains(k) ==> r == None::<NodeI>,
{
    m.insert(k, v)
}

/// `AHashMap::remove`: takes the key out and returns its value, if it had one.
#[verifier::external_body]
fn id_map_remove(m: &mut AHashMap<Id, NodeI>, k: &Id) -> (r: Option<NodeI>)
    ensures
        id_map_entries(*final(m)) == id_map_entries(*old(m)).remove(*k),
        id_map_entries(*old(m)).dom().contains(*k) ==> r == Some(id_map_entries(*old(m))[*k]),
        !id_map_entries(*old(m)).dom().contains(*k) ==> r == None::<NodeI>,
{
    m.remove(k)
}

/// The arena of nodes: nodes are referenced from outside by stable [`Id`]s and
/// from inside by compact [`NodeI`] indices.
pub struct Nodes {
    node_hashmap: AHashMap<Id, NodeI>,
    nodes: Slab<InnerNode>,
}

/// Slot of the dummy node that keeps real indices non-zero.
pub open spec fn dummy_slot() -> usize { 0 }

/// Slot of the root node.
pub open spec fn root_slot() -> usize { 1 }

/// A child or sibling link of a node: it points at a real node, never the
/// dummy or the root.
pub open spec fn link_ok(m: Map<usize, InnerNode>, l: Option<NodeI>) -> bool {
    match l {
        Some(c) => m.dom().contains(c.index()) && c.index() >= 2,
        None => true,
    }
}

/// The structural invariant of a node map.
pub open spec fn tree_wf(m: Map<usize, InnerNode>) -> bool {
    &&& m.dom().contains(dummy_slot())
    &&& m.dom().contains(root_slot())
    &&& m[root_slot()].parent.index() == 1
    &&& m[root_slot()].depth == 0
    &&& m[root_slot()].prev_sibling.is_none()
    &&& m[root_slot()].next_sibling.is_none()
    &&& forall|k: usize| #[trigger] m.dom().contains(k) && k >= 1 ==> node_wf(m, k)
}

/// The invariant of one node: its parent exists one level up, and its links
/// point at nodes with the right parents.
pub open spec fn node_wf(m: Map<usize, InnerNode>, k: usize) -> bool {
    let n = m[k];
    &&& k < 0x10000
    &&& link_ok(m, n.first_child)
    &&& link_ok(m, n.last_child)
    &&& link_ok(m, n.next_sibling)
    &&& link_ok(m, n.prev_sibling)
    &&& (n.first_child is Some <==> n.last_child is Some)
    &&& n.first_child matches Some(c) ==> m[c.index()].parent.index() == k
    &&& n.last_child matches Some(c) ==> m[c.index()].parent.index() == k
    &&& n.last_child matches Some(c) ==> m[c.index()].next_sibling.is_none()
    &&& n.first_child matches Some(c) ==> m[c.index()].prev_sibling.is_none()
    &&& k >= 2 ==> {
        &&& m.dom().contains(n.parent.index())
        &&& n.parent.index() >= 1
        &&& m[n.parent.index()].depth + 1 == n.depth
        &&& n.next_sibling matches Some(s) ==> m[s.index()].parent.index() == n.parent.index()
        &&& n.prev_sibling matches Some(s) ==> m[s.index()].parent.index() == n.parent.index()
    }
}

/// Every id in the map names the node stored under its index.
pub open spec fn ids_wf(h: Map<Id, NodeI>, m: Map<usize, InnerNode>) -> bool {
    forall|id: Id| #[trigger] h.dom().contains(id) ==> {
        let k = h[id].index();
        &&& m.dom().contains(k)
        &&& k >= 1
        &&& m[k].id == id
    }
}

/// The root's default parameters: not interactive, not scrollable.
pub fn root_params() -> (r: NodeParams)
    ensures
        !r.interact.focusable,
        r.interact.senses.bits == 0,
        !r.interact.absorbs_mouse_events,
        !r.interact.click_animation,
        !r.scrollable.x && !r.scrollable.y,
{
    NodeParams {
        interact: Interact { click_animation: false, absorbs_mouse_events: false, senses: Sense::none(), focusable: false },
        scrollable: Xy::new(false, false),
        exit_animation: false,
    }
}

/// A node with no children, at depth `depth` under `parent`, after `prev`.
pub open spec fn fresh_node(id: Id, depth: usize, parent: NodeI, prev: Option<NodeI>, frame: u64, params: NodeParams, is_twin: Option<u32>) -> InnerNode {
    InnerNode {
        id,
        depth,
        frame_added: frame,
        last_frame_touched: frame,
        parent,
        first_child: None,
        last_child: None,
        prev_sibling: prev,
        next_sibling: None,
        is_twin,
        n_twins: 0,
        exiting: false,
        exit_animation_still_going: false,
        hovered: false,
        text_i: None,
        params,
    }
}

/// The node map after `node` is stored in the new slot `c` as the last child
/// of `parent`: the parent's child links and the link of its previous last
/// child are updated, nothing else changes.
pub open spec fn appended(m: Map<usize, InnerNode>, parent: NodeI, c: NodeI, node: InnerNode) -> Map<usize, InnerNode> {
    let p = m[parent.index()];
    let m1 = m.insert(c.index(), node);
    let m2 = match p.last_child {
        Some(l) => m1.insert(l.index(), InnerNode { next_sibling: Some(c), ..m1[l.index()] }),
        None => m1,
    };
    m2.insert(parent.index(), InnerNode {
        last_child: Some(c),
        first_child: if p.first_child is None { Some(c) } else { p.first_child },
        ..m2[parent.index()]
    })
}

/// Two versions of a node with the same identity, position and links.
pub open spec fn same_shape(a: InnerNode, b: InnerNode) -> bool {
    &&& a.id == b.id
    &&& a.depth == b.depth
    &&& a.parent == b.parent
    &&& a.first_child == b.first_child
    &&& a.last_child == b.last_child
    &&& a.prev_sibling == b.prev_sibling
    &&& a.next_sibling == b.next_sibling
}

/// Replacing a node by one of the same shape keeps the invariants.
proof fn lemma_same_shape_wf(h: Map<Id, NodeI>, m: Map<usize, InnerNode>, k: usize, n: InnerNode)
    requires
        tree_wf(m),
        ids_wf(h, m),
        m.dom().contains(k),
        same_shape(m[k], n),
    ensures
        tree_wf(m.insert(k, n)),
        ids_wf(h, m.insert(k, n)),
{
    let m2 = m.insert(k, n);
    assert(m2.dom() =~= m.dom());
    assert forall|j: usize| #[trigger] m2.dom().contains(j) && j >= 1 implies node_wf(m2, j) by {
        assert(node_wf(m, j));
    }
}

/// `after` holds the nodes `m` with ids `h` (whose next vacant slot is `nk`)
/// plus a new node `c` of id `id` appended under `parent` in that slot, and no
/// other change.
pub open spec fn appended_to(m: Map<usize, InnerNode>, h: Map<Id, NodeI>, nk: usize, after: Nodes,
    parent: NodeI, c: NodeI, id: Id, params: NodeParams, frame: u64, is_twin: Option<u32>) -> bool {
    let p = m[parent.index()];
    let k = c.index();
    let node = fresh_node(id, (p.depth + 1) as usize, parent, p.last_child, frame, params, is_twin);
    &&& k == nk
    &&& !m.dom().contains(k)
    &&& after.map().dom() == m.dom().insert(k)
    &&& after.map() == appended(m, parent, c, node)
    &&& after.map()[k] == node
    &&& after.node(parent).last_child == Some(c)
    &&& after.node(parent).first_child == (if p.first_child is None { Some(c) } else { p.first_child })
    &&& (p.last_child matches Some(l) ==> after.node(l).next_sibling == Some(c))
    &&& after.ids() == h.insert(id, c)
    &&& forall|j: usize| #[trigger] m.dom().contains(j) ==> after.map()[j].id == m[j].id
}

impl Nodes {
    /// The nodes, by slot.
    pub closed spec fn map(&self) -> Map<usize, InnerNode> {
        slab_nodes(self.nodes)
    }

    /// The id-to-index table.
    pub closed spec fn ids(&self) -> Map<Id, NodeI> {
        id_map_entries(self.node_hashmap)
    }

    pub open spec fn wf(&self) -> bool {
        &&& tree_wf(self.map())
        &&& ids_wf(self.ids(), self.map())
    }

    /// `i` is a node of the tree (the root included, the dummy excluded).
    pub open spec fn contains(&self, i: NodeI) -> bool {
        self.map().dom().contains(i.index()) && i.index() >= 1
    }

    /// The node stored under `i`.
    pub open spec fn node(&self, i: NodeI) -> InnerNode {
        self.map()[i.index()]
    }

    /// A new arena with the dummy node in slot 0 and the root in slot 1.
    pub fn new(root_id: Id) -> (r: Self)
        ensures
            r.wf(),
            r.map().dom() == set![0usize, 1usize],
            r.map()[1].id == root_id,
            r.map()[1].first_child.is_none(),
            r.ids() == map![root_id => r.map()[1].parent],
            r.ids().dom() == set![root_id],
            r.next_key() == 2,
            r.no_vacant_slot(),
    {
        let mut nodes = slab_with_capacity(100);
        let root_i = NodeI::from(1);
        let dummy = InnerNode {
            id: root_id, depth: 0, frame_added: 0, last_frame_touched: 0, parent: root_i,
            first_child: None, last_child: None, prev_sibling: None, next_sibling: None,
            is_twin: None, n_twins: 0, exiting: false, exit_animation_still_going: false, hovered: false, text_i: None, params: root_params(),
        };
        let root = InnerNode {
            id: root_id, depth: 0, frame_added: 0, last_frame_touched: u64::MAX, parent: root_i,
            first_child: None, last_child: None, prev_sibling: None, next_sibling: None,
            is_twin: None, n_twins: 0, exiting: false, exit_animation_still_going: false, hovered: false, text_i: None, params: root_params(),
        };
        let _k0 = slab_insert(&mut nodes, dummy);
        let _k1 = slab_insert(&mut nodes, root);
        let mut node_hashmap = id_map_with_capacity(100);
        let _ = id_map_insert(&mut node_hashmap, root_id, root_i);
        let r = Nodes { node_hashmap, nodes };
        proof {
            assert(r.map().dom() =~= set![0usize, 1usize]);
        }
        r
    }

    /// The key the next added node will get.
    pub closed spec fn next_key(&self) -> usize {
        slab_vacant_key(self.nodes)
    }

    /// No slot was freed since the arena was made: the next node is appended
    /// after the last slot.
    pub closed spec fn no_vacant_slot(&self) -> bool {
        slab_vacant_key(self.nodes) == slab_entries_len(self.nodes)
    }

    /// The slot the next added node will take.
    pub fn vacant_slot(&self) -> (r: usize)
        ensures
            r == self.next_key(),
    {
        slab_next_key(&self.nodes)
    }

    /// The index of the node with the given id, if there is one.
    pub fn get_by_id(&self, id: Id) -> (r: Option<NodeI>)
        requires
            self.wf(),
        ensures
            self.ids().dom().contains(id) ==> r == Some(self.ids()[id]),
            !self.ids().dom().contains(id) ==> r == None::<NodeI>,
            r matches Some(i) ==> self.contains(i) && self.node(i).id == id,
    {
        id_map_get(&self.node_hashmap, &id)
    }

    /// A copy of the node stored under `i`.
    pub fn get(&self, i: NodeI) -> (r: InnerNode)
        requires
            self.contains(i),
        ensures
            r == self.node(i),
    {
        *slab_index(&self.nodes, i.as_usize())
    }

    /// The number of nodes in the arena, the dummy and the root included.
    pub fn len(&self) -> (r: usize)
        ensures
            r == self.map().dom().len(),
    {
        slab_len(&self.nodes)
    }

    /// Adds a new node with the given id as the last child of `parent`, and
    /// returns its index.
    ///
    /// Returns `None`, changing nothing, if a node with that id already exists
    /// (use [`Ui::add_or_update_node`](crate::Ui::add_or_update_node) to find
    /// it again), if the parent is as deep as a depth can be, or if the new
    /// slot would not fit a node index.
    pub fn add_child(&mut self, parent: NodeI, id: Id, params: NodeParams, frame: u64) -> (r: Option<NodeI>)
        requires
            old(self).wf(),
            old(self).contains(parent),
        ensures
            final(self).wf(),
            r is None <==> (old(self).ids().dom().contains(id)
                || old(self).node(parent).depth == usize::MAX
                || old(self).next_key() >= 0x10000),
            r is None ==> *final(self) == *old(self),
            r matches Some(c) ==> Self::added(*old(self), *final(self), parent, c, id, params, frame, None),
            r is Some && old(self).no_vacant_slot() ==> final(self).no_vacant_slot() && final(self).next_key() == old(self).next_key() + 1,
    {
        self.add_node(parent, id, params, frame, None)
    }

    /// `after` is `before` with a new node `c` of id `id` appended under
    /// `parent`, in the slot the arena had vacant, and no other change.
    pub open spec fn added(before: Self, after: Self, parent: NodeI, c: NodeI, id: Id, params: NodeParams, frame: u64, is_twin: Option<u32>) -> bool {
        appended_to(before.map(), before.ids(), before.next_key(), after, parent, c, id, params, frame, is_twin)
    }

    pub(crate) fn add_node(&mut self, parent: NodeI, id: Id, params: NodeParams, frame: u64, is_twin: Option<u32>) -> (r: Option<NodeI>)
        requires
            old(self).wf(),
            old(self).contains(parent),
        ensures
            final(self).wf(),
            r is None <==> (old(self).ids().dom().contains(id)
                || old(self).node(parent).depth == usize::MAX
                || old(self).next_key() >= 0x10000),
            r is None ==> *final(self) == *old(self),
            r matches Some(c) ==> Self::added(*old(self), *final(self), parent, c, id, params, frame, is_twin),
            r is Some && old(self).no_vacant_slot() ==> final(self).no_vacant_slot() && final(self).next_key() == old(self).next_key() + 1,
    {
        if id_map_get(&self.node_hashmap, &id).is_some() {
            return None;
        }
        let p = *slab_index(&self.nodes, parent.as_usize());
        if p.depth == usize::MAX {
            return None;
        }
        let key = slab_next_key(&self.nodes);
        if key >= 0x10000 {
            return None;
        }
        let ghost m0 = slab_nodes(self.nodes);
        let ghost h0 = id_map_entries(self.node_hashmap);
        proof {
            assert(m0.dom().contains(0usize));
            assert(m0.dom().contains(1usize));
        }
        let new_i = NodeI::from(key);
        let node = InnerNode {
            id,
            depth: p.depth + 1,
            frame_added: frame,
            last_frame_touched: frame,
            parent,
            first_child: None,
            last_child: None,
            prev_sibling: p.last_child,
            next_sibling: None,
            is_twin,
            n_twins: 0,
            exiting: false,
            exit_animation_still_going: false,
            hovered: false,
            text_i: None,
            params,
        };
        let _k = slab_insert(&mut self.nodes, node);
        let ghost m1 = slab_nodes(self.nodes);
        let mut pn = p;
        pn.last_child = Some(new_i);
        match p.last_child {
            Some(l) => {
                let mut ln = *slab_index(&self.nodes, l.as_usize());
                ln.next_sibling = Some(new_i);
                slab_set(&mut self.nodes, l.as_usize(), ln);
            },
            None => {
                pn.first_child = Some(new_i);
            },
        }
        slab_set(&mut self.nodes, parent.as_usize(), pn);
        let _ = id_map_insert(&mut self.node_hashmap, id, new_i);
        proof {
            let m = slab_nodes(self.nodes);
            let h = id_map_entries(self.node_hashmap);
            let pk = parent.index();
            assert(tree_wf(m0));
            assert(node_wf(m0, pk));
            assert(m.dom() =~= m0.dom().insert(key));
            if let Some(l) = p.last_child {
                let lk = l.index();
                assert(m0[lk].parent.index() == pk);
                assert(lk != pk) by {
                    if pk >= 2 {
                        assert(node_wf(m0, lk));
                    }
                }
            }
            assert(m[pk] == pn);
            assert(m =~= appended(m0, parent, new_i, node));
            assert forall|k: usize| #[trigger] m.dom().contains(k) && k >= 1 implies node_wf(m, k) by {
                if k == key {
                    assert(m[k] == node);
                } else {
                    assert(m0.dom().contains(k));
                    assert(node_wf(m0, k));
                    let n0 = m0[k];
                    if let Some(c) = n0.last_child {
                        if k != pk {
                            if let Some(l) = p.last_child {
                                assert(c != l || m0[c.index()].parent.index() == k);
                            }
                        }
                    }
                    if k >= 2 {
                        let pp = n0.parent.index();
                        assert(m0.dom().contains(pp));
                    }
                }
            }
            assert(tree_wf(m));
            assert forall|id2: Id| #[trigger] h.dom().contains(id2) implies {
                let k = h[id2].index();
                &&& m.dom().contains(k)
                &&& k >= 1
                &&& m[k].id == id2
            } by {
                if id2 != id {
                    assert(h0.dom().contains(id2));
                }
            }
        }
        Some(new_i)
    }

    /// The node with id `kid`, if it was already touched in `frame`, can count
    /// one more twin.
    pub open spec fn twin_count_can_grow(&self, kid: Id, frame: u64) -> bool {
        let h = self.ids();
        h.dom().contains(kid) && self.node(h[kid]).last_frame_touched == frame
            ==> self.node(h[kid]).n_twins < u32::MAX
    }

    /// `after` is `before` after the node for a key with id `raw`, resolved in
    /// the key scopes `scopes`, was added under `parent` or found again in
    /// `frame`; `(i, id)` is the node that was added or refreshed, and
    /// `is_new` tells whether it was added.
    #[verifier::opaque]
    pub open spec fn upserted(before: Self, after: Self, scopes: Seq<Id>, raw: Id, parent: NodeI, frame: u64,
        params: NodeParams, i: NodeI, id: Id, is_new: bool) -> bool {
        let m0 = before.map();
        let h0 = before.ids();
        let kid = resolved_id(scopes, raw);
        &&& after.ids().dom().contains(id)
        &&& after.ids()[id] == i
        &&& after.node(i).last_frame_touched == frame
        &&& !after.node(i).exiting
        &&& !h0.dom().contains(kid) ==> {
            &&& id == kid
            &&& is_new
            &&& Self::added(before, after, parent, i, kid, params, frame, None)
        }
        &&& h0.dom().contains(kid) && m0[h0[kid].index()].last_frame_touched != frame ==> {
            let k = h0[kid].index();
            &&& i == h0[kid]
            &&& id == kid
            &&& !is_new
            &&& after.ids() == h0
            &&& after.map() == m0.insert(k, InnerNode { last_frame_touched: frame, n_twins: 0, exiting: false, ..m0[k] })
        }
        &&& h0.dom().contains(kid) && m0[h0[kid].index()].last_frame_touched == frame ==> {
            let k = h0[kid].index();
            let n = (m0[k].n_twins + 1) as u32;
            Self::twin_upserted(m0.insert(k, InnerNode { n_twins: n, ..m0[k] }), h0, before.next_key(), after,
                twin_id_spec(scopes, raw, n), n, parent, frame, params, i, id, is_new)
        }
    }

    /// `after` is the arena `m` with ids `h` after the twin `n` with id `tid`
    /// was refreshed, or added under `parent` in the vacant slot `nk`.
    pub open spec fn twin_upserted(m: Map<usize, InnerNode>, h: Map<Id, NodeI>, nk: usize, after: Self, tid: Id, n: u32,
        parent: NodeI, frame: u64, params: NodeParams, i: NodeI, id: Id, is_new: bool) -> bool {
        &&& id == tid
        &&& h.dom().contains(tid) ==> {
            &&& i == h[tid]
            &&& !is_new
            &&& after.ids() == h
            &&& after.map() == m.insert(i.index(), InnerNode { last_frame_touched: frame, exiting: false, ..m[i.index()] })
        }
        &&& !h.dom().contains(tid) ==> {
            &&& is_new
            &&& appended_to(m, h, nk, after, parent, i, tid, params, frame, Some(n))
        }
    }

    /// Adds the node for `key` under `parent`, or finds it again, in `frame`
    /// (see [`Ui::add_or_update_node`](crate::Ui::add_or_update_node)).
    /// Returns the node's index and id, and whether it was added.
    pub fn add_or_update_node(&mut self, key: NodeKey, scopes: &KeyScopes, parent: NodeI, frame: u64, params: NodeParams) -> (r: (NodeI, Id, bool))
        requires
            old(self).wf(),
            old(self).contains(parent),
            old(self).node(parent).depth < usize::MAX,
            old(self).next_key() < 0x10000,
            old(self).twin_count_can_grow(resolved_id(scopes.stack@, key.id), frame),
        ensures
            final(self).wf(),
            final(self).ids().dom().contains(r.1),
            final(self).ids()[r.1] == r.0,
            final(self).contains(r.0),
            final(self).node(r.0).last_frame_touched == frame,
            r.2 == !old(self).ids().dom().contains(r.1),
            old(self).no_vacant_slot() ==> final(self).no_vacant_slot()
                && final(self).next_key() == old(self).next_key() + (if r.2 { 1int } else { 0int }),
            Self::upserted(*old(self), *final(self), scopes.stack@, key.id, parent, frame, params, r.0, r.1, r.2),
    {
        reveal(Nodes::upserted);
        let key_id = scopes.id_with_key_scope(key.id);
        match self.get_by_id(key_id) {
            None => {
                let c = self.add_node(parent, key_id, params, frame, None).unwrap();
                (c, key_id, true)
            },
            Some(old_i) => {
                let old_node = self.get(old_i);
                if old_node.last_frame_touched != frame {
                    self.update_node(old_i, InnerNode { last_frame_touched: frame, n_twins: 0, exiting: false, ..old_node });
                    (old_i, key_id, false)
                } else {
                    let n: u32 = old_node.n_twins + 1;
                    self.update_node(old_i, InnerNode { n_twins: n, ..old_node });
                    let twin_id = scopes.id_with_key_scope(Id(fx_hash_u64_u32(key.id.0, n)));
                    self.add_or_update_twin(twin_id, n, parent, frame, params)
                }
            },
        }
    }

    /// Refreshes twin `n` of a key, with id `tid`, or adds it under `parent`.
    fn add_or_update_twin(&mut self, tid: Id, n: u32, parent: NodeI, frame: u64, params: NodeParams) -> (r: (NodeI, Id, bool))
        requires
            old(self).wf(),
            old(self).contains(parent),
            old(self).node(parent).depth < usize::MAX,
            old(self).next_key() < 0x10000,
        ensures
            final(self).wf(),
            final(self).ids().dom().contains(r.1),
            final(self).ids()[r.1] == r.0,
            final(self).node(r.0).last_frame_touched == frame,
            !final(self).node(r.0).exiting,
            old(self).no_vacant_slot() ==> final(self).no_vacant_slot()
                && final(self).next_key() == old(self).next_key() + (if r.2 { 1int } else { 0int }),
            Self::twin_upserted(old(self).map(), old(self).ids(), old(self).next_key(), *final(self), tid, n,
                parent, frame, params, r.0, r.1, r.2),
    {
        match self.get_by_id(tid) {
            None => {
                let c = self.add_node(parent, tid, params, frame, Some(n)).unwrap();
                (c, tid, true)
            },
            Some(ti) => {
                let tn = self.get(ti);
                self.update_node(ti, InnerNode { last_frame_touched: frame, exiting: false, ..tn });
                (ti, tid, false)
            },
        }
    }

    /// Replaces node `i` by `n`, a version of it with the same identity,
    /// position and links.
    pub(crate) fn update_node(&mut self, i: NodeI, n: InnerNode)
        requires
            old(self).wf(),
            old(self).contains(i),
            same_shape(old(self).node(i), n),
        ensures
            final(self).wf(),
            final(self).map() == old(self).map().insert(i.index(), n),
            final(self).ids() == old(self).ids(),
            final(self).next_key() == old(self).next_key(),
            final(self).no_vacant_slot() == old(self).no_vacant_slot(),
    {
        proof {
            lemma_same_shape_wf(self.ids(), self.map(), i.index(), n);
        }
        slab_set(&mut self.nodes, i.as_usize(), n);
    }

    /// Marks node `i` as hovered or not.
    pub fn set_hovered(&mut self, i: NodeI, hovered: bool)
        requires
            old(self).wf(),
            old(self).contains(i),
        ensures
            final(self).wf(),
            final(self).map() == old(self).map().insert(i.index(), InnerNode { hovered, ..old(self).node(i) }),
            final(self).ids() == old(self).ids(),
    {
        let mut node = *slab_index(&self.nodes, i.as_usize());
        node.hovered = hovered;
        self.update_node(i, node);
    }

    /// Node `k` has no children and no other node links to it, so it can leave
    /// the arena without leaving a dangling link. The root never can.
    pub open spec fn detached(&self, k: usize) -> bool {
        &&& k >= 2
        &&& self.map()[k].first_child is None
        &&& forall|j: usize| #[trigger] self.map().dom().contains(j) && j >= 1 && j != k ==> {
            let n = self.map()[j];
            &&& !(n.first_child matches Some(c) && c.index() == k)
            &&& !(n.last_child matches Some(c) && c.index() == k)
            &&& !(n.prev_sibling matches Some(c) && c.index() == k)
            &&& !(n.next_sibling matches Some(c) && c.index() == k)
            &&& (j >= 2 ==> n.parent.index() != k)
        }
    }

    /// Removes the node with id `id` and its slot, which becomes the next one
    /// to be reused. The arena stays well formed when the node was detached
    /// from the tree.
    pub fn remove(&mut self, id: Id)
        requires
            old(self).wf(),
            old(self).ids().dom().contains(id),
        ensures
            final(self).map() == old(self).map().remove(old(self).ids()[id].index()),
            final(self).ids() == old(self).ids().remove(id),
            final(self).next_key() == old(self).ids()[id].index(),
            old(self).detached(old(self).ids()[id].index()) ==> final(self).wf(),
    {
        let ghost m0 = self.map();
        let ghost h0 = self.ids();
        let i = id_map_remove(&mut self.node_hashmap, &id).unwrap();
        let _ = slab_remove(&mut self.nodes, i.as_usize());
        proof {
            let k = i.index();
            let m = self.map();
            let h = self.ids();
            if old(self).detached(k) {
                assert forall|j: usize| #[trigger] m.dom().contains(j) && j >= 1 implies node_wf(m, j) by {
                    assert(m0.dom().contains(j));
                    assert(node_wf(m0, j));
                    if j >= 2 {
                        assert(m0.dom().contains(m0[j].parent.index()));
                    }
                }
                assert forall|id2: Id| #[trigger] h.dom().contains(id2) implies {
                    let k2 = h[id2].index();
                    &&& m.dom().contains(k2)
                    &&& k2 >= 1
                    &&& m[k2].id == id2
                } by {
                    assert(h0.dom().contains(id2));
                }
            }
        }
    }

    /// The indices of the nodes other than the dummy and the root, in slot
    /// order.
    pub fn iter(&self) -> (r: Vec<NodeI>)
        requires
            self.wf(),
        ensures
            forall|a: int, b: int| 0 <= a < b < r@.len() ==> r@[a].index() < r@[b].index(),
            forall|j: int| 0 <= j < r@.len() ==> self.map().dom().contains(#[trigger] r@[j].index()) && r@[j].index() >= 2,
            forall|k: usize| #[trigger] self.map().dom().contains(k) && k >= 2 ==> exists|j: int| 0 <= j < r@.len() && r@[j].index() == k,
    {
        let keys = slab_keys(&self.nodes);
        let mut r: Vec<NodeI> = Vec::new();
        let mut idx: usize = 0;
        while idx < keys.len()
            invariant
                self.wf(),
                idx <= keys@.len(),
                forall|a: int, b: int| 0 <= a < b < keys@.len() ==> keys@[a] < keys@[b],
                forall|k: usize| self.map().dom().contains(k) <==> keys@.contains(k),
                forall|j: int| 0 <= j < r@.len() ==> exists|p: int| 0 <= p < idx && keys@[p] == #[trigger] r@[j].index(),
                forall|a: int, b: int| 0 <= a < b < r@.len() ==> r@[a].index() < r@[b].index(),
                forall|j: int| 0 <= j < r@.len() ==> self.map().dom().contains(#[trigger] r@[j].index()) && r@[j].index() >= 2,
                forall|p: int| 0 <= p < idx && keys@[p] >= 2 ==> exists|j: int| 0 <= j < r@.len() && r@[j].index() == #[trigger] keys@[p],
            decreases keys@.len() - idx,
        {
            let k = keys[idx];
            if k >= 2 {
                proof {
                    assert(keys@.contains(k));
                    assert(node_wf(self.map(), k));
                }
                let c = NodeI::from(k);
                proof {
                    assert forall|j: int| 0 <= j < r@.len() implies r@[j].index() < k by {
                        let p = choose|p: int| 0 <= p < idx && keys@[p] == r@[j].index();
                    }
                }
                let ghost r_old = r@;
                r.push(c);
                proof {
                    assert forall|p: int| 0 <= p < idx + 1 && keys@[p] >= 2 implies exists|j: int| 0 <= j < r@.len() && r@[j].index() == #[trigger] keys@[p] by {
                        if p == idx {
                            assert(r@[r@.len() - 1].index() == keys@[p]);
                        } else {
                            let j = choose|j: int| 0 <= j < r_old.len() && r_old[j].index() == keys@[p];
                            assert(r@[j] == r_old[j]);
                        }
                    }
                    assert forall|j: int| 0 <= j < r@.len() implies exists|p: int| 0 <= p < idx + 1 && keys@[p] == #[trigger] r@[j].index() by {
                        if j == r@.len() - 1 {
                            assert(keys@[idx as int] == r@[j].index());
                        } else {
                            assert(r@[j] == r_old[j]);
                            let p = choose|p: int| 0 <= p < idx && keys@[p] == r_old[j].index();
                            assert(keys@[p] == r@[j].index());
                        }
                    }
                }
            }
            idx = idx + 1;
        }
        proof {
            assert forall|k: usize| #[trigger] self.map().dom().contains(k) && k >= 2 implies exists|j: int| 0 <= j < r@.len() && r@[j].index() == k by {
                assert(keys@.contains(k));
                let p = choose|p: int| 0 <= p < keys@.len() && keys@[p] == k;
                assert(keys@[p] >= 2);
            }
        }
        r
    }
}

} // verus!
verus! {

/// The tree is retained across frames: once the node for a key was added or
/// refreshed in one frame, asking for the same key in a later frame finds
/// that same node again and adds nothing.
pub proof fn lemma_key_found_again_next_frame(before: Nodes, after: Nodes, after2: Nodes, scopes: Seq<Id>, raw: Id,
    parent: NodeI, parent2: NodeI, frame: u64, frame2: u64, params: NodeParams, params2: NodeParams,
    i: NodeI, id: Id, is_new: bool, i2: NodeI, id2: Id, is_new2: bool)
    requires
        Nodes::upserted(before, after, scopes, raw, parent, frame, params, i, id, is_new),
        id == resolved_id(scopes, raw),
        Nodes::upserted(after, after2, scopes, raw, parent2, frame2, params2, i2, id2, is_new2),
        frame2 != frame,
    ensures
        i2 == i,
        id2 == id,
        !is_new2,
{
    reveal(Nodes::upserted);
    let kid = resolved_id(scopes, raw);
    assert(after.ids().dom().contains(kid));
}

/// Using a key a second time in a frame gives its first twin, the key's
/// sibling for 1.
pub proof fn lemma_second_use_makes_a_twin(before: Nodes, after: Nodes, after2: Nodes, scopes: Seq<Id>, raw: Id,
    parent: NodeI, parent2: NodeI, frame: u64, params: NodeParams, params2: NodeParams,
    i: NodeI, id: Id, is_new: bool, i2: NodeI, id2: Id, is_new2: bool)
    requires
        !(before.ids().dom().contains(resolved_id(scopes, raw))
            && before.node(before.ids()[resolved_id(scopes, raw)]).last_frame_touched == frame),
        Nodes::upserted(before, after, scopes, raw, parent, frame, params, i, id, is_new),
        Nodes::upserted(after, after2, scopes, raw, parent2, frame, params2, i2, id2, is_new2),
    ensures
        id2 == twin_id_spec(scopes, raw, 1),
{
    let kid = resolved_id(scopes, raw);
    assert(id == kid && after.ids().dom().contains(kid) && after.ids()[kid] == i
        && after.map()[i.index()].last_frame_touched == frame && after.map()[i.index()].n_twins == 0) by {
        reveal(Nodes::upserted);
    }
    assert(id2 == twin_id_spec(scopes, raw, 1)) by {
        reveal(Nodes::upserted);
        assert(((after.map()[i.index()].n_twins + 1) as u32) == 1u32);
    }
}

} // verus!
verus! {

/// The child chain that starts at `c` and follows next-sibling links, at
/// most `fuel` links long, exiting children included.
pub open spec fn full_chain(m: Map<usize, InnerNode>, c: Option<NodeI>, fuel: nat) -> Seq<usize>
    decreases fuel,
{
    if fuel == 0 {
        Seq::empty()
    } else {
        match c {
            None => Seq::empty(),
            Some(x) => seq![x.index()].add(full_chain(m, m[x.index()].next_sibling, (fuel - 1) as nat)),
        }
    }
}

/// Node `n` marked as leaving the tree with a running exit animation.
pub open spec fn marked_exiting(n: InnerNode) -> InnerNode {
    InnerNode { exiting: true, exit_animation_still_going: true, ..n }
}

/// The nodes after the subtree of slot `k` joins a running exit animation:
/// a node already in one is left alone (with its subtree); otherwise it is
/// marked and its children follow, first to last, descending at most `fuel`
/// levels.
pub open spec fn mark_tree(m: Map<usize, InnerNode>, k: usize, fuel: nat) -> Map<usize, InnerNode>
    decreases fuel, 0nat,
{
    if m[k].exit_animation_still_going {
        m
    } else {
        let m1 = m.insert(k, marked_exiting(m[k]));
        if fuel == 0 { m1 } else { mark_chain(m1, full_chain(m1, m[k].first_child, fuel), (fuel - 1) as nat) }
    }
}

/// The nodes after the subtrees of the slots `cs` join, in order.
pub open spec fn mark_chain(m: Map<usize, InnerNode>, cs: Seq<usize>, fuel: nat) -> Map<usize, InnerNode>
    decreases fuel, cs.len(),
{
    if cs.len() == 0 {
        m
    } else {
        mark_tree(mark_chain(m, cs.drop_last(), fuel), cs.last(), fuel)
    }
}

/// The nodes after node `i` starts leaving the tree: nothing changes if it
/// is already leaving; without an exit animation it is only marked as
/// leaving; otherwise it and its whole subtree take part in its animation
/// (subtrees already in one are left alone). Chains and depths are followed
/// for at most `fuel` steps.
pub open spec fn exit_spec(m: Map<usize, InnerNode>, i: usize, fuel: nat) -> Map<usize, InnerNode> {
    let n = m[i];
    if n.exiting {
        m
    } else if !n.params.exit_animation {
        m.insert(i, InnerNode { exiting: true, ..n })
    } else {
        let m1 = m.insert(i, marked_exiting(n));
        mark_chain(m1, full_chain(m1, n.first_child, fuel), fuel)
    }
}

/// Two node maps with the same slots and the same shape in each.
pub open spec fn same_shapes(a: Map<usize, InnerNode>, b: Map<usize, InnerNode>) -> bool {
    &&& a.dom() == b.dom()
    &&& forall|k: usize| #[trigger] a.dom().contains(k) ==> same_shape(a[k], b[k])
}

/// Child chains only read links, which maps of the same shapes share.
proof fn lemma_full_chain_same(a: Map<usize, InnerNode>, b: Map<usize, InnerNode>, c: Option<NodeI>, fuel: nat)
    requires
        same_shapes(a, b),
        link_ok(a, c),
        tree_wf(a),
    ensures
        full_chain(a, c, fuel) == full_chain(b, c, fuel),
    decreases fuel,
{
    if fuel > 0 {
        if let Some(x) = c {
            assert(node_wf(a, x.index()));
            assert(same_shape(a[x.index()], b[x.index()]));
            lemma_full_chain_same(a, b, a[x.index()].next_sibling, (fuel - 1) as nat);
        }
    }
}

/// The slots of a child chain are real nodes.
proof fn lemma_full_chain_in_tree(m: Map<usize, InnerNode>, c: Option<NodeI>, fuel: nat)
    requires
        tree_wf(m),
        link_ok(m, c),
    ensures
        forall|j: int| 0 <= j < full_chain(m, c, fuel).len() ==> {
            let x = #[trigger] full_chain(m, c, fuel)[j];
            m.dom().contains(x) && x >= 2
        },
    decreases fuel,
{
    if fuel > 0 {
        if let Some(x) = c {
            assert(node_wf(m, x.index()));
            let rest = full_chain(m, m[x.index()].next_sibling, (fuel - 1) as nat);
            lemma_full_chain_in_tree(m, m[x.index()].next_sibling, (fuel - 1) as nat);
            let ch = full_chain(m, c, fuel);
            assert forall|j: int| 0 <= j < ch.len() implies m.dom().contains(#[trigger] ch[j]) && ch[j] >= 2 by {
                if j > 0 {
                    assert(ch[j] == rest[j - 1]);
                }
            }
        }
    }
}

impl Nodes {
    /// The slots of the child chain from `c`, at most `fuel` long.
    fn child_chain(&self, c: Option<NodeI>, fuel: usize) -> (r: Vec<NodeI>)
        requires
            self.wf(),
            link_ok(self.map(), c),
        ensures
            r@.map_values(|n: NodeI| n.index()) == full_chain(self.map(), c, fuel as nat),
    {
        let ghost m = self.map();
        let mut r: Vec<NodeI> = Vec::new();
        let mut cursor = c;
        let mut left = fuel;
        while left > 0 && cursor.is_some()
            invariant
                self.wf(),
                m == self.map(),
                link_ok(m, cursor),
                left <= fuel,
                r@.map_values(|n: NodeI| n.index()) + full_chain(m, cursor, left as nat) == full_chain(m, c, fuel as nat),
            decreases left,
        {
            match cursor {
                None => {},
                Some(x) => {
                    let node = self.get(x);
                    proof {
                        assert(node_wf(m, x.index()));
                    }
                    let ghost before = r@;
                    r.push(x);
                    proof {
                        assert(r@.map_values(|n: NodeI| n.index()) == before.map_values(|n: NodeI| n.index()).push(x.index()));
                        assert(r@.map_values(|n: NodeI| n.index()) + full_chain(m, node.next_sibling, (left - 1) as nat)
                            =~= before.map_values(|n: NodeI| n.index()) + full_chain(m, cursor, left as nat));
                    }
                    cursor = node.next_sibling;
                    left = left - 1;
                },
            }
        }
        proof {
            assert(full_chain(m, cursor, left as nat) =~= Seq::<usize>::empty());
            assert(r@.map_values(|n: NodeI| n.index()) + Seq::<usize>::empty() =~= r@.map_values(|n: NodeI| n.index()));
        }
        r
    }

    /// Marks the subtrees of the slots `cs` as taking part in a running exit
    /// animation, in order.
    fn mark_children(&mut self, cs: &Vec<NodeI>, fuel: usize)
        requires
            old(self).wf(),
            forall|j: int| 0 <= j < cs@.len() ==> old(self).map().dom().contains(#[trigger] cs@[j].index()) && cs@[j].index() >= 2,
        ensures
            final(self).wf(),
            final(self).ids() == old(self).ids(),
            final(self).next_key() == old(self).next_key(),
            final(self).no_vacant_slot() == old(self).no_vacant_slot(),
            same_shapes(old(self).map(), final(self).map()),
            final(self).map() == mark_chain(old(self).map(), cs@.map_values(|n: NodeI| n.index()), fuel as nat),
        decreases fuel, cs@.len() + 1,
    {
        let ghost m0 = self.map();
        let ghost idx = cs@.map_values(|n: NodeI| n.index());
        let mut j: usize = 0;
        while j < cs.len()
            invariant
                self.wf(),
                j <= cs@.len(),
                idx == cs@.map_values(|n: NodeI| n.index()),
                m0 == old(self).map(),
                forall|q: int| 0 <= q < cs@.len() ==> m0.dom().contains(#[trigger] cs@[q].index()) && cs@[q].index() >= 2,
                self.ids() == old(self).ids(),
                self.next_key() == old(self).next_key(),
                self.no_vacant_slot() == old(self).no_vacant_slot(),
                same_shapes(m0, self.map()),
                self.map() == mark_chain(m0, idx.take(j as int), fuel as nat),
            decreases cs@.len() - j,
        {
            let c = cs[j];
            proof {
                assert(idx.take(j + 1).drop_last() =~= idx.take(j as int));
                assert(idx.take(j + 1).last() == c.index());
                assert(self.map().dom().contains(c.index()));
            }
            self.mark_subtree(c, fuel);
            j = j + 1;
        }
        proof {
            assert(idx.take(cs@.len() as int) =~= idx);
        }
    }

    /// Marks the subtree of `k` as taking part in a running exit animation
    /// (see [`mark_tree`]).
    fn mark_subtree(&mut self, k: NodeI, fuel: usize)
        requires
            old(self).wf(),
            old(self).map().dom().contains(k.index()),
            k.index() >= 2,
        ensures
            final(self).wf(),
            final(self).ids() == old(self).ids(),
            final(self).next_key() == old(self).next_key(),
            final(self).no_vacant_slot() == old(self).no_vacant_slot(),
            same_shapes(old(self).map(), final(self).map()),
            final(self).map() == mark_tree(old(self).map(), k.index(), fuel as nat),
        decreases fuel, 0nat,
    {
        let ghost m0 = self.map();
        let n = self.get(k);
        if n.exit_animation_still_going {
            proof {
                assert(same_shapes(m0, m0));
            }
            return;
        }
        self.update_node(k, InnerNode { exiting: true, exit_animation_still_going: true, ..n });
        let ghost m1 = self.map();
        proof {
            assert(m1 == m0.insert(k.index(), marked_exiting(m0[k.index()])));
            assert(m1.dom() =~= m0.dom());
            assert(same_shapes(m0, m1));
        }
        if fuel == 0 {
            return;
        }
        proof {
            assert(node_wf(m1, k.index()));
        }
        let cs = self.child_chain(n.first_child, fuel);
        proof {
            lemma_full_chain_in_tree(m1, n.first_child, fuel as nat);
            assert forall|j: int| 0 <= j < cs@.len() implies m1.dom().contains(#[trigger] cs@[j].index()) && cs@[j].index() >= 2 by {
                assert(cs@.map_values(|x: NodeI| x.index())[j] == cs@[j].index());
            }
        }
        self.mark_children(&cs, fuel - 1);
        proof {
            assert forall|q: usize| #[trigger] m0.dom().contains(q) implies same_shape(m0[q], self.map()[q]) by {
                assert(same_shape(m0[q], m1[q]));
                assert(same_shape(m1[q], self.map()[q]));
            }
        }
    }

    /// Node `i` starts leaving the tree (see [`exit_spec`]): with an exit
    /// animation, its whole subtree takes part in it.
    pub fn init_exit_animations(&mut self, i: NodeI)
        requires
            old(self).wf(),
            old(self).contains(i),
        ensures
            final(self).wf(),
            final(self).ids() == old(self).ids(),
            final(self).next_key() == old(self).next_key(),
            final(self).no_vacant_slot() == old(self).no_vacant_slot(),
            final(self).map() == exit_spec(old(self).map(), i.index(), old(self).map().dom().len()),
    {
        let ghost m0 = self.map();
        let n = self.get(i);
        if n.exiting {
            return;
        }
        if !n.params.exit_animation {
            self.update_node(i, InnerNode { exiting: true, ..n });
            return;
        }
        let fuel = self.len();
        self.update_node(i, InnerNode { exiting: true, exit_animation_still_going: true, ..n });
        let ghost m1 = self.map();
        proof {
            assert(m1 == m0.insert(i.index(), marked_exiting(m0[i.index()])));
            assert(node_wf(m1, i.index()));
        }
        let cs = self.child_chain(n.first_child, fuel);
        proof {
            lemma_full_chain_in_tree(m1, n.first_child, fuel as nat);
            assert forall|j: int| 0 <= j < cs@.len() implies m1.dom().contains(#[trigger] cs@[j].index()) && cs@[j].index() >= 2 by {
                assert(cs@.map_values(|x: NodeI| x.index())[j] == cs@[j].index());
            }
        }
        self.mark_children(&cs, fuel);
    }
}

} // verus!
