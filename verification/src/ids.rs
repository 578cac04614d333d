use vstd::prelude::*;

verus! {

/// A stable identifier of a GUI node, usually derived from a [`NodeKey`](crate::NodeKey).
#[derive(Debug, Clone, Copy, PartialEq, Eq, Structural, Hash)]
pub struct Id(pub u64);

/// The identifier of a component's state.
#[derive(Debug, Clone, Copy, PartialEq, Eq, Structural, Hash)]
pub struct StateId(pub u64);

/// A compact index of a node in the node arena.
///
/// It is never zero: slot zero of the arena holds a dummy node that is never
/// removed, so a real node's index always fits a non-zero `u16`.
#[derive(Debug, Clone, Copy, PartialEq, Eq, Structural, Hash)]
pub struct NodeI {
    raw: u16,
}

impl NodeI {
    /// The index as a mathematical integer.
    pub closed spec fn index(self) -> usize {
        self.raw as usize
    }

    /// A node index is never zero.
    pub closed spec fn valid(self) -> bool {
        self.raw != 0
    }

    /// Builds a node index from an arena slot. The slot is truncated to 16
    /// bits, as with `value as u16`; the truncated value must not be zero.
    pub fn from(value: usize) -> (r: Self)
        requires
            value % 0x10000 != 0,
        ensures
            r.index() == value % 0x10000,
            r.valid(),
    {
        let raw: u16 = (value % 0x10000) as u16;
        NodeI { raw }
    }

    pub fn as_usize(&self) -> (r: usize)
        ensures
            r == self.index(),
            r < 0x10000,
    {
        self.raw as usize
    }

    pub proof fn lemma_valid(self)
        ensures
            self.valid() <==> self.index() != 0,
            self.index() < 0x10000,
    {
    }
}

/// The index of the root node.
pub fn root_i() -> (r: NodeI)
    ensures
        r.index() == 1,
        r.valid(),
{
    NodeI::from(1)
}

/// A deliberately wrong index, used as a placeholder parent for nodes that
/// are not linked into the tree yet.
pub fn dummy_i() -> (r: NodeI)
    ensures
        r.index() == 12312355usize % 0x10000usize,
{
    NodeI::from(12312355)
}

} // verus!
