use vstd::prelude::*;

verus! {

/// The kinds of input a node responds to, as a set of bit flags.
#[derive(Debug, Clone, Copy, PartialEq, Eq, Structural, Hash, Default)]
pub struct Sense {
    pub bits: u16,
}

impl Sense {
    pub fn click() -> (r: Sense)
        ensures
            r.bits == 1,
    {
        Sense { bits: 1 }
    }
    pub fn drag() -> (r: Sense)
        ensures
            r.bits == 2,
    {
        Sense { bits: 2 }
    }
    pub fn hover() -> (r: Sense)
        ensures
            r.bits == 4,
    {
        Sense { bits: 4 }
    }
    pub fn scroll() -> (r: Sense)
        ensures
            r.bits == 8,
    {
        Sense { bits: 8 }
    }
    pub fn hold() -> (r: Sense)
        ensures
            r.bits == 16,
    {
        Sense { bits: 16 }
    }
    pub fn click_release() -> (r: Sense)
        ensures
            r.bits == 32,
    {
        Sense { bits: 32 }
    }
    pub fn drag_drop_target() -> (r: Sense)
        ensures
            r.bits == 64,
    {
        Sense { bits: 64 }
    }
    /// Hints that the window loop should never sleep while this node is visible.
    pub fn time() -> (r: Sense)
        ensures
            r.bits == 128,
    {
        Sense { bits: 128 }
    }
    /// Like `HOVER`, but only wakes up the event loop on hover enter or exit.
    pub fn hover_enter_or_exit() -> (r: Sense)
        ensures
            r.bits == 256,
    {
        Sense { bits: 256 }
    }
    pub fn none() -> (r: Sense)
        ensures
            r.bits == 0,
    {
        Sense { bits: 0 }
    }

    /// All the flags set in `other` are set in `self`.
    pub open spec fn spec_contains(self, other: Sense) -> bool {
        self.bits & other.bits == other.bits
    }

    /// Some flag of `other` is set in `self`.
    pub open spec fn spec_intersects(self, other: Sense) -> bool {
        self.bits & other.bits != 0
    }

    pub fn contains(&self, other: Sense) -> (r: bool)
        ensures
            r == self.spec_contains(other),
    {
        self.bits & other.bits == other.bits
    }

    pub fn intersects(&self, other: Sense) -> (r: bool)
        ensures
            r == self.spec_intersects(other),
    {
        self.bits & other.bits != 0
    }

    /// The union of two sets of flags (the `|` operation).
    pub fn union(self, other: Sense) -> (r: Sense)
        ensures
            r.bits == self.bits | other.bits,
            r.spec_contains(self),
            r.spec_contains(other),
    {
        let bits: u16 = self.bits | other.bits;
        let a: u16 = self.bits;
        let b: u16 = other.bits;
        assert((a | b) & a == a) by (bit_vector);
        assert((a | b) & b == b) by (bit_vector);
        Sense { bits }
    }

    pub fn empty() -> (r: Sense)
        ensures
            r.bits == 0,
    {
        Sense { bits: 0 }
    }

    pub fn is_empty(&self) -> (r: bool)
        ensures
            r == (self.bits == 0),
    {
        self.bits == 0
    }
}

/// A set of flags intersects any single flag it contains, and the empty set
/// intersects nothing.
pub proof fn lemma_contains_single_flag_intersects(s: Sense, f: Sense)
    requires
        f.bits != 0,
    ensures
        s.spec_contains(f) ==> s.spec_intersects(f),
        !(Sense { bits: 0 }).spec_intersects(f),
{
    let a = s.bits;
    let b = f.bits;
    assert(b != 0 ==> ((a & b == b) ==> (a & b != 0))) by (bit_vector);
    assert(0u16 & b == 0) by (bit_vector);
}

} // verus!
