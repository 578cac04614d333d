use vstd::prelude::*;
use smallvec::SmallVec;
use crate::ids::Id;

verus! {

/// A short list of node ids, stored inline up to eight entries.
#[verifier::external_body]
pub struct Targets {
    inner: SmallVec<[Id; 8]>,
}

/// The ids a target list holds, in order.
pub uninterp spec fn targets_seq(v: Targets) -> Seq<Id>;

/// `SmallVec::new`: an empty list.
#[verifier::external_body]
pub(crate) fn targets_new() -> (r: Targets)
    ensures
        targets_seq(r).len() == 0,
{
    Targets { inner: SmallVec::new() }
}

/// `SmallVec::push`: appends an id.
#[verifier::external_body]
pub(crate) fn targets_push(v: &mut Targets, id: Id)
    ensures
        targets_seq(*final(v)) == targets_seq(*old(v)).push(id),
{
    v.inner.push(id)
}

/// `SmallVec::len`.
#[verifier::external_body]
pub(crate) fn targets_len(v: &Targets) -> (r: usize)
    ensures
        r == targets_seq(*v).len(),
{
    v.inner.len()
}

/// Indexing a list (it panics out of bounds).
#[verifier::external_body]
pub(crate) fn targets_get(v: &Targets, i: usize) -> (r: Id)
    requires
        i < targets_seq(*v).len(),
    ensures
        r == targets_seq(*v)[i as int],
{
    v.inner[i]
}

/// `SmallVec::clone`: a list with the same ids.
#[verifier::external_body]
pub(crate) fn targets_clone(v: &Targets) -> (r: Targets)
    ensures
        targets_seq(r) == targets_seq(*v),
{
    Targets { inner: v.inner.clone() }
}

/// `==` on two lists: element-wise equality of the ids.
#[verifier::external_body]
pub(crate) fn targets_eq(a: &Targets, b: &Targets) -> (r: bool)
    ensures
        r == (targets_seq(*a) == targets_seq(*b)),
{
    a.inner == b.inner
}

/// Whether the list holds `id`.
pub(crate) fn targets_contains(v: &Targets, id: Id) -> (r: bool)
    ensures
        r == targets_seq(*v).contains(id),
{
    let n = targets_len(v);
    let mut i: usize = 0;
    while i < n
        invariant
            n == targets_seq(*v).len(),
            i <= n,
            forall|j: int| 0 <= j < i ==> targets_seq(*v)[j] != id,
        decreases n - i,
    {
        if targets_get(v, i) == id {
            return true;
        }
        i = i + 1;
    }
    false
}

/// A list from a vector of ids, in the same order.
pub(crate) fn targets_from_vec(ids: &Vec<Id>) -> (r: Targets)
    ensures
        targets_seq(r) == ids@,
{
    let mut out = targets_new();
    let mut i: usize = 0;
    while i < ids.len()
        invariant
            i <= ids.len(),
            targets_seq(out) == ids@.take(i as int),
        decreases ids.len() - i,
    {
        targets_push(&mut out, ids[i]);
        proof {
            assert(ids@.take(i as int + 1) =~= ids@.take(i as int).push(ids@[i as int]));
        }
        i = i + 1;
    }
    proof {
        assert(ids@.take(ids.len() as int) =~= ids@);
    }
    out
}

impl Targets {
    /// The ids of the list, in order.
    pub open spec fn view(&self) -> Seq<Id> {
        targets_seq(*self)
    }

    /// A list holding the given ids, in order.
    pub fn from_vec(ids: &Vec<Id>) -> (r: Targets)
        ensures
            r@ == ids@,
    {
        targets_from_vec(ids)
    }

    /// The ids of the list, in order.
    pub fn to_vec(&self) -> (r: Vec<Id>)
        ensures
            r@ == self@,
    {
        let n = targets_len(self);
        let mut out: Vec<Id> = Vec::new();
        let mut i: usize = 0;
        while i < n
            invariant
                n == self@.len(),
                i <= n,
                out@ == self@.take(i as int),
            decreases n - i,
        {
            out.push(targets_get(self, i));
            proof {
                assert(self@.take(i as int + 1) =~= self@.take(i as int).push(self@[i as int]));
            }
            i = i + 1;
        }
        proof {
            assert(self@.take(n as int) =~= self@);
        }
        out
    }

    /// Whether the list holds `id`.
    pub fn contains(&self, id: Id) -> (r: bool)
        ensures
            r == self@.contains(id),
    {
        targets_contains(self, id)
    }
}

} // verus!
