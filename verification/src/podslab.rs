use vstd::prelude::*;

verus! {

/// Whether a slab slot holds an element, and, if it does not, where the free
/// list continues.
#[derive(Debug, Clone, Copy, PartialEq, Eq, Structural)]
pub enum PodSlabMetadata {
    Filled,
    Vacant { next_free: usize },
}

/// An element that stores its own slab metadata inside itself.
///
/// The user implements this for a plain GPU-ready struct; the shader skips the
/// elements whose metadata is `Vacant`.
pub trait PodSlabElement: Copy {
    /// The metadata the element currently encodes.
    spec fn spec_metadata(&self) -> PodSlabMetadata;

    /// The element with its metadata replaced by `m` and everything else kept.
    spec fn spec_with_metadata(&self, m: PodSlabMetadata) -> Self;

    fn metadata(&self) -> (r: PodSlabMetadata)
        ensures
            r == self.spec_metadata(),
    ;

    fn set_metadata(&mut self, metadata: PodSlabMetadata)
        ensures
            *final(self) == old(self).spec_with_metadata(metadata),
            final(self).spec_metadata() == metadata,
    ;

    /// The all-zero element, which a removed slot is reset to.
    spec fn spec_zeroed() -> Self;

    fn zeroed() -> (r: Self)
        ensures
            r == Self::spec_zeroed(),
    ;
}

/// A slab of plain elements kept in one contiguous vector (for direct GPU
/// upload). Vacant slots are chained in a free list through their metadata.
pub struct PodSlab<T: PodSlabElement> {
    data: Vec<T>,
    next: usize,
    /// The free list, from its head: the vacant slots in the order in which
    /// they will be reused.
    free: Ghost<Seq<usize>>,
}

/// The metadata a slot in a free list must hold: a link to the next free slot,
/// or to the end of the vector after the last one.
pub open spec fn free_link(free: Seq<usize>, k: int, len: nat) -> PodSlabMetadata {
    if k + 1 < free.len() {
        PodSlabMetadata::Vacant { next_free: free[k + 1] }
    } else {
        PodSlabMetadata::Vacant { next_free: len as usize }
    }
}

/// The filled elements of `data`, in slot order.
pub open spec fn filled_elements<T: PodSlabElement>(data: Seq<T>) -> Seq<T>
    decreases data.len(),
{
    if data.len() == 0 {
        Seq::empty()
    } else {
        let rest = filled_elements(data.drop_last());
        if data.last().spec_metadata() == PodSlabMetadata::Filled {
            rest.push(data.last())
        } else {
            rest
        }
    }
}

/// Slot `i` of `slots` exists and holds an element.
pub open spec fn filled_at<T: PodSlabElement>(slots: Seq<T>, i: int) -> bool {
    0 <= i < slots.len() && slots[i].spec_metadata() == PodSlabMetadata::Filled
}

/// The slots, free list and returned slot after inserting `e`: the head of the
/// free list is reused if there is one; otherwise the element is appended.
pub open spec fn insert_model<T: PodSlabElement>(slots: Seq<T>, free: Seq<usize>, e: T) -> (Seq<T>, Seq<usize>, usize) {
    let filled = e.spec_with_metadata(PodSlabMetadata::Filled);
    if free.len() == 0 {
        (slots.push(filled), free, slots.len() as usize)
    } else {
        (slots.update(free[0] as int, filled), free.drop_first(), free[0])
    }
}

/// The slots, free list and result after removing slot `i`: a filled slot
/// is reset to the zeroed element and becomes the head of the free list,
/// linked to the previous head; the removed element is returned marked vacant.
pub open spec fn remove_model<T: PodSlabElement>(slots: Seq<T>, free: Seq<usize>, i: int) -> (Seq<T>, Seq<usize>, Option<T>) {
    if !filled_at(slots, i) {
        (slots, free, None)
    } else {
        let old_next = if free.len() > 0 { free[0] } else { slots.len() as usize };
        (
            slots.update(i, T::spec_zeroed().spec_with_metadata(PodSlabMetadata::Vacant { next_free: old_next })),
            seq![i as usize].add(free),
            Some(slots[i].spec_with_metadata(PodSlabMetadata::Vacant { next_free: 0 })),
        )
    }
}

/// The element in slot `i`, if it is filled.
pub open spec fn get_model<T: PodSlabElement>(slots: Seq<T>, i: int) -> Option<T> {
    if filled_at(slots, i) { Some(slots[i]) } else { None }
}

/// An element that was inserted is read back from the slot that `insert`
/// returned.
pub proof fn lemma_get_after_insert<T: PodSlabElement>(slots: Seq<T>, free: Seq<usize>, e: T)
    requires
        slots.len() < usize::MAX,
        forall|k: int| 0 <= k < free.len() ==> #[trigger] free[k] < slots.len(),
        e.spec_with_metadata(PodSlabMetadata::Filled).spec_metadata() == PodSlabMetadata::Filled,
    ensures
        ({
            let (s1, _f1, r) = insert_model(slots, free, e);
            get_model(s1, r as int) == Some(e.spec_with_metadata(PodSlabMetadata::Filled))
        }),
{
    if free.len() > 0 {
        assert(free[0] < slots.len());
    }
}

/// After a filled slot is removed, it is vacant, and the next insertion
/// reuses it.
pub proof fn lemma_insert_reuses_removed<T: PodSlabElement>(slots: Seq<T>, free: Seq<usize>, i: int, e: T)
    requires
        slots.len() < usize::MAX,
        filled_at(slots, i),
        forall|m: PodSlabMetadata, x: T| (#[trigger] x.spec_with_metadata(m)).spec_metadata() == m,
    ensures
        ({
            let (s1, f1, _r) = remove_model(slots, free, i);
            &&& get_model(s1, i) == None::<T>
            &&& insert_model(s1, f1, e).2 == i
        }),
{
    let old_next = if free.len() > 0 { free[0] } else { slots.len() as usize };
    assert(T::spec_zeroed().spec_with_metadata(PodSlabMetadata::Vacant { next_free: old_next }).spec_metadata()
        == PodSlabMetadata::Vacant { next_free: old_next });
}

impl<T: PodSlabElement> PodSlab<T> {
    /// Every slot of the slab, vacant ones included.
    pub closed spec fn slots(&self) -> Seq<T> {
        self.data@
    }

    /// The free list: the vacant slots, in the order in which `insert` reuses them.
    pub closed spec fn free_list(&self) -> Seq<usize> {
        self.free@
    }

    /// Slot `i` exists and holds an element.
    pub open spec fn is_filled(&self, i: int) -> bool {
        0 <= i < self.slots().len() && self.slots()[i].spec_metadata() == PodSlabMetadata::Filled
    }

    /// The free list is consistent with the slots' metadata.
    pub closed spec fn wf(&self) -> bool {
        let len = self.data@.len();
        let free = self.free@;
        &&& self.next <= len
        &&& (free.len() == 0 <==> self.next == len)
        &&& free.len() > 0 ==> self.next == free[0]
        &&& forall|k: int| 0 <= k < free.len() ==> #[trigger] free[k] < len
        &&& forall|k: int, l: int| 0 <= k < l < free.len() ==> free[k] != free[l]
        &&& forall|k: int| 0 <= k < free.len() ==>
            (#[trigger] self.data@[free[k] as int]).spec_metadata() == free_link(free, k, len)
        &&& forall|i: int| 0 <= i < len ==>
            ((#[trigger] self.data@[i]).spec_metadata() != PodSlabMetadata::Filled ==> free.contains(i as usize))
    }

    pub fn new() -> (r: Self)
        ensures
            r.wf(),
            r.slots() == Seq::<T>::empty(),
            r.free_list() == Seq::<usize>::empty(),
    {
        PodSlab { data: Vec::new(), next: 0, free: Ghost(Seq::empty()) }
    }

    /// Inserts an element and returns its slot. The head of the free list is
    /// reused if there is one; otherwise the element is appended.
    pub fn insert(&mut self, element: T) -> (r: usize)
        requires
            old(self).wf(),
            old(self).slots().len() < usize::MAX,
        ensures
            final(self).wf(),
            (final(self).slots(), final(self).free_list(), r) == insert_model(old(self).slots(), old(self).free_list(), element),
            final(self).is_filled(r as int),
            !old(self).is_filled(r as int),
    {
        let mut element = element;
        if self.next >= self.data.len() {
            element.set_metadata(PodSlabMetadata::Filled);
            self.data.push(element);
            self.next = self.data.len();
            proof {
                let len = self.data@.len();
                assert forall|i: int| 0 <= i < len implies
                    ((#[trigger] self.data@[i]).spec_metadata() != PodSlabMetadata::Filled ==> self.free@.contains(i as usize)) by {
                    if i < len - 1 {
                        assert(self.data@[i] == old(self).data@[i]);
                    }
                }
            }
            return self.data.len() - 1;
        }
        let index = self.next;
        proof {
            assert(self.free@[0] == index);
            assert(self.data@[self.free@[0] as int].spec_metadata() == free_link(self.free@, 0, self.data@.len()));
        }
        let next_free = match self.data[index].metadata() {
            PodSlabMetadata::Vacant { next_free } => next_free,
            PodSlabMetadata::Filled => {
                proof {
                    assert(false);
                }
                index
            },
        };
        self.next = next_free;
        element.set_metadata(PodSlabMetadata::Filled);
        self.data.set(index, element);
        proof {
            let old_free = self.free@;
            let new_free = old_free.drop_first();
            let len = self.data@.len();
            self.free@ = new_free;
            assert forall|k: int| 0 <= k < new_free.len() implies
                (#[trigger] self.data@[new_free[k] as int]).spec_metadata() == free_link(new_free, k, len) by {
                assert(new_free[k] == old_free[k + 1]);
                assert(old_free[k + 1] != old_free[0]);
                assert(old(self).data@[old_free[k + 1] as int].spec_metadata() == free_link(old_free, k + 1, len));
            }
            assert forall|i: int| 0 <= i < len implies
                ((#[trigger] self.data@[i]).spec_metadata() != PodSlabMetadata::Filled ==> new_free.contains(i as usize)) by {
                if i != index as int && self.data@[i].spec_metadata() != PodSlabMetadata::Filled {
                    assert(old(self).data@[i] == self.data@[i]);
                    assert(old_free.contains(i as usize));
                    let k = choose|k: int| 0 <= k < old_free.len() && old_free[k] == i as usize;
                    assert(k != 0);
                    assert(new_free[k - 1] == i as usize);
                }
            }
            assert forall|k: int, l: int| 0 <= k < l < new_free.len() implies new_free[k] != new_free[l] by {
                assert(new_free[k] == old_free[k + 1]);
                assert(new_free[l] == old_free[l + 1]);
            }
            if new_free.len() > 0 {
                assert(old(self).data@[old_free[0] as int].spec_metadata() == free_link(old_free, 0, len));
            } else {
                assert(old(self).data@[old_free[0] as int].spec_metadata() == free_link(old_free, 0, len));
            }
        }
        index
    }

    /// Removes the element in slot `index` and returns it, marked vacant.
    /// Returns `None` if the slot does not exist or is already vacant.
    ///
    /// The slot is reset to the zeroed element, marked vacant with a link to
    /// the previous head of the free list.
    pub fn remove(&mut self, index: usize) -> (r: Option<T>)
        requires
            old(self).wf(),
        ensures
            final(self).wf(),
            (final(self).slots(), final(self).free_list(), r) == remove_model(old(self).slots(), old(self).free_list(), index as int),
            !final(self).is_filled(index as int),
    {
        if index >= self.data.len() {
            return None;
        }
        let mut slot = self.data[index];
        match slot.metadata() {
            PodSlabMetadata::Vacant { .. } => {
                return None;
            },
            PodSlabMetadata::Filled => {},
        }
        let mut element = slot;
        let old_next = self.next;
        slot = T::zeroed();
        slot.set_metadata(PodSlabMetadata::Vacant { next_free: old_next });
        self.data.set(index, slot);
        self.next = index;
        proof {
            let old_free = self.free@;
            let new_free = seq![index].add(old_free);
            let len = self.data@.len();
            self.free@ = new_free;
            assert(!old_free.contains(index)) by {
                if old_free.contains(index) {
                    let k = choose|k: int| 0 <= k < old_free.len() && old_free[k] == index;
                    assert(old(self).data@[old_free[k] as int].spec_metadata() == free_link(old_free, k, len));
                }
            }
            assert forall|k: int| 0 <= k < new_free.len() implies
                (#[trigger] self.data@[new_free[k] as int]).spec_metadata() == free_link(new_free, k, len) by {
                if k > 0 {
                    assert(new_free[k] == old_free[k - 1]);
                    assert(old_free[k - 1] != index);
                    assert(old(self).data@[old_free[k - 1] as int].spec_metadata() == free_link(old_free, k - 1, len));
                }
            }
            assert forall|k: int| 0 <= k < new_free.len() implies #[trigger] new_free[k] < len by {
                if k > 0 {
                    assert(new_free[k] == old_free[k - 1]);
                }
            }
            assert forall|k: int, l: int| 0 <= k < l < new_free.len() implies new_free[k] != new_free[l] by {
                assert(new_free[l] == old_free[l - 1]);
                if k > 0 {
                    assert(new_free[k] == old_free[k - 1]);
                }
            }
            assert forall|i: int| 0 <= i < len implies
                ((#[trigger] self.data@[i]).spec_metadata() != PodSlabMetadata::Filled ==> new_free.contains(i as usize)) by {
                if i == index as int {
                    assert(new_free[0] == index);
                } else if self.data@[i].spec_metadata() != PodSlabMetadata::Filled {
                    assert(old(self).data@[i] == self.data@[i]);
                    let k = choose|k: int| 0 <= k < old_free.len() && old_free[k] == i as usize;
                    assert(new_free[k + 1] == i as usize);
                }
            }
        }
        element.set_metadata(PodSlabMetadata::Vacant { next_free: 0 });
        Some(element)
    }

    /// The element in slot `index`, if the slot exists and is filled.
    pub fn get(&self, index: usize) -> (r: Option<&T>)
        ensures
            r == (match get_model(self.slots(), index as int) { Some(e) => Some(&e), None => None }),
    {
        if index < self.data.len() {
            let element = &self.data[index];
            match element.metadata() {
                PodSlabMetadata::Filled => Some(element),
                PodSlabMetadata::Vacant { .. } => None,
            }
        } else {
            None
        }
    }

    /// The element in slot `index` for writing, if the slot exists and is
    /// filled. A write that keeps the element's metadata `Filled` keeps the
    /// slab consistent.
    pub fn get_mut(&mut self, index: usize) -> (r: Option<&mut T>)
        requires
            old(self).wf(),
        ensures
            !old(self).is_filled(index as int) ==> r is None && final(self).slots() == old(self).slots()
                && final(self).free_list() == old(self).free_list() && final(self).wf(),
            old(self).is_filled(index as int) ==> r is Some,
            r matches Some(e) ==> {
                &&& *e == old(self).slots()[index as int]
                &&& final(self).slots() == old(self).slots().update(index as int, *final(e))
                &&& final(self).free_list() == old(self).free_list()
                &&& (final(e).spec_metadata() == PodSlabMetadata::Filled ==> final(self).wf())
            },
    {
        if index < self.data.len() {
            match self.data[index].metadata() {
                PodSlabMetadata::Filled => Some(&mut self.data[index]),
                PodSlabMetadata::Vacant { .. } => None,
            }
        } else {
            None
        }
    }

    /// All filled elements, in slot order.
    pub fn iter(&self) -> (r: Vec<T>)
        ensures
            r@ == filled_elements(self.slots()),
    {
        let mut out: Vec<T> = Vec::new();
        let n = self.data.len();
        let mut i: usize = 0;
        while i < n
            invariant
                n == self.data@.len(),
                i <= n,
                out@ == filled_elements(self.data@.take(i as int)),
            decreases n - i,
        {
            let e = self.data[i];
            proof {
                assert(self.data@.take(i as int + 1).drop_last() =~= self.data@.take(i as int));
            }
            match e.metadata() {
                PodSlabMetadata::Filled => out.push(e),
                PodSlabMetadata::Vacant { .. } => {},
            }
            i = i + 1;
        }
        proof {
            assert(self.data@.take(n as int) =~= self.data@);
        }
        out
    }

    /// Updates every filled element in place with `f`, in slot order: the
    /// counterpart of iterating over the filled elements mutably. Vacant
    /// slots are left alone; `f` must keep an element filled.
    pub fn iter_mut<F: Fn(T) -> T>(&mut self, f: F)
        requires
            old(self).wf(),
            forall|e: T| e.spec_metadata() == PodSlabMetadata::Filled ==> call_requires(f, (e,)),
            forall|e: T, r: T| e.spec_metadata() == PodSlabMetadata::Filled && call_ensures(f, (e,), r)
                ==> r.spec_metadata() == PodSlabMetadata::Filled,
        ensures
            final(self).wf(),
            final(self).free_list() == old(self).free_list(),
            final(self).slots().len() == old(self).slots().len(),
            forall|j: int| 0 <= j < old(self).slots().len() ==> (if old(self).is_filled(j) {
                call_ensures(f, (old(self).slots()[j],), #[trigger] final(self).slots()[j])
            } else {
                final(self).slots()[j] == old(self).slots()[j]
            }),
    {
        let n = self.data.len();
        let mut i: usize = 0;
        while i < n
            invariant
                self.wf(),
                n == self.data@.len(),
                n == old(self).slots().len(),
                i <= n,
                self.free@ == old(self).free_list(),
                forall|e: T| e.spec_metadata() == PodSlabMetadata::Filled ==> call_requires(f, (e,)),
                forall|e: T, r: T| e.spec_metadata() == PodSlabMetadata::Filled && call_ensures(f, (e,), r)
                    ==> r.spec_metadata() == PodSlabMetadata::Filled,
                forall|j: int| 0 <= j < n ==> ((#[trigger] self.data@[j]).spec_metadata() == PodSlabMetadata::Filled
                    <==> old(self).is_filled(j)),
                forall|j: int| i <= j < n ==> #[trigger] self.data@[j] == old(self).slots()[j],
                forall|j: int| 0 <= j < i ==> (if old(self).is_filled(j) {
                    call_ensures(f, (old(self).slots()[j],), #[trigger] self.data@[j])
                } else {
                    self.data@[j] == old(self).slots()[j]
                }),
            decreases n - i,
        {
            let e = self.data[i];
            match e.metadata() {
                PodSlabMetadata::Filled => {
                    let updated = f(e);
                    let ghost before = self.data@;
                    self.data.set(i, updated);
                    proof {
                        assert(self.data@ == before.update(i as int, updated));
                        let len = self.data@.len();
                        let free = self.free@;
                        assert forall|k: int| 0 <= k < free.len() implies
                            (#[trigger] self.data@[free[k] as int]).spec_metadata() == free_link(free, k, len) by {
                            assert(before[free[k] as int].spec_metadata() == free_link(free, k, len));
                        }
                        assert forall|j: int| 0 <= j < len implies
                            ((#[trigger] self.data@[j]).spec_metadata() != PodSlabMetadata::Filled ==> free.contains(j as usize)) by {
                            assert(before[j].spec_metadata() != PodSlabMetadata::Filled ==> free.contains(j as usize));
                        }
                    }
                },
                PodSlabMetadata::Vacant { .. } => {},
            }
            i = i + 1;
        }
    }

    /// Every slot, vacant ones included, for direct GPU upload.
    pub fn as_slice(&self) -> (r: &[T])
        ensures
            r@ == self.slots(),
    {
        self.data.as_slice()
    }
}

} // verus!
