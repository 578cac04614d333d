use vstd::prelude::*;

verus! {

/// How an observed value reports changes.
#[derive(Debug, Clone, Copy, PartialEq, Eq, Structural)]
pub enum Changed {
    ChangedAt(u64),
    NeedsHash,
    Static,
}

/// The counter that hands out the "timestamps" with which [`Observer`]s
/// record when they were changed.
pub struct ObserverClock {
    pub time: u64,
}

impl ObserverClock {
    /// A clock that starts counting at 10.
    pub fn new() -> (r: Self)
        ensures
            r.time == 10,
    {
        ObserverClock { time: 10 }
    }

    /// Returns the current timestamp and advances the clock by one, wrapping
    /// around at `u64::MAX` (an atomic `fetch_add(1)`).
    pub fn observer_timestamp(&mut self) -> (r: u64)
        ensures
            r == old(self).time,
            final(self).time == (if old(self).time == u64::MAX { 0 } else { (old(self).time + 1) as u64 }),
    {
        let t = self.time;
        self.time = t.wrapping_add(1);
        t
    }
}

/// Whether a value stamped `changed_at` counts as changed for a frame that
/// started at stamp `since`.
pub open spec fn changed_since(changed_at: u64, since: u64) -> bool {
    changed_at > since
}

/// A value set while the clock is past `since` counts as changed.
pub proof fn lemma_set_counts_as_changed(clock: u64, since: u64)
    requires
        clock > since,
    ensures
        changed_since(clock, since),
{
}

/// A value made with `new_const` never counts as changed.
pub proof fn lemma_const_never_changed(since: u64)
    ensures
        !changed_since(0, since),
{
}

/// Two observers made one after the other from a clock that has started and
/// not run out: the later one is stamped later, and both count as changed
/// against a constant (stamped 0).
pub proof fn lemma_later_observer_is_newer(first_clock: u64, second_clock: u64)
    requires
        0 < first_clock < u64::MAX,
        second_clock == first_clock + 1,
    ensures
        0 < first_clock < second_clock,
        changed_since(second_clock, first_clock),
        changed_since(first_clock, 0),
{
}

/// A wrapper that keeps track of changes to a value: every write through it
/// records a fresh timestamp.
pub struct Observer<T> {
    pub value: T,
    pub changed_at: u64,
}

impl<T> Observer<T> {
    /// Wraps a value, marking it as changed now.
    pub fn new(value: T, clock: &mut ObserverClock) -> (r: Self)
        ensures
            r.value == value,
            r.changed_at == old(clock).time,
            final(clock).time == (if old(clock).time == u64::MAX { 0 } else { (old(clock).time + 1) as u64 }),
    {
        Observer { value, changed_at: clock.observer_timestamp() }
    }

    /// Wraps a value that never changes: its timestamp stays at zero.
    pub fn new_const(value: T) -> (r: Self)
        ensures
            r.value == value,
            r.changed_at == 0,
    {
        Observer { value, changed_at: 0 }
    }

    /// When the value last changed.
    pub fn changed_at(&self) -> (r: Changed)
        ensures
            r == Changed::ChangedAt(self.changed_at),
    {
        Changed::ChangedAt(self.changed_at)
    }

    /// Reads the value.
    pub fn get(&self) -> (r: &T)
        ensures
            *r == self.value,
    {
        &self.value
    }

    /// Replaces the value, marking it as changed now.
    pub fn set(&mut self, value: T, clock: &mut ObserverClock)
        ensures
            final(self).value == value,
            final(self).changed_at == old(clock).time,
            final(clock).time == (if old(clock).time == u64::MAX { 0 } else { (old(clock).time + 1) as u64 }),
    {
        self.changed_at = clock.observer_timestamp();
        self.value = value;
    }
}

} // verus!
