//! A Lamport logical clock: a monotone counter that reconciles locally
//! generated and externally observed message sequence numbers.
//!
//! The clock is modeled as a sequential value behind `&mut`, so the
//! compare-and-retry loop of a shared atomic collapses to one exact
//! update. A process that shares one clock across threads guards it with a
//! lock; each operation's contract then holds per locked call, which is
//! what the ordering laws below are stated over.

use vstd::prelude::*;

verus! {

/// The value an observation drives the counter to: observing `observed`
/// advances the counter so that the next minted id exceeds `observed`,
/// but never moves it backward.
pub open spec fn reconciled(cur: int, observed: int) -> int {
    if cur > observed + 1 {
        cur
    } else {
        observed + 1
    }
}

/// A monotone `u64` counter shared by one node process. `increment` mints
/// the next message id; `fetch_set` reconciles the counter with an id
/// observed on an inbound message.
pub struct LamportClock {
    counter: u64,
}

impl View for LamportClock {
    type V = u64;

    closed spec fn view(&self) -> u64 {
        self.counter
    }
}

impl LamportClock {
    /// A fresh clock starts at zero.
    pub fn new() -> (r: Self)
        ensures
            r@ == 0,
    {
        LamportClock { counter: 0 }
    }

    /// The current counter value; no side effect.
    pub fn time(&self) -> (r: u64)
        ensures
            r == self@,
    {
        self.counter
    }

    /// Reserves the current value as a fresh message id and advances the
    /// counter past it: returns the pre-increment snapshot.
    pub fn increment(&mut self) -> (r: u64)
        requires
            old(self)@ < u64::MAX,
        ensures
            r == old(self)@,
            final(self)@ == old(self)@ + 1,
    {
        let r = self.counter;
        self.counter = self.counter + 1;
        r
    }

    /// Reconciles the counter with an observed message id: afterwards the
    /// counter is `max(counter, other + 1)`, so the next `increment` returns
    /// a value beyond `other`, and the counter never decreases.
    pub fn fetch_set(&mut self, other: u64)
        requires
            other < u64::MAX,
        ensures
            final(self)@ == reconciled(old(self)@ as int, other as int),
            final(self)@ >= old(self)@,
            final(self)@ > other,
    {
        let cur = self.counter;
        if other < cur {
            return ;
        }
        self.counter = other + 1;
    }
}

impl From<u64> for LamportClock {
    /// A clock may start from a previously observed counter value.
    fn from(value: u64) -> (r: LamportClock) {
        LamportClock { counter: value }
    }
}

impl vstd::std_specs::convert::FromSpecImpl<u64> for LamportClock {
    open spec fn obeys_from_spec() -> bool {
        true
    }

    closed spec fn from_spec(value: u64) -> LamportClock {
        LamportClock { counter: value }
    }
}

/// A clock started from an observed value holds exactly that value.
pub proof fn lemma_clock_from(value: u64)
    ensures
        (<LamportClock as vstd::std_specs::convert::FromSpec<u64>>::from_spec(value))@ == value,
{
}

impl Default for LamportClock {
    fn default() -> (r: Self)
        ensures
            r@ == 0,
    {
        LamportClock::new()
    }
}

/// Reconciling two observed ids drives the counter to the same value in
/// either order; after both, the counter (and hence the next minted id)
/// exceeds the larger of the two; and no reconciliation ever lowers it.
pub proof fn lemma_reconcile_order_independent(cur: int, a: int, b: int)
    requires
        a < b,
    ensures
        reconciled(reconciled(cur, a), b) == reconciled(reconciled(cur, b), a),
        reconciled(reconciled(cur, a), b) > b,
        reconciled(cur, a) >= cur,
        reconciled(reconciled(cur, a), b) >= reconciled(cur, a),
{
}

/// The value the k-th `increment` call returns when the counter starts at
/// `start` and only `increment` runs in between: each call returns the
/// counter it saw and leaves the counter one higher.
pub open spec fn increment_result(start: int, k: nat) -> int {
    start + k
}

/// Sequential `increment` calls return pairwise distinct values with no
/// gaps: the k-th call returns exactly `start + k`.
pub proof fn lemma_increment_values_distinct(start: int, i: nat, j: nat)
    requires
        i != j,
    ensures
        increment_result(start, i) != increment_result(start, j),
        i + 1 == j ==> increment_result(start, j) == increment_result(start, i) + 1,
{
}

} // verus!
