//! The debounce state machine guarding durable writes.
//!
//! Every mutation of the collection notifies this state machine. A write is
//! performed at once only when at least the debounce interval has elapsed
//! since the last successful flush (or when nothing was ever flushed);
//! otherwise the change is merely marked pending, to be carried out by a
//! later mutation's write or by a forced flush at shutdown. There is no
//! background timer: the machine only decides, and the host performs the
//! write and reports back its outcome.

use vstd::prelude::*;

verus! {

/// The default minimum interval between two ordinary durable writes, in
/// milliseconds.
pub const SAVE_DEBOUNCE_MS: u64 = 1000;

/// What the state machine asks of the host after a mutation.
#[derive(Clone, Copy, Debug, PartialEq, Eq, Structural)]
pub enum FlushDecision {
    /// Write the current snapshot durably now, then report the outcome.
    WriteNow,
    /// Do not write; the change stays pending.
    Deferred,
}

/// The persistence bookkeeping: when the last successful durable write
/// happened (absent if never), whether an unflushed mutation is pending, and
/// the configured debounce interval.
#[derive(Clone, Copy, Debug)]
pub struct PersistenceState {
    pub last_flush: Option<i64>,
    pub pending: bool,
    pub debounce_ms: u64,
}

impl PersistenceState {
    /// Whether a mutation arriving at time `now` must be written through at
    /// once: true when nothing was ever flushed, or when at least the
    /// debounce interval has elapsed since the last successful flush.
    pub open spec fn due(self, now: i64) -> bool {
        match self.last_flush {
            None => true,
            Some(t) => now - t >= self.debounce_ms,
        }
    }

    /// The state after a mutation was noted: the change is pending until a
    /// successful flush.
    pub open spec fn noted(self) -> PersistenceState {
        PersistenceState { pending: true, ..self }
    }

    /// Fresh bookkeeping: nothing flushed, nothing pending.
    pub fn new(debounce_ms: u64) -> (s: PersistenceState)
        ensures
            s == (PersistenceState { last_flush: None::<i64>, pending: false, debounce_ms }),
    {
        PersistenceState { last_flush: None, pending: false, debounce_ms }
    }

    /// Whether a mutation at time `now` would be written through at once.
    pub fn is_due(&self, now: i64) -> (b: bool)
        ensures
            b == self.due(now),
    {
        match self.last_flush {
            None => true,
            Some(t) => (now as i128) - (t as i128) >= (self.debounce_ms as i128),
        }
    }

    /// Notes that the collection was mutated at time `now` and decides
    /// whether the host must write the snapshot durably at once. The change
    /// is pending either way until `flush_succeeded` is called.
    pub fn note_mutation(&mut self, now: i64) -> (d: FlushDecision)
        ensures
            *final(self) == old(self).noted(),
            d == FlushDecision::WriteNow <==> old(self).due(now),
    {
        self.pending = true;
        if self.is_due(now) {
            FlushDecision::WriteNow
        } else {
            FlushDecision::Deferred
        }
    }

    /// Records a successful durable write finished at time `now`: the state
    /// is clean until the next mutation.
    pub fn flush_succeeded(&mut self, now: i64)
        ensures
            *final(self) == (PersistenceState {
                last_flush: Some(now),
                pending: false,
                debounce_ms: old(self).debounce_ms,
            }),
    {
        self.last_flush = Some(now);
        self.pending = false;
    }

    /// Records a failed durable write: the durable copy is stale, so the
    /// change stays pending; the failure is the caller's to report.
    pub fn flush_failed(&mut self)
        ensures
            *final(self) == (PersistenceState { pending: true, ..*old(self) }),
    {
        self.pending = true;
    }

    /// Whether a mutation has occurred since the last successful flush that
    /// has not yet been durably written.
    pub fn is_pending(&self) -> (b: bool)
        ensures
            b == self.pending,
    {
        self.pending
    }
}

/// Debounce coalescing: once a flush has succeeded at time `t`, any two
/// mutations arriving within the debounce interval after `t` are both
/// deferred — neither triggers a durable write; they only mark the state
/// pending.
pub proof fn lemma_debounce_coalesces(s: PersistenceState, n1: i64, n2: i64)
    requires
        s.last_flush is Some,
        n1 - s.last_flush->0 < s.debounce_ms,
        n2 - s.last_flush->0 < s.debounce_ms,
    ensures
        !s.due(n1),
        !s.noted().due(n2),
        s.noted().noted() == s.noted(),
{
}

} // verus!
