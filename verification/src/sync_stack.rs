//! A stack of parked execution contexts.

use vstd::prelude::*;

use crate::wake_step;

verus! {

/// A stack of parked execution contexts, each named by a token the embedding
/// chooses.
///
/// Waking always resumes the most recently parked context first (LIFO): a
/// deliberate fairness trade-off that favors low tail latency for the most
/// recent waiter over first-come-first-served order across all waiters.
pub struct SyncStack {
    stack: Vec<u64>,
}

impl View for SyncStack {
    type V = Seq<u64>;

    closed spec fn view(&self) -> Seq<u64> {
        self.stack@
    }
}

impl SyncStack {
    /// Creates a new empty `SyncStack`.
    pub fn new() -> (s: Self)
        ensures
            s@ == Seq::<u64>::empty(),
    {
        SyncStack { stack: Vec::new() }
    }

    /// Records the context `ctx` as parked, on top of the earlier ones. The
    /// context stays on the stack from this moment until a wakeup attempt
    /// unlinks it, so a context may be pushed only while it is not already
    /// there.
    pub fn push(&mut self, ctx: u64)
        requires
            !old(self)@.contains(ctx),
        ensures
            final(self)@ == old(self)@.push(ctx),
    {
        self.stack.push(ctx);
    }

    /// Unlinks the most recently parked context, for the caller to resume.
    /// Returns `None` when no context is parked.
    pub fn pop(&mut self) -> (woken: Option<u64>)
        ensures
            wake_step(old(self)@, final(self)@, woken),
    {
        self.stack.pop()
    }
}

} // verus!
