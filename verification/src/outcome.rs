//! What a reconcile asks of the queue, and the two fixed intervals of the
//! requeue policy.

use vstd::prelude::*;

verus! {

/// Seconds between two reconciles of an object whose last reconcile succeeded.
pub const RESYNC_INTERVAL_SECS: u64 = 60;

/// Seconds before an object whose reconcile failed is tried again.
pub const ERROR_INTERVAL_SECS: u64 = 300;

/// The moment at which a request made at `now` with a delay of `after`
/// seconds becomes eligible; a moment beyond the clock's range is held at
/// the largest one.
pub open spec fn deadline(now: u64, after: u64) -> u64 {
    if now + after > u64::MAX {
        u64::MAX
    } else {
        (now + after) as u64
    }
}

/// Computes [`deadline`].
pub fn deadline_of(now: u64, after: u64) -> (at: u64)
    ensures
        at == deadline(now, after),
{
    now.saturating_add(after)
}

/// What is to happen to an object after a reconcile of it.
#[derive(Clone, Copy, Debug, PartialEq, Eq, Structural)]
pub enum ReconcileOutcome {
    /// Reconcile again after so many seconds.
    Requeue(u64),
    /// The reconcile failed: try again after so many seconds.
    RequeueError(u64),
    /// Wait for the next change.
    NoRequeue,
}

impl ReconcileOutcome {
    /// The delay that the outcome asks for, if it asks for a requeue.
    pub open spec fn delay(self) -> Option<u64> {
        match self {
            ReconcileOutcome::Requeue(after) => Some(after),
            ReconcileOutcome::RequeueError(after) => Some(after),
            ReconcileOutcome::NoRequeue => None,
        }
    }

    /// Computes [`ReconcileOutcome::delay`].
    pub fn requeue_after(&self) -> (after: Option<u64>)
        ensures
            after == self.delay(),
    {
        match self {
            ReconcileOutcome::Requeue(after) => Some(*after),
            ReconcileOutcome::RequeueError(after) => Some(*after),
            ReconcileOutcome::NoRequeue => None,
        }
    }
}

} // verus!
