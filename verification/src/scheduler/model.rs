//! The queue as a mathematical value, and its steps as functions on that
//! value. The executable queue is specified against these.

use crate::key::KeyView;
use crate::outcome::{deadline, ReconcileOutcome};
use vstd::prelude::*;

verus! {

/// What a `ReconcileRequest` stands for.
pub struct RequestView {
    pub key: KeyView,
    pub scheduled_at: u64,
}

/// What a `Dequeue` stands for.
pub enum DequeueView {
    Ready(KeyView),
    Blocked(Option<u64>),
    Closed,
}

/// The state of a `Scheduler`: the pending requests in the order in which
/// their keys were first queued, the keys whose reconciles are running in
/// the order in which they were handed out, and whether the queue was closed.
pub struct SchedulerView {
    pub pending: Seq<RequestView>,
    pub in_flight: Seq<KeyView>,
    pub closed: bool,
}

/// No two of the requests are for the same key.
pub open spec fn distinct_requests(requests: Seq<RequestView>) -> bool {
    forall|i: int, j: int|
        0 <= i < j < requests.len() ==> (#[trigger] requests[i]).key != (#[trigger] requests[j]).key
}

/// The test whether a key is `key`.
pub open spec fn is_key(key: KeyView) -> spec_fn(KeyView) -> bool {
    |k: KeyView| k == key
}

/// No key occurs twice.
pub open spec fn distinct_keys(keys: Seq<KeyView>) -> bool {
    forall|i: int, j: int| 0 <= i < j < keys.len() ==> #[trigger] keys[i] != #[trigger] keys[j]
}

impl SchedulerView {
    /// No key is pending twice, and no key is running twice.
    pub open spec fn wf(self) -> bool {
        distinct_requests(self.pending) && distinct_keys(self.in_flight)
    }

    /// The request at place `i` is the one for `key`.
    pub open spec fn holds(self, i: int, key: KeyView) -> bool {
        0 <= i < self.pending.len() && self.pending[i].key == key
    }

    /// Whether a request for `key` is pending.
    pub open spec fn is_pending(self, key: KeyView) -> bool {
        exists|i: int| self.holds(i, key)
    }

    /// The place of the pending request for `key`.
    pub open spec fn place(self, key: KeyView) -> int {
        choose|i: int| self.holds(i, key)
    }

    /// The time for which `key` is scheduled, if a request for it is pending.
    pub open spec fn scheduled_at(self, key: KeyView) -> Option<u64> {
        if self.is_pending(key) {
            Some(self.pending[self.place(key)].scheduled_at)
        } else {
            None
        }
    }

    /// Whether a reconcile of `key` is running.
    pub open spec fn is_in_flight(self, key: KeyView) -> bool {
        self.in_flight.contains(key)
    }

    /// How many reconciles of `key` are running.
    pub open spec fn running(self, key: KeyView) -> nat {
        self.in_flight.filter(is_key(key)).len()
    }

    /// The state after a request: a key that is already pending keeps its
    /// place and takes the new time, be it earlier or later than the old; a key
    /// that is not pending is queued last.
    pub open spec fn enqueue(self, request: RequestView) -> SchedulerView {
        if self.is_pending(request.key) {
            SchedulerView {
                pending: self.pending.update(self.place(request.key), request),
                ..self
            }
        } else {
            SchedulerView { pending: self.pending.push(request), ..self }
        }
    }

    /// The request at place `i` is not held back by a running reconcile.
    pub open spec fn waiting(self, i: int) -> bool {
        0 <= i < self.pending.len() && !self.is_in_flight(self.pending[i].key)
    }

    /// The request at `i` is served before the one at `j`: the earlier time
    /// first, and of two equal times the earlier place.
    pub open spec fn precedes(self, i: int, j: int) -> bool {
        self.pending[i].scheduled_at < self.pending[j].scheduled_at || (
        self.pending[i].scheduled_at == self.pending[j].scheduled_at && i <= j)
    }

    /// The request at place `i` is the next to be served.
    pub open spec fn front(self, i: int) -> bool {
        self.waiting(i) && forall|j: int| self.waiting(j) ==> self.precedes(i, j)
    }

    /// The place of the request that is served next, if any request is not
    /// held back.
    pub open spec fn head(self) -> Option<int> {
        if exists|i: int| self.front(i) {
            Some(choose|i: int| self.front(i))
        } else {
            None
        }
    }

    /// The answer to a worker that asks at time `now`, and the state after
    /// it. A closed queue answers `Closed`. Otherwise the request that is
    /// served next decides: if its time has come, its key leaves the pending
    /// requests and joins the running reconciles; if not, the state stays
    /// and the answer names that time.
    pub open spec fn dequeue(self, now: u64) -> (DequeueView, SchedulerView) {
        if self.closed {
            (DequeueView::Closed, self)
        } else {
            match self.head() {
                None => (DequeueView::Blocked(None), self),
                Some(i) => if self.pending[i].scheduled_at <= now {
                    (
                        DequeueView::Ready(self.pending[i].key),
                        SchedulerView {
                            pending: self.pending.remove(i),
                            in_flight: self.in_flight.push(self.pending[i].key),
                            closed: self.closed,
                        },
                    )
                } else {
                    (DequeueView::Blocked(Some(self.pending[i].scheduled_at)), self)
                },
            }
        }
    }

    /// The state after the running reconcile of `key` has ended.
    pub open spec fn release(self, key: KeyView) -> SchedulerView {
        if self.is_in_flight(key) {
            SchedulerView { in_flight: self.in_flight.remove(self.in_flight.index_of(key)), ..self }
        } else {
            self
        }
    }

    /// The state after a reconcile of `key` has ended at `now` with
    /// `outcome`: the key is no longer running, and where the outcome asks
    /// for a requeue, the key is requested for `now` plus the delay.
    pub open spec fn complete(self, key: KeyView, outcome: ReconcileOutcome, now: u64) -> SchedulerView {
        match outcome.delay() {
            Some(after) => self.release(key).enqueue(
                RequestView { key, scheduled_at: deadline(now, after) },
            ),
            None => self.release(key),
        }
    }

    /// The state after the queue was closed.
    pub open spec fn close(self) -> SchedulerView {
        SchedulerView { closed: true, ..self }
    }
}

/// One step of the queue: a request comes in, a worker asks for work, a
/// reconcile is reported as ended, or the queue is closed.
pub enum Step {
    Enqueue(RequestView),
    Dequeue(u64),
    Complete(KeyView, ReconcileOutcome, u64),
    Close,
}

impl SchedulerView {
    /// The state of a new queue.
    pub open spec fn initial() -> SchedulerView {
        SchedulerView {
            pending: Seq::<RequestView>::empty(),
            in_flight: Seq::<KeyView>::empty(),
            closed: false,
        }
    }

    /// The state after one step.
    pub open spec fn step(self, step: Step) -> SchedulerView {
        match step {
            Step::Enqueue(request) => self.enqueue(request),
            Step::Dequeue(now) => self.dequeue(now).1,
            Step::Complete(key, outcome, now) => self.complete(key, outcome, now),
            Step::Close => self.close(),
        }
    }

    /// Whether `key` is handed out by one of the next `n + 1` answers to
    /// workers that ask at `now`, with no other step between them.
    pub open spec fn serves_within(self, key: KeyView, now: u64, n: nat) -> bool
        decreases n,
    {
        match self.dequeue(now).0 {
            DequeueView::Ready(k) => k == key || (n > 0 && self.dequeue(now).1.serves_within(
                key,
                now,
                (n - 1) as nat,
            )),
            _ => false,
        }
    }

    /// The state after a sequence of steps, taken one after the other.
    pub open spec fn run(self, steps: Seq<Step>) -> SchedulerView
        decreases steps.len(),
    {
        if steps.len() == 0 {
            self
        } else {
            self.run(steps.drop_last()).step(steps.last())
        }
    }
}

} // verus!
