//! The executable queue.

use crate::key::{KeyView, ObjectKey};
use crate::outcome::{deadline_of, ReconcileOutcome};
use crate::scheduler::laws::{
    lemma_dequeue, lemma_enqueue_wf, lemma_flight_place, lemma_head, lemma_place, lemma_release,
};
use crate::scheduler::model::{DequeueView, RequestView, SchedulerView};
use vstd::prelude::*;

verus! {

/// A request to reconcile the object `key` at `scheduled_at` or later.
#[derive(Debug)]
pub struct ReconcileRequest {
    pub key: ObjectKey,
    pub scheduled_at: u64,
}

impl View for ReconcileRequest {
    type V = RequestView;

    open spec fn view(&self) -> RequestView {
        RequestView { key: self.key@, scheduled_at: self.scheduled_at }
    }
}

/// The answer of the queue to a worker that asks for work.
#[derive(Debug)]
pub enum Dequeue {
    /// Reconcile this key now, and report back with [`Scheduler::complete`].
    Ready(ObjectKey),
    /// Nothing can be handed out now. The time given is the earliest at
    /// which a pending request that is not held back by a running reconcile
    /// comes due; without one, only a new request or a finished reconcile
    /// can change the answer.
    Blocked(Option<u64>),
    /// The queue was closed: there will never be work again.
    Closed,
}

impl View for Dequeue {
    type V = DequeueView;

    open spec fn view(&self) -> DequeueView {
        match self {
            Dequeue::Ready(key) => DequeueView::Ready(key@),
            Dequeue::Blocked(wake) => DequeueView::Blocked(*wake),
            Dequeue::Closed => DequeueView::Closed,
        }
    }
}

/// The views of a list of requests.
spec fn requests_view(requests: Seq<ReconcileRequest>) -> Seq<RequestView> {
    requests.map_values(|r: ReconcileRequest| r@)
}

/// The views of a list of keys.
spec fn keys_view(keys: Seq<ObjectKey>) -> Seq<KeyView> {
    keys.map_values(|k: ObjectKey| k@)
}

/// The work queue.
#[derive(Debug)]
pub struct Scheduler {
    pending: Vec<ReconcileRequest>,
    in_flight: Vec<ObjectKey>,
    closed: bool,
}

impl View for Scheduler {
    type V = SchedulerView;

    closed spec fn view(&self) -> SchedulerView {
        SchedulerView {
            pending: requests_view(self.pending@),
            in_flight: keys_view(self.in_flight@),
            closed: self.closed,
        }
    }
}

impl Scheduler {
    #[verifier::type_invariant]
    spec fn well_formed(&self) -> bool {
        self@.wf()
    }

    /// An open queue without requests and without running reconciles.
    pub fn new() -> (scheduler: Scheduler)
        ensures
            scheduler@ == SchedulerView::initial(),
            scheduler@.wf(),
    {
        let scheduler = Scheduler { pending: Vec::new(), in_flight: Vec::new(), closed: false };
        assert(scheduler@.pending =~= Seq::<RequestView>::empty());
        assert(scheduler@.in_flight =~= Seq::<KeyView>::empty());
        scheduler
    }

    /// Whether the queue was closed.
    pub fn is_closed(&self) -> (closed: bool)
        ensures
            closed == self@.closed,
            self@.wf(),
    {
        proof {
            use_type_invariant(self);
        }
        self.closed
    }

    /// Whether the queue has come to rest for good: it was closed, and no
    /// reconcile is running any more.
    pub fn is_drained(&self) -> (drained: bool)
        ensures
            drained == (self@.closed && self@.in_flight.len() == 0),
    {
        self.closed && self.in_flight.len() == 0
    }

    /// The number of pending requests.
    pub fn len(&self) -> (n: usize)
        ensures
            n == self@.pending.len(),
    {
        self.pending.len()
    }

    /// The number of running reconciles.
    pub fn in_flight_len(&self) -> (n: usize)
        ensures
            n == self@.in_flight.len(),
    {
        self.in_flight.len()
    }

    /// The place of the pending request for `key`, if there is one.
    fn find_pending(&self, key: &ObjectKey) -> (found: Option<usize>)
        ensures
            match found {
                Some(i) => self@.holds(i as int, key@),
                None => !self@.is_pending(key@),
            },
    {
        let mut i: usize = 0;
        while i < self.pending.len()
            invariant
                i <= self.pending@.len(),
                forall|j: int| 0 <= j < i ==> !self@.holds(j, key@),
            decreases self.pending@.len() - i,
        {
            if self.pending[i].key == *key {
                return Some(i);
            }
            i += 1;
        }
        None
    }

    /// The place of `key` among the running reconciles, if it is there.
    fn find_in_flight(&self, key: &ObjectKey) -> (found: Option<usize>)
        ensures
            match found {
                Some(i) => 0 <= i < self@.in_flight.len() && self@.in_flight[i as int] == key@,
                None => !self@.is_in_flight(key@),
            },
    {
        let mut i: usize = 0;
        while i < self.in_flight.len()
            invariant
                i <= self.in_flight@.len(),
                forall|j: int| 0 <= j < i ==> self@.in_flight[j] != key@,
            decreases self.in_flight@.len() - i,
        {
            if self.in_flight[i] == *key {
                return Some(i);
            }
            i += 1;
        }
        None
    }

    /// Whether a reconcile of `key` is running.
    pub fn is_in_flight(&self, key: &ObjectKey) -> (running: bool)
        ensures
            running == self@.is_in_flight(key@),
    {
        self.find_in_flight(key).is_some()
    }

    /// The time for which `key` is scheduled, if a request for it is pending.
    pub fn scheduled_at(&self, key: &ObjectKey) -> (at: Option<u64>)
        ensures
            at == self@.scheduled_at(key@),
    {
        proof {
            use_type_invariant(self);
        }
        match self.find_pending(key) {
            Some(i) => {
                proof {
                    lemma_place(self@, i as int);
                }
                Some(self.pending[i].scheduled_at)
            },
            None => None,
        }
    }

    /// Takes a request. Requests for one key coalesce: the pending request
    /// of that key, if there is one, takes the time of the new request.
    pub fn enqueue(&mut self, request: ReconcileRequest)
        ensures
            final(self)@ == old(self)@.enqueue(request@),
            final(self)@.wf(),
    {
        proof {
            use_type_invariant(&*self);
        }
        let found = self.find_pending(&request.key);
        let ghost before = self@;
        let ghost added = request@;
        proof {
            lemma_enqueue_wf(before, added);
        }
        let mut pending: Vec<ReconcileRequest> = Vec::new();
        std::mem::swap(&mut pending, &mut self.pending);
        match found {
            Some(i) => {
                proof {
                    lemma_place(before, i as int);
                }
                pending.set(i, request);
            },
            None => {
                pending.push(request);
            },
        }
        assert(requests_view(pending@) =~= before.enqueue(added).pending);
        self.pending = pending;
    }

    /// Answers a worker that asks for work at time `now`. Of the pending
    /// requests whose keys are not running, the one with the earliest time
    /// decides, and of several with that time the one queued first: if its
    /// time has come, its key is handed out and counts as running; if not,
    /// the answer is `Blocked` with that time. A closed queue answers
    /// `Closed`, whatever it holds.
    pub fn dequeue(&mut self, now: u64) -> (answer: Dequeue)
        ensures
            (answer@, final(self)@) == old(self)@.dequeue(now),
            final(self)@.wf(),
    {
        proof {
            use_type_invariant(&*self);
        }
        if self.closed {
            return Dequeue::Closed;
        }
        let ghost before = self@;
        let mut best: Option<usize> = None;
        let mut i: usize = 0;
        while i < self.pending.len()
            invariant
                i <= self.pending@.len(),
                self@ == before,
                match best {
                    Some(b) => b < i && before.waiting(b as int) && forall|j: int|
                        0 <= j < i && before.waiting(j) ==> before.precedes(b as int, j),
                    None => forall|j: int| 0 <= j < i ==> !before.waiting(j),
                },
            decreases self.pending@.len() - i,
        {
            if self.find_in_flight(&self.pending[i].key).is_none() {
                let earlier = match best {
                    Some(b) => self.pending[i].scheduled_at < self.pending[b].scheduled_at,
                    None => true,
                };
                if earlier {
                    best = Some(i);
                }
            }
            i += 1;
        }
        match best {
            None => {
                assert forall|j: int| !before.front(j) by {
                    assert(!before.waiting(j));
                }
                Dequeue::Blocked(None)
            },
            Some(b) => {
                proof {
                    lemma_head(before, b as int);
                    lemma_dequeue(before, now);
                }
                if self.pending[b].scheduled_at <= now {
                    let mut pending: Vec<ReconcileRequest> = Vec::new();
                    std::mem::swap(&mut pending, &mut self.pending);
                    let request = pending.remove(b);
                    assert(requests_view(pending@) =~= before.dequeue(now).1.pending);
                    self.pending = pending;
                    let mut in_flight: Vec<ObjectKey> = Vec::new();
                    std::mem::swap(&mut in_flight, &mut self.in_flight);
                    in_flight.push(request.key.clone());
                    assert(keys_view(in_flight@) =~= before.dequeue(now).1.in_flight);
                    self.in_flight = in_flight;
                    Dequeue::Ready(request.key)
                } else {
                    Dequeue::Blocked(Some(self.pending[b].scheduled_at))
                }
            },
        }
    }

    /// Takes the report that the reconcile of `key` has ended at time `now`
    /// with `outcome`. The key no longer counts as running. Where the
    /// outcome asks for a requeue, the key is requested for `now` plus the
    /// delay, in place of any request for it that came in meanwhile.
    pub fn complete(&mut self, key: &ObjectKey, outcome: ReconcileOutcome, now: u64)
        ensures
            final(self)@ == old(self)@.complete(key@, outcome, now),
            final(self)@.wf(),
    {
        proof {
            use_type_invariant(&*self);
        }
        let ghost before = self@;
        proof {
            lemma_release(before, key@);
        }
        match self.find_in_flight(key) {
            Some(i) => {
                proof {
                    lemma_flight_place(before, i as int);
                }
                let mut in_flight: Vec<ObjectKey> = Vec::new();
                std::mem::swap(&mut in_flight, &mut self.in_flight);
                let _ = in_flight.remove(i);
                assert(keys_view(in_flight@) =~= before.release(key@).in_flight);
                self.in_flight = in_flight;
            },
            None => {},
        }
        match outcome.requeue_after() {
            Some(after) => {
                self.enqueue(ReconcileRequest { key: key.clone(), scheduled_at: deadline_of(now, after) });
            },
            None => {},
        }
    }

    /// Closes the queue: from now on every worker is told `Closed`. What is
    /// pending stays pending and is never handed out; what is running may
    /// still be reported as finished.
    pub fn close(&mut self)
        ensures
            final(self)@ == old(self)@.close(),
            final(self)@.wf(),
    {
        proof {
            use_type_invariant(&*self);
        }
        self.closed = true;
    }
}

} // verus!
