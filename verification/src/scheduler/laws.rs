//! What holds of the queue in every state and after every step.

use crate::key::KeyView;
use crate::outcome::{deadline, ReconcileOutcome};
use crate::scheduler::model::{distinct_keys, is_key, DequeueView, RequestView, SchedulerView, Step};
use vstd::prelude::*;

verus! {

/// In a well-formed state a request is found at its own place.
pub proof fn lemma_place(s: SchedulerView, i: int)
    requires
        s.wf(),
        0 <= i < s.pending.len(),
    ensures
        s.is_pending(s.pending[i].key),
        s.place(s.pending[i].key) == i,
{
    let key = s.pending[i].key;
    assert(s.holds(i, key));
    let j = s.place(key);
    assert(s.holds(j, key));
    if j < i {
        assert(s.pending[j].key != s.pending[i].key);
    } else if i < j {
        assert(s.pending[i].key != s.pending[j].key);
    }
}

/// In a well-formed state a running key is found at its own place.
pub proof fn lemma_flight_place(s: SchedulerView, i: int)
    requires
        s.wf(),
        0 <= i < s.in_flight.len(),
    ensures
        s.is_in_flight(s.in_flight[i]),
        s.in_flight.index_of(s.in_flight[i]) == i,
{
    let key = s.in_flight[i];
    let j = s.in_flight.index_of(key);
    assert(0 <= j < s.in_flight.len() && s.in_flight[j] == key);
    if j < i {
        assert(s.in_flight[j] != s.in_flight[i]);
    } else if i < j {
        assert(s.in_flight[i] != s.in_flight[j]);
    }
}

/// At most one request is the next to be served.
pub proof fn lemma_front_unique(s: SchedulerView, i: int, j: int)
    requires
        s.front(i),
        s.front(j),
    ensures
        i == j,
{
    assert(s.precedes(i, j));
    assert(s.precedes(j, i));
}

/// The request that is served next, once it is known.
pub proof fn lemma_head(s: SchedulerView, i: int)
    requires
        s.front(i),
    ensures
        s.head() == Some(i),
{
    let c = choose|c: int| s.front(c);
    lemma_front_unique(s, i, c);
}

/// Among the first `n` requests, if one is not held back, one of those is
/// served before all others of them.
proof fn lemma_first_among(s: SchedulerView, n: int) -> (b: int)
    requires
        0 <= n <= s.pending.len(),
        exists|i: int| 0 <= i < n && s.waiting(i),
    ensures
        0 <= b < n,
        s.waiting(b),
        forall|j: int| 0 <= j < n && s.waiting(j) ==> s.precedes(b, j),
    decreases n,
{
    if exists|i: int| 0 <= i < n - 1 && s.waiting(i) {
        let b = lemma_first_among(s, n - 1);
        if s.waiting(n - 1) && s.pending[n - 1].scheduled_at < s.pending[b].scheduled_at {
            n - 1
        } else {
            b
        }
    } else {
        n - 1
    }
}

/// Where a request is not held back, some request is the next to be served,
/// and no request that is not held back comes before it.
pub proof fn lemma_head_exists(s: SchedulerView, i: int)
    requires
        s.waiting(i),
    ensures
        s.head() is Some,
        s.front(s.head()->Some_0),
        s.precedes(s.head()->Some_0, i),
{
    let b = lemma_first_among(s, s.pending.len() as int);
    assert(s.front(b));
    lemma_head(s, b);
}

/// No request starves: a request whose time has come, and whose key is not
/// running, is handed out by one of the next answers to workers that ask,
/// at the latest by as many answers as there are pending requests.
pub proof fn lemma_due_request_is_served(s: SchedulerView, key: KeyView, now: u64)
    requires
        s.wf(),
        !s.closed,
        !s.is_in_flight(key),
        s.scheduled_at(key) is Some,
        s.scheduled_at(key)->Some_0 <= now,
    ensures
        s.pending.len() > 0,
        s.serves_within(key, now, (s.pending.len() - 1) as nat),
    decreases s.pending.len(),
{
    let p = s.place(key);
    assert(s.holds(p, key));
    assert(s.waiting(p));
    lemma_head_exists(s, p);
    let h = s.head()->Some_0;
    assert(s.precedes(h, p));
    lemma_dequeue(s, now);
    lemma_place(s, h);
    if h != p {
        let next = s.dequeue(now).1;
        let served = s.pending[h].key;
        if h < p {
            assert(s.pending[h].key != s.pending[p].key);
        } else {
            assert(s.pending[p].key != s.pending[h].key);
        }
        let q = if p < h { p } else { p - 1 };
        assert(next.pending[q] == s.pending[p]);
        lemma_place(next, q);
        assert(!next.is_in_flight(key)) by {
            if next.is_in_flight(key) {
                let x = choose|x: int| 0 <= x < next.in_flight.len() && next.in_flight[x] == key;
                if x < s.in_flight.len() {
                    assert(s.in_flight[x] == key);
                }
            }
        }
        lemma_due_request_is_served(next, key, now);
    }
}

/// A key is never running twice: in a well-formed state at most one
/// reconcile of any key is in flight.
pub proof fn lemma_single_flight(s: SchedulerView, key: KeyView)
    requires
        s.wf(),
    ensures
        s.running(key) <= 1,
        s.running(key) == 1 <==> s.is_in_flight(key),
{
    lemma_count_distinct(s.in_flight, key);
}

/// Among distinct keys, a key is counted once if it occurs and not at all
/// if it does not.
proof fn lemma_count_distinct(keys: Seq<KeyView>, key: KeyView)
    requires
        distinct_keys(keys),
    ensures
        keys.filter(is_key(key)).len() == (if keys.contains(key) {
            1nat
        } else {
            0nat
        }),
    decreases keys.len(),
{
    reveal_with_fuel(Seq::filter, 2);
    if keys.len() > 0 {
        let rest = keys.drop_last();
        let last = keys.len() - 1;
        assert forall|i: int, j: int| 0 <= i < j < rest.len() implies #[trigger] rest[i]
            != #[trigger] rest[j] by {
            assert(keys[i] != keys[j]);
        }
        lemma_count_distinct(rest, key);
        if keys.last() == key {
            if rest.contains(key) {
                let i = choose|i: int| 0 <= i < rest.len() && rest[i] == key;
                assert(keys[i] != keys[last]);
            }
            assert(keys[last] == key);
        } else {
            if rest.contains(key) {
                let i = choose|i: int| 0 <= i < rest.len() && rest[i] == key;
                assert(keys[i] == key);
            }
            if keys.contains(key) {
                let i = choose|i: int| 0 <= i < keys.len() && keys[i] == key;
                assert(rest[i] == key);
            }
        }
    }
}

/// Every step of the queue leads from a well-formed state to a well-formed
/// state, and a closed queue stays closed.
pub proof fn lemma_step_keeps_wf(s: SchedulerView, step: Step)
    requires
        s.wf(),
    ensures
        s.step(step).wf(),
        s.closed ==> s.step(step).closed,
{
    match step {
        Step::Enqueue(request) => {
            lemma_enqueue_wf(s, request);
        },
        Step::Dequeue(now) => {
            lemma_dequeue(s, now);
        },
        Step::Complete(key, outcome, now) => {
            lemma_release(s, key);
            match outcome.delay() {
                Some(after) => {
                    lemma_enqueue_wf(
                        s.release(key),
                        RequestView { key, scheduled_at: deadline(now, after) },
                    );
                },
                None => {},
            }
        },
        Step::Close => {},
    }
}

/// Whatever requests come in, and in whatever order workers ask for work and
/// report back: in every state that a new queue can reach, no key is pending
/// twice, and at most one reconcile of any key is running.
pub proof fn lemma_every_reachable_state_is_wf(steps: Seq<Step>, key: KeyView)
    ensures
        SchedulerView::initial().run(steps).wf(),
        SchedulerView::initial().run(steps).running(key) <= 1,
    decreases steps.len(),
{
    if steps.len() > 0 {
        lemma_every_reachable_state_is_wf(steps.drop_last(), key);
        lemma_step_keeps_wf(SchedulerView::initial().run(steps.drop_last()), steps.last());
    }
    lemma_single_flight(SchedulerView::initial().run(steps), key);
}

/// Once the queue is closed, no sequence of steps makes it hand out a key.
pub proof fn lemma_closed_forever(s: SchedulerView, steps: Seq<Step>, now: u64)
    requires
        s.wf(),
        s.closed,
    ensures
        s.run(steps).wf(),
        s.run(steps).closed,
        s.run(steps).dequeue(now).0 == DequeueView::Closed,
    decreases steps.len(),
{
    if steps.len() > 0 {
        lemma_closed_forever(s, steps.drop_last(), now);
        lemma_step_keeps_wf(s.run(steps.drop_last()), steps.last());
    }
}

/// A request leaves a well-formed state well-formed, with `request.key`
/// pending for `request.scheduled_at` and every other key as it was.
pub proof fn lemma_enqueue_wf(s: SchedulerView, request: RequestView)
    requires
        s.wf(),
    ensures
        s.enqueue(request).wf(),
        s.enqueue(request).scheduled_at(request.key) == Some(request.scheduled_at),
        s.enqueue(request).in_flight == s.in_flight,
        s.enqueue(request).closed == s.closed,
        forall|other: KeyView|
            other != request.key ==> #[trigger] s.enqueue(request).scheduled_at(other)
                == s.scheduled_at(other),
{
    let after = s.enqueue(request);
    let at = if s.is_pending(request.key) {
        s.place(request.key)
    } else {
        s.pending.len() as int
    };
    if s.is_pending(request.key) {
        assert(s.holds(at, request.key));
    }
    assert(after.pending[at] == request);
    assert forall|i: int, j: int| 0 <= i < j < after.pending.len() implies (
    #[trigger] after.pending[i]).key != (#[trigger] after.pending[j]).key by {
        if s.is_pending(request.key) {
            assert(s.pending[i].key != s.pending[j].key);
        } else if j == at {
            assert(!s.holds(i, request.key));
        } else {
            assert(s.pending[i].key != s.pending[j].key);
        }
    }
    lemma_place(after, at);
    assert forall|other: KeyView| other != request.key implies #[trigger] after.scheduled_at(other)
        == s.scheduled_at(other) by {
        if s.is_pending(other) {
            let i = s.place(other);
            assert(s.holds(i, other));
            assert(after.holds(i, other));
            lemma_place(after, i);
        }
        if after.is_pending(other) {
            let i = after.place(other);
            assert(after.holds(i, other));
            assert(s.holds(i, other));
            lemma_place(s, i);
        }
    }
}

/// What a worker is told, in a well-formed state. A key that is handed out
/// was pending, its time had come, and no reconcile of it was running; it is
/// running afterwards and no longer pending. Any other answer leaves the
/// state as it was.
pub proof fn lemma_dequeue(s: SchedulerView, now: u64)
    requires
        s.wf(),
    ensures
        s.dequeue(now).1.wf(),
        s.dequeue(now).1.closed == s.closed,
        match s.dequeue(now).0 {
            DequeueView::Ready(key) => {
                &&& !s.closed
                &&& !s.is_in_flight(key)
                &&& s.scheduled_at(key) is Some
                &&& s.scheduled_at(key)->Some_0 <= now
                &&& s.dequeue(now).1.is_in_flight(key)
                &&& !s.dequeue(now).1.is_pending(key)
            },
            DequeueView::Blocked(_) => !s.closed && s.dequeue(now).1 == s,
            DequeueView::Closed => s.closed && s.dequeue(now).1 == s,
        },
{
    if !s.closed {
        match s.head() {
            None => {},
            Some(i) => {
                assert(s.front(i));
                if s.pending[i].scheduled_at <= now {
                    let key = s.pending[i].key;
                    let after = s.dequeue(now).1;
                    lemma_place(s, i);
                    assert forall|x: int, y: int| 0 <= x < y < after.pending.len() implies (
                    #[trigger] after.pending[x]).key != (#[trigger] after.pending[y]).key by {
                        let px = if x < i { x } else { x + 1 };
                        let py = if y < i { y } else { y + 1 };
                        assert(s.pending[px].key != s.pending[py].key);
                    }
                    assert forall|x: int, y: int| 0 <= x < y < after.in_flight.len() implies
                        #[trigger] after.in_flight[x] != #[trigger] after.in_flight[y] by {
                        if y < s.in_flight.len() {
                            assert(s.in_flight[x] != s.in_flight[y]);
                        } else {
                            assert(s.in_flight[x] != key);
                        }
                    }
                    assert(after.in_flight[s.in_flight.len() as int] == key);
                    assert forall|x: int| !after.holds(x, key) by {
                        if 0 <= x < after.pending.len() {
                            let px = if x < i { x } else { x + 1 };
                            if px < i {
                                assert(s.pending[px].key != s.pending[i].key);
                            } else {
                                assert(s.pending[i].key != s.pending[px].key);
                            }
                        }
                    }
                }
            },
        }
    }
}

/// The end of a reconcile leaves a well-formed state well-formed, with
/// `key` no longer running and everything else as it was.
pub proof fn lemma_release(s: SchedulerView, key: KeyView)
    requires
        s.wf(),
    ensures
        s.release(key).wf(),
        !s.release(key).is_in_flight(key),
        s.release(key).pending == s.pending,
        s.release(key).closed == s.closed,
        forall|other: KeyView|
            other != key ==> #[trigger] s.release(key).is_in_flight(other) == s.is_in_flight(other),
{
    let after = s.release(key);
    if s.is_in_flight(key) {
        let i = s.in_flight.index_of(key);
        assert(0 <= i < s.in_flight.len() && s.in_flight[i] == key);
        assert forall|x: int, y: int| 0 <= x < y < after.in_flight.len() implies
            #[trigger] after.in_flight[x] != #[trigger] after.in_flight[y] by {
            let px = if x < i { x } else { x + 1 };
            let py = if y < i { y } else { y + 1 };
            assert(s.in_flight[px] != s.in_flight[py]);
        }
        assert forall|x: int| 0 <= x < after.in_flight.len() implies after.in_flight[x] != key by {
            let px = if x < i { x } else { x + 1 };
            if px < i {
                assert(s.in_flight[px] != s.in_flight[i]);
            } else {
                assert(s.in_flight[i] != s.in_flight[px]);
            }
        }
        assert forall|other: KeyView| other != key implies #[trigger] after.is_in_flight(other)
            == s.is_in_flight(other) by {
            if s.is_in_flight(other) {
                let x = choose|x: int| 0 <= x < s.in_flight.len() && s.in_flight[x] == other;
                let ax = if x < i { x } else { x - 1 };
                assert(after.in_flight[ax] == other);
            }
            if after.is_in_flight(other) {
                let x = choose|x: int| 0 <= x < after.in_flight.len() && after.in_flight[x] == other;
                let px = if x < i { x } else { x + 1 };
                assert(s.in_flight[px] == other);
            }
        }
    }
}

/// A pending request is not served before its time: while `now` is earlier
/// than the time for which `key` is scheduled, no worker is handed `key`.
pub proof fn lemma_not_before_its_time(s: SchedulerView, key: KeyView, now: u64)
    requires
        s.wf(),
        s.scheduled_at(key) is Some,
        now < s.scheduled_at(key)->Some_0,
    ensures
        s.dequeue(now).0 != DequeueView::Ready(key),
{
    lemma_dequeue(s, now);
}

/// What `Blocked` promises. With a time, nothing is handed out before that
/// time, and at that time a key is; without one, nothing is handed out at
/// any time, until a request comes in or a reconcile ends.
pub proof fn lemma_blocked_until(s: SchedulerView, now: u64, later: u64)
    requires
        s.wf(),
        s.dequeue(now).0 is Blocked,
    ensures
        match s.dequeue(now).0->Blocked_0 {
            Some(wake) => {
                &&& now < wake
                &&& later < wake ==> s.dequeue(later).0 == DequeueView::Blocked(Some(wake))
                &&& later >= wake ==> s.dequeue(later).0 is Ready
            },
            None => s.dequeue(later).0 == DequeueView::Blocked(None),
        },
{
}

/// After a reconcile of `key` has ended at `now` with an outcome that asks
/// for a requeue after `after` seconds, `key` is pending for exactly
/// `deadline(now, after)`, whatever was pending for it before, and it is
/// handed to no worker that asks earlier than that.
pub proof fn lemma_requeue_waits(
    s: SchedulerView,
    key: KeyView,
    outcome: ReconcileOutcome,
    now: u64,
    after: u64,
)
    requires
        s.wf(),
        outcome.delay() == Some(after),
    ensures
        s.complete(key, outcome, now).wf(),
        s.complete(key, outcome, now).scheduled_at(key) == Some(deadline(now, after)),
        !s.complete(key, outcome, now).is_in_flight(key),
        forall|t: u64|
            t < deadline(now, after) ==> (#[trigger] s.complete(key, outcome, now).dequeue(t)).0
                != DequeueView::Ready(key),
{
    let request = RequestView { key, scheduled_at: deadline(now, after) };
    lemma_release(s, key);
    lemma_enqueue_wf(s.release(key), request);
    let done = s.complete(key, outcome, now);
    assert forall|t: u64| t < deadline(now, after) implies (#[trigger] done.dequeue(t)).0
        != DequeueView::Ready(key) by {
        lemma_not_before_its_time(done, key, t);
    }
}

/// A requeue comes due: after a reconcile of `key` has ended at `now` with
/// an outcome that asks for a requeue after `after` seconds, an open queue
/// hands `key` out again to workers that ask at `deadline(now, after)` or
/// later, at the latest by as many answers as there are pending requests.
pub proof fn lemma_requeue_comes_due(
    s: SchedulerView,
    key: KeyView,
    outcome: ReconcileOutcome,
    now: u64,
    after: u64,
    later: u64,
)
    requires
        s.wf(),
        !s.closed,
        outcome.delay() == Some(after),
        deadline(now, after) <= later,
    ensures
        s.complete(key, outcome, now).pending.len() > 0,
        s.complete(key, outcome, now).serves_within(
            key,
            later,
            (s.complete(key, outcome, now).pending.len() - 1) as nat,
        ),
{
    lemma_requeue_waits(s, key, outcome, now, after);
    lemma_release(s, key);
    lemma_enqueue_wf(s.release(key), RequestView { key, scheduled_at: deadline(now, after) });
    lemma_due_request_is_served(s.complete(key, outcome, now), key, later);
}

/// An outcome that asks for no requeue leaves `key` neither running nor
/// newly requested: what was pending stays as it was.
pub proof fn lemma_no_requeue(s: SchedulerView, key: KeyView, now: u64)
    requires
        s.wf(),
    ensures
        s.complete(key, ReconcileOutcome::NoRequeue, now) == s.release(key),
        s.complete(key, ReconcileOutcome::NoRequeue, now).pending == s.pending,
{
    lemma_release(s, key);
}

/// Reporting the same end of a reconcile twice leaves what reporting it once
/// leaves: the key is requested once, not twice.
pub proof fn lemma_complete_twice(s: SchedulerView, key: KeyView, outcome: ReconcileOutcome, now: u64)
    requires
        s.wf(),
    ensures
        s.complete(key, outcome, now).complete(key, outcome, now) == s.complete(key, outcome, now),
{
    let once = s.complete(key, outcome, now);
    lemma_release(s, key);
    match outcome.delay() {
        Some(after) => {
            let request = RequestView { key, scheduled_at: deadline(now, after) };
            lemma_enqueue_wf(s.release(key), request);
            assert(!once.is_in_flight(key));
            assert(once.release(key) == once);
            assert(once.is_pending(key));
            let at = once.place(key);
            assert(once.holds(at, key));
            assert(once.pending[at] == request);
            assert(once.pending.update(at, request) =~= once.pending);
        },
        None => {
            assert(once.release(key) == once);
        },
    }
}

/// A closed queue hands out nothing: every worker is told `Closed`, and what
/// is pending stays pending.
pub proof fn lemma_closed_hands_out_nothing(s: SchedulerView, now: u64)
    ensures
        s.close().dequeue(now) == (DequeueView::Closed, s.close()),
        s.close().pending == s.pending,
        s.close().in_flight == s.in_flight,
{
}

} // verus!
