//! The decisions of the controller: which primary object a change of a
//! secondary object concerns, what a reconcile asks for, and what follows a
//! failure.

pub use crate::outcome::ReconcileOutcome;

use crate::key::{KeyView, ObjectKey};
use crate::outcome::{deadline, ERROR_INTERVAL_SECS, RESYNC_INTERVAL_SECS};
use crate::resource::{Resource, ResourceView, WatchEvent};
use crate::scheduler::laws::{lemma_complete_twice, lemma_requeue_waits};
use crate::scheduler::{DequeueView, ReconcileRequest, RequestView, Scheduler, SchedulerView};
use crate::{Context, ControllerError};
use vstd::prelude::*;

verus! {

/// The label of a secondary object that names the service it belongs to.
pub const SERVICE_LABEL_KEY: &'static str = "kubernetes.io/service-name";

/// What an optional key stands for.
pub open spec fn key_of(key: Option<ObjectKey>) -> Option<KeyView> {
    match key {
        Some(k) => Some(k@),
        None => None,
    }
}

/// The primary object that a secondary object belongs to: the one in the
/// secondary object's namespace whose name is the value of the service label.
/// An object without that label, or without a namespace, belongs to none.
pub open spec fn mapped_key(object: ResourceView) -> Option<KeyView> {
    if object.labels.contains_key(SERVICE_LABEL_KEY@) && object.namespace is Some {
        Some(
            KeyView {
                namespace: object.namespace->Some_0,
                name: object.labels[SERVICE_LABEL_KEY@],
            },
        )
    } else {
        None
    }
}

/// Maps a secondary object to the key of the primary object to reconcile.
pub fn epsmapper(epsobj: &Resource) -> (key: Option<ObjectKey>)
    ensures
        key_of(key) == mapped_key(epsobj@),
{
    match epsobj.labels.get(SERVICE_LABEL_KEY) {
        None => None,
        Some(svc_name) => match &epsobj.namespace {
            None => None,
            Some(svc_namespace) => Some(
                ObjectKey { namespace: svc_namespace.clone(), name: svc_name.clone() },
            ),
        },
    }
}

/// What is wrong with a primary object that cannot be reconciled: the name
/// is looked at first, then the namespace.
pub open spec fn config_fault(object: ResourceView) -> Option<Seq<char>> {
    if object.name is None {
        Some("invalid name"@)
    } else if object.namespace is None {
        Some("invalid namespace"@)
    } else {
        None
    }
}

/// The key of a primary object.
pub open spec fn primary_key(object: ResourceView) -> KeyView
    recommends
        config_fault(object) is None,
{
    KeyView { namespace: object.namespace->Some_0, name: object.name->Some_0 }
}

/// The key under which a primary object is reconciled, or the reason why it
/// has none.
pub fn object_key(object: &Resource) -> (key: Result<ObjectKey, ControllerError>)
    ensures
        match config_fault(object@) {
            Some(fault) => key matches Err(ControllerError::InvalidConfigError(text)) && text@ == fault,
            None => key matches Ok(k) && k@ == primary_key(object@),
        },
{
    match &object.name {
        None => Err(ControllerError::InvalidConfigError("invalid name".to_owned())),
        Some(name) => match &object.namespace {
            None => Err(ControllerError::InvalidConfigError("invalid namespace".to_owned())),
            Some(namespace) => Ok(ObjectKey { namespace: namespace.clone(), name: name.clone() }),
        },
    }
}

/// Reconciles one primary object. An object without a name or a namespace is
/// refused; any other is to be looked at again after the resync interval.
/// The result depends on the object alone, and nothing is changed: two
/// reconciles of one object ask for the same.
pub fn reconcile(ingress: &Resource, ctx: &Context) -> (result: Result<ReconcileOutcome, ControllerError>)
    ensures
        match config_fault(ingress@) {
            Some(fault) => result matches Err(ControllerError::InvalidConfigError(text)) && text@ == fault,
            None => result == Ok::<ReconcileOutcome, ControllerError>(
                ReconcileOutcome::Requeue(RESYNC_INTERVAL_SECS),
            ),
        },
{
    match object_key(ingress) {
        Err(error) => Err(error),
        Ok(_) => Ok(ReconcileOutcome::Requeue(RESYNC_INTERVAL_SECS)),
    }
}

/// What follows a failed reconcile: whatever the failure, and however many
/// came before it, the object is tried again after the error interval.
pub fn error_policy(error: &ControllerError, ctx: &Context) -> (outcome: ReconcileOutcome)
    ensures
        outcome == ReconcileOutcome::RequeueError(ERROR_INTERVAL_SECS),
{
    ReconcileOutcome::RequeueError(ERROR_INTERVAL_SECS)
}

/// What a run of the executor left behind: the outcome that goes to the
/// queue, and the failure to report, if the run failed.
#[derive(Debug)]
pub struct Execution {
    pub outcome: ReconcileOutcome,
    pub error: Option<ControllerError>,
}

/// Whether a run of the executor on `lookup` fails: the lookup itself
/// failed, or it found an object that cannot be reconciled.
pub open spec fn run_fails(lookup: Result<Option<Resource>, ControllerError>) -> bool {
    match lookup {
        Err(_) => true,
        Ok(None) => false,
        Ok(Some(object)) => config_fault(object@) is Some,
    }
}

/// The outcome of a run of the executor on what the lookup of the object
/// gave. A failed run asks for a requeue after the error interval. An object
/// that is gone is skipped: nothing is asked for. An object that was
/// reconciled is looked at again after the resync interval.
pub open spec fn executed(lookup: Result<Option<Resource>, ControllerError>) -> ReconcileOutcome {
    if run_fails(lookup) {
        ReconcileOutcome::RequeueError(ERROR_INTERVAL_SECS)
    } else if lookup matches Ok(None) {
        ReconcileOutcome::NoRequeue
    } else {
        ReconcileOutcome::Requeue(RESYNC_INTERVAL_SECS)
    }
}

/// The failure that a run of the executor on `lookup` reports: that of the
/// lookup, or what is wrong with the object; none where the run succeeds.
pub open spec fn reports(lookup: Result<Option<Resource>, ControllerError>, error: Option<
    ControllerError,
>) -> bool {
    match lookup {
        Err(cause) => error == Some(cause),
        Ok(None) => error is None,
        Ok(Some(object)) => match config_fault(object@) {
            Some(fault) => error matches Some(ControllerError::InvalidConfigError(text)) && text@
                == fault,
            None => error is None,
        },
    }
}

/// Runs one reconcile on what the lookup of the object gave, and applies the
/// error policy where the lookup or the reconcile failed.
pub fn execute(lookup: Result<Option<Resource>, ControllerError>, ctx: &Context) -> (done: Execution)
    ensures
        done.outcome == executed(lookup),
        reports(lookup, done.error),
{
    match lookup {
        Err(cause) => {
            let outcome = error_policy(&cause, ctx);
            Execution { outcome, error: Some(cause) }
        },
        Ok(None) => Execution { outcome: ReconcileOutcome::NoRequeue, error: None },
        Ok(Some(object)) => match reconcile(&object, ctx) {
            Ok(outcome) => Execution { outcome, error: None },
            Err(cause) => {
                let outcome = error_policy(&cause, ctx);
                Execution { outcome, error: Some(cause) }
            },
        },
    }
}

/// Runs one reconcile of `key`, which a worker was handed, on what the
/// lookup of the object gave, and reports its end at `now` to the queue.
pub fn conclude(
    scheduler: &mut Scheduler,
    key: &ObjectKey,
    lookup: Result<Option<Resource>, ControllerError>,
    ctx: &Context,
    now: u64,
) -> (done: Execution)
    ensures
        done.outcome == executed(lookup),
        reports(lookup, done.error),
        final(scheduler)@ == old(scheduler)@.complete(key@, executed(lookup), now),
        final(scheduler)@.wf(),
{
    let done = execute(lookup, ctx);
    scheduler.complete(key, done.outcome, now);
    done
}

/// After a reconcile that succeeded at `now`, the object is pending for
/// `now` plus the resync interval: no worker that asks earlier is handed it.
pub proof fn lemma_success_waits_for_resync(
    s: SchedulerView,
    key: KeyView,
    lookup: Result<Option<Resource>, ControllerError>,
    now: u64,
)
    requires
        s.wf(),
        lookup is Ok,
        lookup->Ok_0 is Some,
        !run_fails(lookup),
    ensures
        executed(lookup) == ReconcileOutcome::Requeue(RESYNC_INTERVAL_SECS),
        s.complete(key, executed(lookup), now).scheduled_at(key) == Some(
            deadline(now, RESYNC_INTERVAL_SECS),
        ),
        now + RESYNC_INTERVAL_SECS <= u64::MAX ==> deadline(now, RESYNC_INTERVAL_SECS) == now
            + RESYNC_INTERVAL_SECS,
        forall|t: u64|
            t < deadline(now, RESYNC_INTERVAL_SECS) ==> (#[trigger] s.complete(
                key,
                executed(lookup),
                now,
            ).dequeue(t)).0 != DequeueView::Ready(key),
{
    lemma_requeue_waits(s, key, executed(lookup), now, RESYNC_INTERVAL_SECS);
}

/// After a reconcile that failed at `now`, the object is pending for `now`
/// plus the error interval: no worker that asks earlier is handed it. The
/// interval is the same whatever the queue has seen before, so it does not
/// grow with the number of failures.
pub proof fn lemma_failure_waits_for_error_interval(
    s: SchedulerView,
    key: KeyView,
    lookup: Result<Option<Resource>, ControllerError>,
    now: u64,
)
    requires
        s.wf(),
        run_fails(lookup),
    ensures
        executed(lookup) == ReconcileOutcome::RequeueError(ERROR_INTERVAL_SECS),
        s.complete(key, executed(lookup), now).scheduled_at(key) == Some(
            deadline(now, ERROR_INTERVAL_SECS),
        ),
        now + ERROR_INTERVAL_SECS <= u64::MAX ==> deadline(now, ERROR_INTERVAL_SECS) == now
            + ERROR_INTERVAL_SECS,
        forall|t: u64|
            t < deadline(now, ERROR_INTERVAL_SECS) ==> (#[trigger] s.complete(
                key,
                executed(lookup),
                now,
            ).dequeue(t)).0 != DequeueView::Ready(key),
{
    lemma_requeue_waits(s, key, executed(lookup), now, ERROR_INTERVAL_SECS);
}

/// Two runs of the executor on the same lookup, reported one after the
/// other at the same time, leave the queue as one run does: the outcome is
/// the same, and the object is requested once.
pub proof fn lemma_reconcile_is_idempotent(
    s: SchedulerView,
    key: KeyView,
    lookup: Result<Option<Resource>, ControllerError>,
    now: u64,
)
    requires
        s.wf(),
    ensures
        s.complete(key, executed(lookup), now).complete(key, executed(lookup), now) == s.complete(
            key,
            executed(lookup),
            now,
        ),
{
    lemma_complete_twice(s, key, executed(lookup), now);
}

/// The answer to the listing of route declarations that the controller makes
/// before it starts to watch: a listing that failed keeps the controller from
/// starting, and is reported as a failure to list them.
pub fn check_listing(listing: Result<(), kube::Error>) -> (verdict: Result<(), ControllerError>)
    ensures
        match listing {
            Ok(_) => verdict is Ok,
            Err(cause) => verdict == Err::<(), ControllerError>(ControllerError::IngressError(cause)),
        },
{
    match listing {
        Ok(_) => Ok(()),
        Err(cause) => Err(ControllerError::IngressError(cause)),
    }
}

/// The status with which the process ends: zero after the controller has
/// run and stopped in order, one where it could not start.
pub fn exit_code(outcome: &Result<(), ControllerError>) -> (code: i32)
    ensures
        code == (if outcome is Ok {
            0i32
        } else {
            1i32
        }),
{
    match outcome {
        Ok(_) => 0,
        Err(_) => 1,
    }
}

/// The queue after a change of a primary object was seen at `now`: the
/// object is requested for `now`, unless it has no key.
pub open spec fn after_primary_event(s: SchedulerView, object: ResourceView, now: u64) -> SchedulerView {
    if config_fault(object) is None {
        s.enqueue(RequestView { key: primary_key(object), scheduled_at: now })
    } else {
        s
    }
}

/// The queue after a change of a secondary object was seen at `now`: the
/// primary object that it belongs to is requested for `now`; a secondary
/// object that belongs to none leaves the queue as it is.
pub open spec fn after_secondary_event(s: SchedulerView, object: ResourceView, now: u64) -> SchedulerView {
    match mapped_key(object) {
        Some(key) => s.enqueue(RequestView { key, scheduled_at: now }),
        None => s,
    }
}

/// Takes a change of a primary object, of whatever kind, seen at `now`, and
/// requests a reconcile of that object. Returns the key that was queued.
pub fn primary_event(scheduler: &mut Scheduler, event: &WatchEvent, now: u64) -> (queued: Result<
    ObjectKey,
    ControllerError,
>)
    ensures
        final(scheduler)@ == after_primary_event(old(scheduler)@, event.object@, now),
        match config_fault(event.object@) {
            Some(fault) => queued matches Err(ControllerError::InvalidConfigError(text)) && text@
                == fault,
            None => queued matches Ok(k) && k@ == primary_key(event.object@),
        },
{
    match object_key(&event.object) {
        Err(error) => Err(error),
        Ok(key) => {
            scheduler.enqueue(ReconcileRequest { key: key.clone(), scheduled_at: now });
            Ok(key)
        },
    }
}

/// Takes a change of a secondary object, of whatever kind, seen at `now`.
/// If the object belongs to a primary object, a reconcile of that one is
/// requested, once; if not, the change is dropped. Returns the key that was
/// queued.
pub fn secondary_event(scheduler: &mut Scheduler, event: &WatchEvent, now: u64) -> (queued: Option<
    ObjectKey,
>)
    ensures
        final(scheduler)@ == after_secondary_event(old(scheduler)@, event.object@, now),
        key_of(queued) == mapped_key(event.object@),
{
    match epsmapper(&event.object) {
        None => None,
        Some(key) => {
            scheduler.enqueue(ReconcileRequest { key: key.clone(), scheduled_at: now });
            Some(key)
        },
    }
}

/// A change of a secondary object that carries the service label with the
/// value `service`, in the namespace `namespace`, results in exactly one
/// request, for the key made of `namespace` and `service`.
pub proof fn lemma_labelled_change_is_queued_once(
    s: SchedulerView,
    object: ResourceView,
    namespace: Seq<char>,
    service: Seq<char>,
    now: u64,
)
    requires
        object.namespace == Some(namespace),
        object.labels.contains_key(SERVICE_LABEL_KEY@),
        object.labels[SERVICE_LABEL_KEY@] == service,
    ensures
        after_secondary_event(s, object, now) == s.enqueue(
            RequestView { key: KeyView { namespace, name: service }, scheduled_at: now },
        ),
{
}

/// A change of a secondary object without the service label results in no
/// request.
pub proof fn lemma_unlabelled_change_is_dropped(s: SchedulerView, object: ResourceView, now: u64)
    requires
        !object.labels.contains_key(SERVICE_LABEL_KEY@),
    ensures
        after_secondary_event(s, object, now) == s,
{
}

} // verus!
