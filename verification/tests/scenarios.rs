use ingress_pingora::controller::{conclude, primary_event, secondary_event, ReconcileOutcome};
use ingress_pingora::key::ObjectKey;
use ingress_pingora::resource::{EventKind, Resource, WatchEvent};
use ingress_pingora::scheduler::{Dequeue, ReconcileRequest, Scheduler};
use ingress_pingora::string_map::StringMap;
use ingress_pingora::{Context, ControllerError};

fn object(name: Option<&str>, namespace: Option<&str>, labels: &[(&str, &str)]) -> Resource {
    let mut map = StringMap::new();
    for (key, value) in labels {
        map.insert(key.to_string(), value.to_string());
    }
    Resource { name: name.map(str::to_string), namespace: namespace.map(str::to_string), labels: map }
}

fn event(kind: EventKind, object: Resource) -> WatchEvent {
    WatchEvent { kind, object }
}

fn ready(answer: Dequeue) -> ObjectKey {
    match answer {
        Dequeue::Ready(key) => key,
        other => panic!("expected a key, got {:?}", other),
    }
}

fn blocked(answer: Dequeue) -> Option<u64> {
    match answer {
        Dequeue::Blocked(wake) => wake,
        other => panic!("expected to be blocked, got {:?}", other),
    }
}

#[test]
fn labelled_secondary_event_is_queued_exactly_once() {
    let mut queue = Scheduler::new();
    let slice = object(Some("web-abc12"), Some("team-a"), &[("kubernetes.io/service-name", "web")]);
    let queued = secondary_event(&mut queue, &event(EventKind::Modified, slice), 7);
    assert_eq!(queued, Some(ObjectKey::new("team-a", "web")));
    assert_eq!(queue.len(), 1);
    assert_eq!(queue.scheduled_at(&ObjectKey::new("team-a", "web")), Some(7));
    assert_eq!(ready(queue.dequeue(7)), ObjectKey::new("team-a", "web"));
    assert_eq!(blocked(queue.dequeue(7)), None);
}

#[test]
fn unlabelled_secondary_event_is_not_queued() {
    let mut queue = Scheduler::new();
    let slice = object(Some("web-abc12"), Some("team-a"), &[("app", "web")]);
    assert_eq!(secondary_event(&mut queue, &event(EventKind::Added, slice), 7), None);
    assert_eq!(queue.len(), 0);
    assert_eq!(blocked(queue.dequeue(u64::MAX)), None);
}

#[test]
fn secondary_event_of_every_kind_is_queued() {
    let kinds = [EventKind::Added, EventKind::Modified, EventKind::Deleted, EventKind::Resynced];
    let mut queue = Scheduler::new();
    for (i, kind) in kinds.iter().enumerate() {
        let slice = object(Some("s"), Some("team-a"), &[("kubernetes.io/service-name", "web")]);
        let queued = secondary_event(&mut queue, &event(*kind, slice), i as u64);
        assert_eq!(queued, Some(ObjectKey::new("team-a", "web")));
        assert_eq!(queue.len(), 1);
        assert_eq!(queue.scheduled_at(&ObjectKey::new("team-a", "web")), Some(i as u64));
    }
}

#[test]
fn two_slices_of_one_service_coalesce() {
    let mut queue = Scheduler::new();
    let first = object(Some("web-1"), Some("team-a"), &[("kubernetes.io/service-name", "web")]);
    let second = object(Some("web-2"), Some("team-a"), &[("kubernetes.io/service-name", "web")]);
    let elsewhere = object(Some("web-1"), Some("team-b"), &[("kubernetes.io/service-name", "web")]);
    secondary_event(&mut queue, &event(EventKind::Added, first), 1);
    secondary_event(&mut queue, &event(EventKind::Added, second), 2);
    secondary_event(&mut queue, &event(EventKind::Added, elsewhere), 3);
    assert_eq!(queue.len(), 2);
    assert_eq!(queue.scheduled_at(&ObjectKey::new("team-a", "web")), Some(2));
    assert_eq!(queue.scheduled_at(&ObjectKey::new("team-b", "web")), Some(3));
}

#[test]
fn primary_event_is_queued_under_its_own_key() {
    let mut queue = Scheduler::new();
    let ingress = object(Some("web"), Some("team-a"), &[("kubernetes.io/service-name", "other")]);
    match primary_event(&mut queue, &event(EventKind::Added, ingress), 3) {
        Ok(key) => assert_eq!(key, ObjectKey::new("team-a", "web")),
        Err(error) => panic!("unexpected {:?}", error),
    }
    assert_eq!(queue.len(), 1);
    assert_eq!(queue.scheduled_at(&ObjectKey::new("team-a", "web")), Some(3));
}

#[test]
fn primary_event_without_a_key_is_refused() {
    let mut queue = Scheduler::new();
    let nameless = object(None, Some("team-a"), &[]);
    assert!(matches!(
        primary_event(&mut queue, &event(EventKind::Added, nameless), 3),
        Err(ControllerError::InvalidConfigError(text)) if text == "invalid name"
    ));
    let homeless = object(Some("web"), None, &[]);
    assert!(matches!(
        primary_event(&mut queue, &event(EventKind::Modified, homeless), 3),
        Err(ControllerError::InvalidConfigError(text)) if text == "invalid namespace"
    ));
    assert_eq!(queue.len(), 0);
}

#[test]
fn successful_reconcile_is_requeued_after_the_resync_interval() {
    let ctx = Context::new();
    let mut queue = Scheduler::new();
    let web = ObjectKey::new("team-a", "web");
    queue.enqueue(ReconcileRequest { key: web.clone(), scheduled_at: 1_000 });
    assert_eq!(ready(queue.dequeue(1_000)), web);
    let done = conclude(&mut queue, &web, Ok(Some(object(Some("web"), Some("team-a"), &[]))), &ctx, 1_002);
    assert_eq!(done.outcome, ReconcileOutcome::Requeue(60));
    assert!(done.error.is_none());
    assert_eq!(queue.scheduled_at(&web), Some(1_062));
    assert_eq!(blocked(queue.dequeue(1_002)), Some(1_062));
    assert_eq!(blocked(queue.dequeue(1_061)), Some(1_062));
    assert_eq!(ready(queue.dequeue(1_062)), web);
}

#[test]
fn failed_reconcile_is_requeued_after_the_error_interval() {
    let ctx = Context::new();
    let mut queue = Scheduler::new();
    let web = ObjectKey::new("team-a", "web");
    let mut now = 50;
    queue.enqueue(ReconcileRequest { key: web.clone(), scheduled_at: now });
    for round in 0..4 {
        assert_eq!(ready(queue.dequeue(now)), web);
        let lookup = if round % 2 == 0 {
            Err(ControllerError::KubeError(kube::Error::LinesCodecMaxLineLengthExceeded))
        } else {
            Ok(Some(object(Some("web"), None, &[])))
        };
        let done = conclude(&mut queue, &web, lookup, &ctx, now);
        assert_eq!(done.outcome, ReconcileOutcome::RequeueError(300));
        assert!(done.error.is_some());
        assert_eq!(queue.scheduled_at(&web), Some(now + 300));
        assert_eq!(blocked(queue.dequeue(now + 299)), Some(now + 300));
        now += 300;
    }
}

#[test]
fn reconcile_of_a_deleted_object_is_skipped() {
    let ctx = Context::new();
    let mut queue = Scheduler::new();
    let ingress = object(Some("web"), Some("team-a"), &[]);
    let web = primary_event(&mut queue, &event(EventKind::Deleted, ingress), 0).unwrap();
    assert_eq!(ready(queue.dequeue(0)), web);
    let done = conclude(&mut queue, &web, Ok(None), &ctx, 1);
    assert_eq!(done.outcome, ReconcileOutcome::NoRequeue);
    assert!(done.error.is_none());
    assert_eq!(queue.len(), 0);
    assert_eq!(queue.in_flight_len(), 0);
}

#[test]
fn concluding_twice_requests_the_object_once() {
    let ctx = Context::new();
    let mut queue = Scheduler::new();
    let web = ObjectKey::new("team-a", "web");
    queue.enqueue(ReconcileRequest { key: web.clone(), scheduled_at: 0 });
    assert_eq!(ready(queue.dequeue(0)), web);
    let first = conclude(&mut queue, &web, Ok(Some(object(Some("web"), Some("team-a"), &[]))), &ctx, 4);
    let second = conclude(&mut queue, &web, Ok(Some(object(Some("web"), Some("team-a"), &[]))), &ctx, 4);
    assert_eq!(first.outcome, second.outcome);
    assert_eq!(queue.len(), 1);
    assert_eq!(queue.in_flight_len(), 0);
    assert_eq!(queue.scheduled_at(&web), Some(64));
}

#[test]
fn created_object_then_endpoint_change_before_the_resync() {
    let ctx = Context::new();
    let mut queue = Scheduler::new();
    let web = ObjectKey::new("team-a", "web");

    let created = event(EventKind::Added, object(Some("web"), Some("team-a"), &[]));
    assert_eq!(primary_event(&mut queue, &created, 0).unwrap(), web);
    assert_eq!(ready(queue.dequeue(0)), web);
    assert_eq!(blocked(queue.dequeue(0)), None);
    let done = conclude(&mut queue, &web, Ok(Some(object(Some("web"), Some("team-a"), &[]))), &ctx, 1);
    assert_eq!(done.outcome, ReconcileOutcome::Requeue(60));
    assert_eq!(queue.scheduled_at(&web), Some(61));
    assert_eq!(blocked(queue.dequeue(1)), Some(61));

    let slice = object(Some("web-abc12"), Some("team-a"), &[("kubernetes.io/service-name", "web")]);
    assert_eq!(secondary_event(&mut queue, &event(EventKind::Modified, slice), 20), Some(web.clone()));
    assert_eq!(queue.len(), 1);
    assert_eq!(queue.scheduled_at(&web), Some(20));
    assert_eq!(ready(queue.dequeue(20)), web);
    assert_eq!(queue.in_flight_len(), 1);
    assert_eq!(blocked(queue.dequeue(20)), None);
}

#[test]
fn endpoint_change_during_a_reconcile_waits_for_its_end() {
    let ctx = Context::new();
    let mut queue = Scheduler::new();
    let web = ObjectKey::new("team-a", "web");

    let created = event(EventKind::Added, object(Some("web"), Some("team-a"), &[]));
    primary_event(&mut queue, &created, 0).unwrap();
    assert_eq!(ready(queue.dequeue(0)), web);

    let slice = object(Some("web-abc12"), Some("team-a"), &[("kubernetes.io/service-name", "web")]);
    assert_eq!(secondary_event(&mut queue, &event(EventKind::Modified, slice), 5), Some(web.clone()));
    assert_eq!(queue.len(), 1);
    assert_eq!(blocked(queue.dequeue(5)), None);
    assert_eq!(blocked(queue.dequeue(59)), None);
    assert_eq!(queue.in_flight_len(), 1);

    let done = conclude(&mut queue, &web, Ok(Some(object(Some("web"), Some("team-a"), &[]))), &ctx, 10);
    assert_eq!(done.outcome, ReconcileOutcome::Requeue(60));
    assert_eq!(queue.in_flight_len(), 0);
    assert_eq!(queue.len(), 1);
    assert_eq!(ready(queue.dequeue(70)), web);
    assert_eq!(queue.in_flight_len(), 1);
}

#[test]
fn shutdown_with_one_running_and_two_queued() {
    let ctx = Context::new();
    let mut queue = Scheduler::new();
    let web = ObjectKey::new("team-a", "web");
    let api = ObjectKey::new("team-a", "api");
    let db = ObjectKey::new("team-b", "db");
    queue.enqueue(ReconcileRequest { key: web.clone(), scheduled_at: 0 });
    assert_eq!(ready(queue.dequeue(0)), web);
    queue.enqueue(ReconcileRequest { key: api.clone(), scheduled_at: 0 });
    queue.enqueue(ReconcileRequest { key: db.clone(), scheduled_at: 0 });

    queue.close();
    assert!(matches!(queue.dequeue(1), Dequeue::Closed));
    assert!(queue.is_in_flight(&web));
    assert!(!queue.is_drained());
    assert_eq!(queue.len(), 2);

    let done = conclude(&mut queue, &web, Ok(Some(object(Some("web"), Some("team-a"), &[]))), &ctx, 2);
    assert_eq!(done.outcome, ReconcileOutcome::Requeue(60));
    assert_eq!(queue.in_flight_len(), 0);
    assert!(!queue.is_in_flight(&web));

    for now in [2, 62, 1_000, u64::MAX] {
        assert!(matches!(queue.dequeue(now), Dequeue::Closed));
    }
    assert_eq!(queue.scheduled_at(&api), Some(0));
    assert_eq!(queue.scheduled_at(&db), Some(0));
    assert_eq!(queue.in_flight_len(), 0);
    assert!(queue.is_drained());
}
