use ingress_pingora::controller::{
    check_listing, epsmapper, error_policy, execute, object_key, reconcile, ReconcileOutcome,
    SERVICE_LABEL_KEY,
};
use ingress_pingora::key::ObjectKey;
use ingress_pingora::resource::{EventKind, Resource, WatchEvent};
use ingress_pingora::string_map::StringMap;
use ingress_pingora::{Context, ControllerError};

fn object(name: Option<&str>, namespace: Option<&str>, labels: &[(&str, &str)]) -> Resource {
    let mut map = StringMap::new();
    for (key, value) in labels {
        map.insert(key.to_string(), value.to_string());
    }
    Resource { name: name.map(str::to_string), namespace: namespace.map(str::to_string), labels: map }
}

fn config_error(result: Result<ReconcileOutcome, ControllerError>) -> String {
    match result {
        Err(ControllerError::InvalidConfigError(text)) => text,
        other => panic!("expected a configuration error, got {:?}", other),
    }
}

#[test]
fn service_label_key_is_the_well_known_one() {
    assert_eq!(SERVICE_LABEL_KEY, "kubernetes.io/service-name");
}

#[test]
fn mapper_takes_the_label_value_and_the_namespace() {
    let slice = object(Some("web-abc12"), Some("team-a"), &[("kubernetes.io/service-name", "web")]);
    assert_eq!(epsmapper(&slice), Some(ObjectKey::new("team-a", "web")));
}

#[test]
fn mapper_does_not_use_the_name_of_the_secondary_object() {
    let slice = object(Some("web-abc12"), Some("team-a"), &[("kubernetes.io/service-name", "web")]);
    let key = epsmapper(&slice).unwrap();
    assert_eq!(key.name, "web");
    assert_eq!(key.namespace, "team-a");
    let nameless = object(None, Some("team-a"), &[("kubernetes.io/service-name", "web")]);
    assert_eq!(epsmapper(&nameless), Some(ObjectKey::new("team-a", "web")));
}

#[test]
fn mapper_ignores_an_object_without_the_label() {
    let slice = object(Some("web-abc12"), Some("team-a"), &[]);
    assert_eq!(epsmapper(&slice), None);
    let other = object(Some("web-abc12"), Some("team-a"), &[("app", "web"), ("tier", "front")]);
    assert_eq!(epsmapper(&other), None);
}

#[test]
fn mapper_ignores_an_object_without_a_namespace() {
    let slice = object(Some("web-abc12"), None, &[("kubernetes.io/service-name", "web")]);
    assert_eq!(epsmapper(&slice), None);
}

#[test]
fn mapper_finds_the_label_among_others() {
    let slice = object(
        Some("api-9x"),
        Some("team-b"),
        &[("app", "api"), ("kubernetes.io/service-name", "api"), ("zone", "eu")],
    );
    assert_eq!(epsmapper(&slice), Some(ObjectKey::new("team-b", "api")));
}

#[test]
fn mapper_takes_an_empty_label_value_as_it_is() {
    let slice = object(Some("x"), Some("team-a"), &[("kubernetes.io/service-name", "")]);
    assert_eq!(epsmapper(&slice), Some(ObjectKey::new("team-a", "")));
}

#[test]
fn object_key_of_a_complete_object() {
    let ingress = object(Some("web"), Some("team-a"), &[]);
    match object_key(&ingress) {
        Ok(key) => assert_eq!(key, ObjectKey::new("team-a", "web")),
        Err(error) => panic!("unexpected {:?}", error),
    }
}

#[test]
fn object_key_refuses_a_missing_name_first() {
    let nameless = object(None, Some("team-a"), &[]);
    assert!(matches!(object_key(&nameless), Err(ControllerError::InvalidConfigError(text)) if text == "invalid name"));
    let homeless = object(Some("web"), None, &[]);
    assert!(matches!(object_key(&homeless), Err(ControllerError::InvalidConfigError(text)) if text == "invalid namespace"));
    let neither = object(None, None, &[]);
    assert!(matches!(object_key(&neither), Err(ControllerError::InvalidConfigError(text)) if text == "invalid name"));
}

#[test]
fn reconcile_asks_for_a_resync_after_sixty_seconds() {
    let ctx = Context::new();
    let ingress = object(Some("web"), Some("team-a"), &[]);
    match reconcile(&ingress, &ctx) {
        Ok(outcome) => assert_eq!(outcome, ReconcileOutcome::Requeue(60)),
        Err(error) => panic!("unexpected {:?}", error),
    }
}

#[test]
fn reconcile_refuses_an_object_without_a_name() {
    let ctx = Context::new();
    let ingress = object(None, Some("team-a"), &[]);
    assert_eq!(config_error(reconcile(&ingress, &ctx)), "invalid name");
}

#[test]
fn reconcile_refuses_an_object_without_a_namespace() {
    let ctx = Context::new();
    let ingress = object(Some("web"), None, &[]);
    assert_eq!(config_error(reconcile(&ingress, &ctx)), "invalid namespace");
}

#[test]
fn reconcile_reports_the_name_before_the_namespace() {
    let ctx = Context::new();
    let ingress = object(None, None, &[]);
    assert_eq!(config_error(reconcile(&ingress, &ctx)), "invalid name");
}

#[test]
fn reconcile_twice_gives_the_same_outcome() {
    let ctx = Context::new();
    let ingress = object(Some("web"), Some("team-a"), &[("app", "web")]);
    let first = reconcile(&ingress, &ctx).unwrap();
    let second = reconcile(&ingress, &ctx).unwrap();
    assert_eq!(first, second);
    assert_eq!(first, ReconcileOutcome::Requeue(60));
    assert!(ctx.epsmap.is_empty());
    assert!(ctx.secretmap.is_empty());
    let broken = object(None, Some("team-a"), &[]);
    assert_eq!(config_error(reconcile(&broken, &ctx)), config_error(reconcile(&broken, &ctx)));
}

#[test]
fn reconcile_does_not_depend_on_the_context() {
    let mut ctx = Context::new();
    ctx.epsmap.insert("team-a/web".to_string(), "slice".to_string());
    ctx.secretmap.insert("team-a/web".to_string(), "cert".to_string());
    let ingress = object(Some("web"), Some("team-a"), &[]);
    assert_eq!(reconcile(&ingress, &ctx).unwrap(), ReconcileOutcome::Requeue(60));
}

#[test]
fn error_policy_is_five_minutes_for_every_error() {
    let ctx = Context::new();
    let errors = vec![
        ControllerError::KubeError(kube::Error::LinesCodecMaxLineLengthExceeded),
        ControllerError::InvalidConfigError("invalid name".to_string()),
        ControllerError::BadService("team-a/web".to_string()),
        ControllerError::ServiceError(kube::Error::LinesCodecMaxLineLengthExceeded),
        ControllerError::IngressError(kube::Error::LinesCodecMaxLineLengthExceeded),
    ];
    for error in &errors {
        assert_eq!(error_policy(error, &ctx), ReconcileOutcome::RequeueError(300));
    }
}

#[test]
fn error_policy_does_not_grow_with_repetition() {
    let ctx = Context::new();
    let error = ControllerError::BadService("team-a/web".to_string());
    for _ in 0..10 {
        assert_eq!(error_policy(&error, &ctx), ReconcileOutcome::RequeueError(300));
    }
}

#[test]
fn outcome_delay() {
    assert_eq!(ReconcileOutcome::Requeue(60).requeue_after(), Some(60));
    assert_eq!(ReconcileOutcome::RequeueError(300).requeue_after(), Some(300));
    assert_eq!(ReconcileOutcome::Requeue(0).requeue_after(), Some(0));
    assert_eq!(ReconcileOutcome::NoRequeue.requeue_after(), None);
}

#[test]
fn execute_reconciles_an_object_that_was_found() {
    let ctx = Context::new();
    let done = execute(Ok(Some(object(Some("web"), Some("team-a"), &[]))), &ctx);
    assert_eq!(done.outcome, ReconcileOutcome::Requeue(60));
    assert!(done.error.is_none());
}

#[test]
fn execute_skips_an_object_that_is_gone() {
    let ctx = Context::new();
    let done = execute(Ok(None), &ctx);
    assert_eq!(done.outcome, ReconcileOutcome::NoRequeue);
    assert!(done.error.is_none());
}

#[test]
fn execute_treats_a_failed_lookup_as_a_failed_reconcile() {
    let ctx = Context::new();
    let done = execute(
        Err(ControllerError::KubeError(kube::Error::LinesCodecMaxLineLengthExceeded)),
        &ctx,
    );
    assert_eq!(done.outcome, ReconcileOutcome::RequeueError(300));
    assert!(matches!(
        done.error,
        Some(ControllerError::KubeError(kube::Error::LinesCodecMaxLineLengthExceeded))
    ));
}

#[test]
fn execute_requeues_an_object_that_cannot_be_reconciled() {
    let ctx = Context::new();
    let done = execute(Ok(Some(object(Some("web"), None, &[]))), &ctx);
    assert_eq!(done.outcome, ReconcileOutcome::RequeueError(300));
    assert!(matches!(done.error, Some(ControllerError::InvalidConfigError(text)) if text == "invalid namespace"));
    let done = execute(Ok(Some(object(None, Some("team-a"), &[]))), &ctx);
    assert_eq!(done.outcome, ReconcileOutcome::RequeueError(300));
    assert!(matches!(done.error, Some(ControllerError::InvalidConfigError(text)) if text == "invalid name"));
}

#[test]
fn listing_that_succeeded_lets_the_controller_start() {
    assert!(check_listing(Ok(())).is_ok());
}

#[test]
fn listing_that_failed_is_an_ingress_error() {
    let verdict = check_listing(Err(kube::Error::LinesCodecMaxLineLengthExceeded));
    assert!(matches!(
        verdict,
        Err(ControllerError::IngressError(kube::Error::LinesCodecMaxLineLengthExceeded))
    ));
}

#[test]
fn event_kinds_are_distinct() {
    assert_ne!(EventKind::Added, EventKind::Modified);
    assert_ne!(EventKind::Deleted, EventKind::Resynced);
    let event = WatchEvent { kind: EventKind::Deleted, object: object(Some("web"), Some("team-a"), &[]) };
    assert_eq!(event.kind, EventKind::Deleted);
    assert_eq!(event.object.name, Some("web".to_string()));
}
