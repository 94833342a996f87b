//! Reconciliation core of an ingress controller: the key mapping, the work
//! queue and the requeue policy, each with a machine-checked contract.
//!
//! The library decides and never waits: it is handed the changes that the
//! watches report, the results of object lookups and the current time, and
//! says which object to reconcile next and when to look again. Talking to
//! the cluster, sleeping and logging are left to the program around it.
//!
//! - [`key`]: the identity of a primary object.
//! - [`string_map`]: labels and correlation data.
//! - [`resource`]: watched objects and change notifications.
//! - [`outcome`]: what a reconcile asks for, and the two intervals.
//! - [`scheduler`]: the work queue, its model and its laws.
//! - [`controller`]: key mapping, reconcile, error policy and the handling
//!   of events.

pub mod controller;
pub mod key;
pub mod outcome;
pub mod resource;
pub mod scheduler;
pub mod string_map;

pub use crate::outcome::{deadline, deadline_of, ERROR_INTERVAL_SECS, RESYNC_INTERVAL_SECS};

use crate::string_map::StringMap;
use vstd::prelude::*;

verus! {

/// `kube::Error`, the error of the cluster client. The library carries such a
/// value from the caller that met it to the caller that reports it, and
/// never looks inside.
#[verifier::external_type_specification]
#[verifier::external_body]
pub struct ExKubeError(kube::Error);

/// Why a reconcile, or the controller's start, failed.
#[derive(Debug)]
pub enum ControllerError {
    /// The cluster client failed.
    KubeError(kube::Error),
    /// A required field of the object is missing or unusable.
    InvalidConfigError(String),
    /// The service that a route points to cannot be reconciled.
    BadService(String),
    /// Listing the services failed.
    ServiceError(kube::Error),
    /// Listing the route declarations failed.
    IngressError(kube::Error),
}

/// State shared by all reconciles: what is known of the endpoints and of the
/// certificates of each service, keyed by `namespace/name`.
#[derive(Debug)]
pub struct Context {
    /// Endpoint data of the services.
    pub epsmap: StringMap,
    /// Certificate data of the services.
    pub secretmap: StringMap,
}

impl Context {
    /// A context that knows of no service yet.
    pub fn new() -> (ctx: Context)
        ensures
            ctx.epsmap@ == Map::<Seq<char>, Seq<char>>::empty(),
            ctx.secretmap@ == Map::<Seq<char>, Seq<char>>::empty(),
    {
        Context { epsmap: StringMap::new(), secretmap: StringMap::new() }
    }
}

impl Clone for Context {
    /// A context that knows what this one knows.
    fn clone(&self) -> (copy: Context)
        ensures
            copy.epsmap@ == self.epsmap@,
            copy.secretmap@ == self.secretmap@,
    {
        Context { epsmap: self.epsmap.clone(), secretmap: self.secretmap.clone() }
    }
}

} // verus!
