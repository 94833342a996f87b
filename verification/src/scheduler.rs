//! The work queue of the controller. It holds at most one pending request
//! for each key, hands a key out only when its time has come and no
//! reconcile of that key is running, and remembers which keys are running
//! until their reconciles are reported as finished.
//!
//! The queue does not wait and does not read a clock: the caller passes the
//! current time in seconds, and sleeps where the queue says that nothing is
//! ready.

pub mod laws;
pub mod model;
pub mod queue;

pub use self::model::{DequeueView, RequestView, SchedulerView, Step};
pub use self::queue::{Dequeue, ReconcileRequest, Scheduler};
