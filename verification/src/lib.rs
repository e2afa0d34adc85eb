//! A verified core for a graceful stateful-workload controller.
//!
//! The library models the data that the controller reads and writes — a
//! StatefulSet specification, the `GratefulSet` and `GratefulSetPool`
//! custom resources, and the per-pool lease ConfigMap — as plain values,
//! and verifies the logic that drives them: the revision hash over the
//! immutable subset of a StatefulSet specification, and the two
//! reconciliation decision functions. All side effects (API calls,
//! watches, requeues) are left to the caller, which applies the decided
//! action and reports back what it observed.

pub mod convergence;
pub mod gs;
pub mod gsp;
pub mod manager;
pub mod meta;
pub mod pool_reconcile;
pub mod pod;
pub mod revision;
pub mod set_reconcile;
pub mod strfmt;
pub mod sts;
