//! The controller manager's fixed policy.
//!
//! Starting the controller — building a client, wiring the watches,
//! draining the work queue — is the caller's plumbing. What the
//! manager itself decides is small and fixed: which custom resource
//! definitions must be installed before it may start, and how long to
//! back off. Those decisions live here, with exact contracts, so the
//! plumbing has nothing left to get wrong.

use vstd::prelude::*;

verus! {

/// The reconciliation policy of the controller: its preconditions and
/// its requeue intervals.
pub struct Manager {}

impl Manager {
    /// The custom resource definitions that must be installed before
    /// the controller starts; a missing one is fatal at start-up.
    pub fn required_crds() -> (r: Vec<String>)
        ensures
            r@.len() == 2,
            r@[0]@ == "gratefulsets.pikach.us"@,
            r@[1]@ == "gratefulsetpools.pikach.us"@,
    {
        let mut r: Vec<String> = Vec::new();
        r.push(String::from_str("gratefulsets.pikach.us"));
        r.push(String::from_str("gratefulsetpools.pikach.us"));
        r
    }

    /// How long to wait before retrying a reconcile that returned an
    /// error: sixty seconds.
    pub fn error_requeue_secs() -> (r: u64)
        ensures
            r == 60u64,
    {
        60
    }

    /// How long a successful reconcile with no pending work waits
    /// before the safety-net pass: five minutes.
    pub fn safety_requeue_secs() -> (r: u64)
        ensures
            r == 300u64,
    {
        300
    }

    /// The field-manager identifier of the set reconciler's
    /// server-side applies.
    pub fn set_field_manager() -> (r: String)
        ensures
            r@ == "gratefulset-mgr"@,
    {
        String::from_str("gratefulset-mgr")
    }

    /// The field-manager identifier of the pool reconciler's
    /// server-side applies.
    pub fn pool_field_manager() -> (r: String)
        ensures
            r@ == "gratefulsetpool-mgr"@,
    {
        String::from_str("gratefulsetpool-mgr")
    }

    /// The label selector that finds a set's pools:
    /// `owner.pikach.us=<set name>`.
    pub fn owner_selector(name: &String) -> (r: String)
        ensures
            r@ == "owner.pikach.us="@ + name@,
    {
        String::from_str("owner.pikach.us=").concat(name.as_str())
    }
}

} // verus!
