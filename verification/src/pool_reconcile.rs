//! The `GratefulSetPool` reconciler's decision function.
//!
//! One pass reads the pool, its underlying StatefulSet and its lease
//! ConfigMap, and decides a single step. Let `D` be the pool's
//! specification with the lease machinery injected and `O` the observed
//! StatefulSet specification; primes mean "with the replica count
//! cleared". The rows, in order:
//!
//! 1. no StatefulSet — create it from `D` and requeue immediately;
//! 2. `D == O` — nothing to do;
//! 3. `D' != O'` — patch the specification to `D'`, keeping `O`'s
//!    replica count, and let the rollout run;
//! 4. declared and current replica counts disagree — a rollout is in
//!    flight, wait for the watch;
//! 5. `D.replicas > O.replicas` — scale up: bring the lease ConfigMap
//!    to one key per desired ordinal, then raise `spec.replicas`;
//! 6. `D.replicas < O.replicas` — scale down one ordinal: first revoke
//!    the highest ordinal's lease, then wait until that pod is no
//!    longer ready, and only then lower `spec.replicas` by one.
//!
//! Revoking the lease strictly precedes the replica reduction: the
//! decision lowers `spec.replicas` only when the doomed ordinal's key
//! is already gone from the observed ConfigMap.

use crate::gsp::ConfigMap;
use crate::gsp::ConfigMapView;
use crate::gsp::GratefulSetPool;
use crate::gsp::GratefulSetPoolView;
use crate::gsp::configmap_has_key;
use crate::gsp::spec_configmap;
use crate::gsp::spec_has_key;
use crate::gsp::spec_with_lock;
use crate::gsp::spec_without_replicas;
use crate::gsp::without_replicas;
use crate::meta::LabelSelector;
use crate::pod::PodTemplateSpec;
use crate::pod::PodTemplateSpecView;
use crate::sts::StatefulSet;
use crate::sts::StatefulSetSpec;
use crate::sts::StatefulSetSpecView;
use crate::sts::StatefulSetView;
use crate::sts::eq_statefulset_spec;
use crate::strfmt::dec_of;
use crate::strfmt::dec_string_u32;
use vstd::prelude::*;

verus! {

/// One step decided by the pool reconciler.
pub enum PoolAction {
    /// Create the underlying StatefulSet with this specification and
    /// reconcile again at once.
    CreateSts { spec: StatefulSetSpec },
    /// Desired and observed agree: nothing to do.
    Noop,
    /// Apply this specification (the desired one, at the observed
    /// replica count) and wait for the rollout.
    PatchSpec { spec: StatefulSetSpec },
    /// A specification change is still rolling out: wait for the
    /// watch.
    WaitForRollout,
    /// Scale up: bring the lease ConfigMap to this desired shape, then
    /// raise `spec.replicas` to this count.
    ScaleUp { configmap: ConfigMap, replicas: i32 },
    /// Scale down, first step: remove this ordinal's key from the
    /// lease ConfigMap.
    RevokeLease { ordinal: i32 },
    /// Scale down, second step: the lease is revoked but the doomed
    /// pod still reports ready; wait.
    WaitForDrain,
    /// Scale down, last step: lower `spec.replicas` to this count.
    ScaleDownSts { replicas: i32 },
}

#[verifier::ext_equal]
pub enum PoolActionView {
    CreateSts { spec: StatefulSetSpecView },
    Noop,
    PatchSpec { spec: StatefulSetSpecView },
    WaitForRollout,
    ScaleUp { configmap: ConfigMapView, replicas: i32 },
    RevokeLease { ordinal: i32 },
    WaitForDrain,
    ScaleDownSts { replicas: i32 },
}

impl View for PoolAction {
    type V = PoolActionView;

    open spec fn view(&self) -> PoolActionView {
        match self {
            PoolAction::CreateSts { spec } => PoolActionView::CreateSts { spec: spec.deep_view() },
            PoolAction::Noop => PoolActionView::Noop,
            PoolAction::PatchSpec { spec } => PoolActionView::PatchSpec { spec: spec.deep_view() },
            PoolAction::WaitForRollout => PoolActionView::WaitForRollout,
            PoolAction::ScaleUp { configmap, replicas } => PoolActionView::ScaleUp {
                configmap: configmap.deep_view(),
                replicas: *replicas,
            },
            PoolAction::RevokeLease { ordinal } => PoolActionView::RevokeLease {
                ordinal: *ordinal,
            },
            PoolAction::WaitForDrain => PoolActionView::WaitForDrain,
            PoolAction::ScaleDownSts { replicas } => PoolActionView::ScaleDownSts {
                replicas: *replicas,
            },
        }
    }
}

impl DeepView for PoolAction {
    type V = PoolActionView;

    open spec fn deep_view(&self) -> PoolActionView {
        self.view()
    }
}

/// An empty StatefulSet specification, standing in when an observed
/// StatefulSet carries none.
pub open spec fn spec_default_sts_spec() -> StatefulSetSpecView {
    StatefulSetSpecView {
        pod_management_policy: None,
        replicas: None,
        revision_history_limit: None,
        selector: crate::meta::LabelSelectorView { match_expressions: None, match_labels: None },
        service_name: Seq::empty(),
        template: PodTemplateSpecView { spec: None },
        update_strategy: None,
        volume_claim_templates: None,
    }
}

/// An empty StatefulSet specification, as a value.
pub fn default_sts_spec() -> (r: StatefulSetSpec)
    ensures
        r@ == spec_default_sts_spec(),
{
    let r = StatefulSetSpec {
        pod_management_policy: None,
        replicas: None,
        revision_history_limit: None,
        selector: LabelSelector { match_expressions: None, match_labels: None },
        service_name: String::new(),
        template: PodTemplateSpec { spec: None },
        update_strategy: None,
        volume_claim_templates: None,
    };
    proof {
        assert(r@ =~= spec_default_sts_spec());
    }
    r
}

/// A replica count, read as one when absent.
pub open spec fn replicas_or_one(r: Option<i32>) -> i32 {
    match r {
        Some(x) => x,
        None => 1,
    }
}

/// An observed counter, read as zero when absent.
pub open spec fn status_or_zero(sts: Option<StatefulSetView>, ready: bool) -> int {
    match sts {
        Some(o) => match o.status {
            Some(st) => if ready {
                match st.ready_replicas {
                    Some(x) => x as int,
                    None => 0,
                }
            } else {
                match st.current_replicas {
                    Some(x) => x as int,
                    None => 0,
                }
            },
            None => 0,
        },
        None => 0,
    }
}

/// Whether the observed lease ConfigMap holds a key; no ConfigMap
/// means no keys.
pub open spec fn opt_has_key(locks: Option<ConfigMapView>, key: Seq<char>) -> bool {
    match locks {
        Some(cm) => spec_has_key(cm.data, key),
        None => false,
    }
}

/// The observed specification of the StatefulSet, an absent one read
/// as empty.
pub open spec fn observed_spec(o: StatefulSetView) -> StatefulSetSpecView {
    match o.spec {
        Some(s) => s,
        None => spec_default_sts_spec(),
    }
}

/// The pool reconciler's decision, as a function of the observed
/// world.
pub open spec fn spec_decide_pool(
    pool: GratefulSetPoolView,
    sts: Option<StatefulSetView>,
    locks: Option<ConfigMapView>,
    ns: Seq<char>,
) -> PoolActionView {
    let d = spec_with_lock(pool.spec);
    match sts {
        None => PoolActionView::CreateSts { spec: d },
        Some(o) => {
            let ospec = observed_spec(o);
            if d == ospec {
                PoolActionView::Noop
            } else if spec_without_replicas(d) != spec_without_replicas(ospec) {
                PoolActionView::PatchSpec {
                    spec: StatefulSetSpecView { replicas: ospec.replicas, ..spec_without_replicas(d) },
                }
            } else {
                let found = replicas_or_one(ospec.replicas);
                if found as int != status_or_zero(sts, false) {
                    PoolActionView::WaitForRollout
                } else {
                    let desired = replicas_or_one(pool.spec.sts_spec.replicas);
                    if desired > found {
                        PoolActionView::ScaleUp {
                            configmap: spec_configmap(pool.spec, ns),
                            replicas: desired,
                        }
                    } else if desired < found {
                        let doomed = (found - 1) as i32;
                        if opt_has_key(locks, dec_of(doomed as nat)) {
                            PoolActionView::RevokeLease { ordinal: doomed }
                        } else if status_or_zero(sts, true) > doomed as int {
                            PoolActionView::WaitForDrain
                        } else {
                            PoolActionView::ScaleDownSts { replicas: doomed }
                        }
                    } else {
                        PoolActionView::Noop
                    }
                }
            }
        },
    }
}

/// Whether every replica count in sight is non-negative, as the
/// platform's validation guarantees of stored objects.
pub open spec fn pool_inputs_valid(pool: GratefulSetPoolView, sts: Option<StatefulSetView>) -> bool {
    &&& (pool.spec.sts_spec.replicas matches Some(x) ==> x >= 0)
    &&& (sts matches Some(o) ==> (o.spec matches Some(s) ==> (s.replicas matches Some(x) ==> x
        >= 0)))
}

/// One reconcile decision for a pool, given the observed StatefulSet
/// and lease ConfigMap in namespace `ns`. The result equals
/// `spec_decide_pool` on the views of the inputs.
pub fn decide_pool(
    pool: &GratefulSetPool,
    sts: &Option<StatefulSet>,
    locks: &Option<ConfigMap>,
    ns: &String,
) -> (a: PoolAction)
    requires
        pool_inputs_valid(pool@, sts.deep_view()),
    ensures
        a.deep_view() == spec_decide_pool(pool@, sts.deep_view(), locks.deep_view(), ns@),
{
    let d = pool.spec.with_lock();
    let o = match sts {
        None => {
            return PoolAction::CreateSts { spec: d };
        },
        Some(o) => o,
    };
    let ospec = match &o.spec {
        Some(s) => s.clone(),
        None => default_sts_spec(),
    };
    proof {
        assert(ospec@ == observed_spec(sts.deep_view().unwrap()));
    }
    if eq_statefulset_spec(&d, &ospec) {
        return PoolAction::Noop;
    }
    let d_sans = without_replicas(&d);
    let o_sans = without_replicas(&ospec);
    if !eq_statefulset_spec(&d_sans, &o_sans) {
        let mut patch = d_sans;
        patch.replicas = ospec.replicas;
        proof {
            assert(patch@ =~= (StatefulSetSpecView {
                replicas: observed_spec(sts.deep_view().unwrap()).replicas,
                ..spec_without_replicas(d@)
            }));
        }
        return PoolAction::PatchSpec { spec: patch };
    }
    let found: i32 = match ospec.replicas {
        Some(x) => x,
        None => 1,
    };
    let current: i32 = match &o.status {
        Some(st) => match st.current_replicas {
            Some(x) => x,
            None => 0,
        },
        None => 0,
    };
    if found != current {
        return PoolAction::WaitForRollout;
    }
    let desired: i32 = match pool.spec.sts_spec.replicas {
        Some(x) => x,
        None => 1,
    };
    if desired > found {
        let configmap = pool.spec.configmap(ns.clone());
        PoolAction::ScaleUp { configmap, replicas: desired }
    } else if desired < found {
        let doomed = found - 1;
        let key = dec_string_u32(doomed as u32);
        let has_lease = match locks {
            Some(cm) => configmap_has_key(cm, &key),
            None => false,
        };
        if has_lease {
            PoolAction::RevokeLease { ordinal: doomed }
        } else {
            let ready: i32 = match &o.status {
                Some(st) => match st.ready_replicas {
                    Some(x) => x,
                    None => 0,
                },
                None => 0,
            };
            if ready > doomed {
                PoolAction::WaitForDrain
            } else {
                PoolAction::ScaleDownSts { replicas: doomed }
            }
        }
    } else {
        PoolAction::Noop
    }
}

/// How long to wait before the next pass: a just-created StatefulSet
/// is reconciled again at once; every other action is followed by a
/// watch event, so no timer is set and the caller's safety net
/// applies.
pub fn pool_requeue_after_secs(a: &PoolAction) -> (r: Option<u64>)
    ensures
        a is CreateSts ==> r == Some(0u64),
        !(a is CreateSts) ==> r is None,
{
    match a {
        PoolAction::CreateSts { .. } => Some(0),
        _ => None,
    }
}

// --- the lease-precedence law ------------------------------------------------

/// Lease revocation strictly precedes replica reduction. A decision
/// that lowers `spec.replicas` to `n` is possible only when the
/// observed ConfigMap no longer holds ordinal `n`'s lease; while the
/// lease is still held, the decision is to revoke it (and nothing
/// else); and the revoked ordinal is exactly the one the later
/// reduction discards.
pub proof fn lemma_lease_precedes_scale_down(
    pool: GratefulSetPoolView,
    sts: Option<StatefulSetView>,
    locks: Option<ConfigMapView>,
    ns: Seq<char>,
)
    ensures
        spec_decide_pool(pool, sts, locks, ns) matches PoolActionView::ScaleDownSts { replicas }
            ==> !opt_has_key(locks, dec_of(replicas as nat)),
        spec_decide_pool(pool, sts, locks, ns) matches PoolActionView::RevokeLease { ordinal }
            ==> opt_has_key(locks, dec_of(ordinal as nat)) && (sts matches Some(o) && ordinal
            as int == replicas_or_one(observed_spec(o).replicas) - 1),
        spec_decide_pool(pool, sts, locks, ns) matches PoolActionView::ScaleDownSts { replicas }
            ==> (sts matches Some(o) && replicas as int == replicas_or_one(
            observed_spec(o).replicas,
        ) - 1),
{
}

} // verus!
