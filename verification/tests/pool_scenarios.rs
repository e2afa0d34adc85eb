use gratefulset::gsp::ConfigMap;
use gratefulset::gsp::GratefulSetPool;
use gratefulset::gsp::GratefulSetPoolSpec;
use gratefulset::meta::KeyValue;
use gratefulset::meta::LabelSelector;
use gratefulset::pod::Container;
use gratefulset::pod::PodSpec;
use gratefulset::pod::PodTemplateSpec;
use gratefulset::pool_reconcile::PoolAction;
use gratefulset::pool_reconcile::decide_pool;
use gratefulset::pool_reconcile::pool_requeue_after_secs;
use gratefulset::sts::StatefulSet;
use gratefulset::sts::StatefulSetSpec;
use gratefulset::sts::StatefulSetStatus;

fn simple_spec(replicas: Option<i32>, image: &str) -> StatefulSetSpec {
    StatefulSetSpec {
        pod_management_policy: None,
        replicas,
        revision_history_limit: None,
        selector: LabelSelector {
            match_expressions: None,
            match_labels: Some(vec![KeyValue {
                key: "app".to_string(),
                value: "db".to_string(),
            }]),
        },
        service_name: "db-svc".to_string(),
        template: PodTemplateSpec {
            spec: Some(PodSpec {
                containers: vec![Container {
                    name: "main".to_string(),
                    image: Some(image.to_string()),
                    command: None,
                    args: None,
                    working_dir: None,
                    volume_mounts: None,
                }],
                init_containers: None,
                volumes: None,
            }),
        },
        update_strategy: None,
        volume_claim_templates: None,
    }
}

fn the_pool(replicas: i32) -> GratefulSetPool {
    GratefulSetPool {
        name: "db-abc".to_string(),
        labels: vec![],
        owner: Some("db".to_string()),
        spec: GratefulSetPoolSpec {
            name: "db-abc".to_string(),
            sts_spec: simple_spec(Some(replicas), "db:1.0"),
        },
        status: None,
    }
}

/// The observed StatefulSet that exactly realizes the pool at the
/// given declared/current/ready counts.
fn observed(pool: &GratefulSetPool, declared: i32, current: i32, ready: i32) -> StatefulSet {
    let mut spec = pool.spec.with_lock();
    spec.replicas = Some(declared);
    StatefulSet {
        name: pool.name.clone(),
        spec: Some(spec),
        status: Some(StatefulSetStatus {
            current_replicas: Some(current),
            ready_replicas: Some(ready),
            replicas: current,
            updated_replicas: Some(current),
        }),
    }
}

fn ns() -> String {
    "prod".to_string()
}

#[test]
fn absent_statefulset_is_created_with_the_gate() {
    let pool = the_pool(3);
    let a = decide_pool(&pool, &None, &None, &ns());
    match &a {
        PoolAction::CreateSts { spec } => {
            let ps = spec.template.spec.as_ref().expect("pod spec");
            let inits = ps.init_containers.as_ref().expect("gate injected");
            assert_eq!(inits[0].name, "gsp-unlocker");
            assert_eq!(spec.replicas, Some(3));
        }
        _ => panic!("expected creation"),
    }
    assert_eq!(pool_requeue_after_secs(&a), Some(0));
}

#[test]
fn matching_statefulset_is_left_alone() {
    let pool = the_pool(3);
    let sts = observed(&pool, 3, 3, 3);
    let a = decide_pool(&pool, &Some(sts), &None, &ns());
    assert!(matches!(a, PoolAction::Noop));
    assert_eq!(pool_requeue_after_secs(&a), None);
}

#[test]
fn template_drift_is_patched_keeping_observed_scale() {
    let pool = the_pool(3);
    let mut sts = observed(&pool, 5, 5, 5);
    // the observed world still runs the previous image
    if let Some(spec) = sts.spec.as_mut() {
        if let Some(ps) = spec.template.spec.as_mut() {
            ps.containers[0].image = Some("db:0.9".to_string());
        }
    }
    match decide_pool(&pool, &Some(sts), &None, &ns()) {
        PoolAction::PatchSpec { spec } => {
            assert_eq!(spec.replicas, Some(5));
            let ps = spec.template.spec.expect("pod spec");
            assert_eq!(ps.containers[0].image.as_deref(), Some("db:1.0"));
        }
        _ => panic!("expected patch"),
    }
}

#[test]
fn rollout_in_flight_means_wait() {
    let pool = the_pool(3);
    // declared 5, but only 4 pods exist yet
    let sts = observed(&pool, 5, 4, 4);
    let a = decide_pool(&pool, &Some(sts), &None, &ns());
    assert!(matches!(a, PoolAction::WaitForRollout));
}

#[test]
fn scale_up_extends_leases_then_raises_replicas() {
    let pool = the_pool(4);
    let sts = observed(&pool, 2, 2, 2);
    match decide_pool(&pool, &Some(sts), &None, &ns()) {
        PoolAction::ScaleUp { configmap, replicas } => {
            assert_eq!(replicas, 4);
            assert_eq!(configmap.name, "db-abc-lock");
            let keys: Vec<&str> = configmap.data.iter().map(|kv| kv.key.as_str()).collect();
            assert_eq!(keys, vec!["0", "1", "2", "3"]);
        }
        _ => panic!("expected scale-up"),
    }
}

fn leases(upto: i32) -> ConfigMap {
    let mut p = the_pool(0);
    p.spec.sts_spec.replicas = Some(upto);
    p.spec.configmap(ns())
}

#[test]
fn scale_down_first_revokes_the_highest_lease() {
    let pool = the_pool(3);
    let sts = observed(&pool, 4, 4, 4);
    // all four leases still present
    let locks = leases(4);
    match decide_pool(&pool, &Some(sts), &Some(locks), &ns()) {
        PoolAction::RevokeLease { ordinal } => assert_eq!(ordinal, 3),
        _ => panic!("expected lease revocation"),
    }
}

#[test]
fn scale_down_waits_while_the_doomed_pod_is_ready() {
    let pool = the_pool(3);
    let sts = observed(&pool, 4, 4, 4);
    // lease "3" already revoked, pod still ready
    let locks = leases(3);
    let a = decide_pool(&pool, &Some(sts), &Some(locks), &ns());
    assert!(matches!(a, PoolAction::WaitForDrain));
}

#[test]
fn scale_down_lowers_replicas_only_after_the_lease_is_gone() {
    let pool = the_pool(3);
    let sts = observed(&pool, 4, 4, 3);
    let locks = leases(3);
    match decide_pool(&pool, &Some(sts), &Some(locks), &ns()) {
        PoolAction::ScaleDownSts { replicas } => assert_eq!(replicas, 3),
        _ => panic!("expected replica reduction"),
    }
    // With the lease still held the same observation would only
    // revoke, never reduce: revocation strictly precedes reduction.
    let sts2 = observed(&pool, 4, 4, 3);
    let held = leases(4);
    match decide_pool(&pool, &Some(sts2), &Some(held), &ns()) {
        PoolAction::RevokeLease { ordinal } => assert_eq!(ordinal, 3),
        _ => panic!("expected lease revocation while the lease is held"),
    }
}

#[test]
fn missing_configmap_counts_as_no_leases() {
    let pool = the_pool(3);
    let sts = observed(&pool, 4, 4, 3);
    match decide_pool(&pool, &Some(sts), &None, &ns()) {
        PoolAction::ScaleDownSts { replicas } => assert_eq!(replicas, 3),
        _ => panic!("expected replica reduction"),
    }
}
