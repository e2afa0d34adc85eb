use gratefulset::gs::GratefulSet;
use gratefulset::gs::GratefulSetSpec;
use gratefulset::gsp::GratefulSetPool;
use gratefulset::gsp::GratefulSetPoolSpec;
use gratefulset::gsp::GratefulSetPoolStatus;
use gratefulset::meta::KeyValue;
use gratefulset::meta::LabelSelector;
use gratefulset::pod::Container;
use gratefulset::pod::PodSpec;
use gratefulset::pod::PodTemplateSpec;
use gratefulset::revision::ImmutableSts;
use gratefulset::set_reconcile::SetAction;
use gratefulset::set_reconcile::decide_set;
use gratefulset::set_reconcile::requeue_after_secs;
use gratefulset::strfmt::hex_string_u16;
use gratefulset::sts::StatefulSetSpec;
use gratefulset::sts::StatefulSetStatus;

/// A template whose `image` is a mutable dimension and whose
/// `storage_class` (on the volume claim) is an immutable one.
fn template(replicas: Option<i32>, image: &str, storage_class: &str) -> StatefulSetSpec {
    StatefulSetSpec {
        pod_management_policy: None,
        replicas,
        revision_history_limit: None,
        selector: LabelSelector {
            match_expressions: None,
            match_labels: Some(vec![KeyValue {
                key: "app".to_string(),
                value: "db".to_string(),
            }]),
        },
        service_name: "db-svc".to_string(),
        template: PodTemplateSpec {
            spec: Some(PodSpec {
                containers: vec![Container {
                    name: "main".to_string(),
                    image: Some(image.to_string()),
                    command: None,
                    args: None,
                    working_dir: None,
                    volume_mounts: None,
                }],
                init_containers: None,
                volumes: None,
            }),
        },
        update_strategy: None,
        volume_claim_templates: Some(vec![gratefulset::sts::PersistentVolumeClaim {
            metadata: gratefulset::meta::ObjectMeta {
                annotations: None,
                cluster_name: None,
                deletion_grace_period_seconds: None,
                finalizers: None,
                generate_name: None,
                labels: None,
                name: Some("data".to_string()),
                namespace: None,
            },
            spec: Some(gratefulset::sts::PersistentVolumeClaimSpec {
                access_modes: None,
                resources: None,
                selector: None,
                storage_class_name: Some(storage_class.to_string()),
                volume_mode: None,
                volume_name: None,
            }),
        }]),
    }
}

fn gs(replicas: i32, image: &str, storage_class: &str) -> GratefulSet {
    GratefulSet {
        name: "db".to_string(),
        spec: GratefulSetSpec {
            name: "db".to_string(),
            sts_spec: template(Some(replicas), image, storage_class),
        },
        status: None,
    }
}

fn pool_name(image: &str, storage_class: &str) -> String {
    let t = template(Some(0), image, storage_class);
    format!("db-{}", hex_string_u16(ImmutableSts(&t).checksum()))
}

fn pool(replicas: i32, ready: i32, image: &str, storage_class: &str) -> GratefulSetPool {
    let name = pool_name(image, storage_class);
    GratefulSetPool {
        name: name.clone(),
        labels: vec![KeyValue { key: "owner.pikach.us".to_string(), value: "db".to_string() }],
        owner: Some("db".to_string()),
        spec: GratefulSetPoolSpec {
            name,
            sts_spec: template(Some(replicas), image, storage_class),
        },
        status: Some(GratefulSetPoolStatus {
            sts_status: StatefulSetStatus {
                current_replicas: Some(ready),
                ready_replicas: Some(ready),
                replicas,
                updated_replicas: Some(ready),
            },
            scale_down_records: vec![],
        }),
    }
}

/// Applies one decided action to an in-memory pool list and settles
/// the counters, the way a cooperating platform eventually would.
fn apply_and_settle(pools: &mut Vec<GratefulSetPool>, action: SetAction) {
    match action {
        SetAction::Noop => {}
        SetAction::DeleteOldPools { names } => {
            pools.retain(|p| !names.contains(&p.name));
        }
        SetAction::CreateCurrent { pool } => {
            pools.push(pool);
        }
        SetAction::PatchTemplate { pool }
        | SetAction::ScaleDown { pool }
        | SetAction::ScaleUp { pool } => {
            let slot = pools
                .iter_mut()
                .find(|q| q.name == pool.name)
                .expect("applied pool exists");
            *slot = pool;
        }
    }
    for p in pools.iter_mut() {
        let r = p.spec.sts_spec.replicas.unwrap_or(1);
        p.status = Some(GratefulSetPoolStatus {
            sts_status: StatefulSetStatus {
                current_replicas: Some(r),
                ready_replicas: Some(r),
                replicas: r,
                updated_replicas: Some(r),
            },
            scale_down_records: vec![],
        });
    }
}

fn replicas_of(pools: &[GratefulSetPool], name: &str) -> i32 {
    pools
        .iter()
        .find(|p| p.name == name)
        .expect("pool present")
        .spec
        .sts_spec
        .replicas
        .expect("replicas set")
}

#[test]
fn fresh_creation_builds_then_grows() {
    let set = gs(3, "db:1.0", "ssd");
    let h0 = pool_name("db:1.0", "ssd");
    let mut pools: Vec<GratefulSetPool> = vec![];

    let first = decide_set(&set, &pools);
    match &first {
        SetAction::CreateCurrent { pool } => {
            assert_eq!(pool.name, h0);
            assert_eq!(pool.spec.sts_spec.replicas, Some(0));
        }
        other => panic!("expected creation, got {:?}", action_name(other)),
    }
    assert_eq!(requeue_after_secs(&first), None);
    apply_and_settle(&mut pools, first);

    for expected in 1..=3 {
        let a = decide_set(&set, &pools);
        match &a {
            SetAction::ScaleUp { pool } => {
                assert_eq!(pool.name, h0);
                assert_eq!(pool.spec.sts_spec.replicas, Some(expected));
            }
            other => panic!("expected scale-up, got {:?}", action_name(other)),
        }
        apply_and_settle(&mut pools, a);
    }

    let done = decide_set(&set, &pools);
    assert!(matches!(done, SetAction::Noop));
    assert_eq!(requeue_after_secs(&done), Some(300));
}

#[test]
fn pure_scale_up_adds_one_at_a_time() {
    let set = gs(5, "db:1.0", "ssd");
    let h0 = pool_name("db:1.0", "ssd");
    let mut pools = vec![pool(3, 3, "db:1.0", "ssd")];

    for expected in 4..=5 {
        let a = decide_set(&set, &pools);
        match &a {
            SetAction::ScaleUp { pool } => {
                assert_eq!(pool.name, h0);
                assert_eq!(pool.spec.sts_spec.replicas, Some(expected));
            }
            other => panic!("expected scale-up, got {:?}", action_name(other)),
        }
        apply_and_settle(&mut pools, a);
    }
    assert!(matches!(decide_set(&set, &pools), SetAction::Noop));
}

#[test]
fn pure_scale_down_removes_one_at_a_time() {
    let set = gs(2, "db:1.0", "ssd");
    let h0 = pool_name("db:1.0", "ssd");
    let mut pools = vec![pool(4, 4, "db:1.0", "ssd")];

    for expected in (2..=3).rev() {
        let a = decide_set(&set, &pools);
        match &a {
            SetAction::ScaleDown { pool } => {
                assert_eq!(pool.name, h0);
                assert_eq!(pool.spec.sts_spec.replicas, Some(expected));
            }
            other => panic!("expected scale-down, got {:?}", action_name(other)),
        }
        apply_and_settle(&mut pools, a);
    }
    assert!(matches!(decide_set(&set, &pools), SetAction::Noop));
}

#[test]
fn immutable_change_migrates_replica_by_replica() {
    // The user switches the storage class: a new revision must be
    // grown while the old one drains, one replica at a time.
    let set = gs(3, "db:1.0", "fast");
    let h0 = pool_name("db:1.0", "ssd");
    let h1 = pool_name("db:1.0", "fast");
    assert_ne!(h0, h1);
    let mut pools = vec![pool(3, 3, "db:1.0", "ssd")];

    let a = decide_set(&set, &pools);
    match &a {
        SetAction::CreateCurrent { pool } => {
            assert_eq!(pool.name, h1);
            assert_eq!(pool.spec.sts_spec.replicas, Some(0));
        }
        other => panic!("expected creation, got {:?}", action_name(other)),
    }
    apply_and_settle(&mut pools, a);

    // Drain and grow alternate: capacity never exceeds desired + 1
    // and the migration ends with the old pool deleted.
    let mut steps = 0;
    loop {
        let a = decide_set(&set, &pools);
        if matches!(a, SetAction::Noop) {
            break;
        }
        if let SetAction::DeleteOldPools { names } = &a {
            assert_eq!(names.len(), 1);
            assert_eq!(names[0], h0);
        }
        apply_and_settle(&mut pools, a);
        let total: i32 = pools
            .iter()
            .map(|p| p.spec.sts_spec.replicas.unwrap_or(1))
            .sum();
        assert!(total <= 4, "capacity bound violated: {}", total);
        steps += 1;
        assert!(steps < 20, "migration did not converge");
    }
    assert_eq!(pools.len(), 1);
    assert_eq!(pools[0].name, h1);
    assert_eq!(replicas_of(&pools, &h1), 3);
}

#[test]
fn mutable_change_is_patched_in_place() {
    // Only the image changes: same revision hash, so the current pool
    // is patched, its replica count untouched, and no new pool
    // appears.
    let set = gs(3, "db:2.0", "ssd");
    let h0 = pool_name("db:1.0", "ssd");
    assert_eq!(h0, pool_name("db:2.0", "ssd"));
    let mut pools = vec![pool(3, 3, "db:1.0", "ssd")];

    let a = decide_set(&set, &pools);
    match &a {
        SetAction::PatchTemplate { pool } => {
            assert_eq!(pool.name, h0);
            assert_eq!(pool.spec.sts_spec.replicas, Some(3));
            let ps = pool.spec.sts_spec.template.spec.as_ref().expect("pod spec");
            assert_eq!(ps.containers[0].image.as_deref(), Some("db:2.0"));
        }
        other => panic!("expected patch, got {:?}", action_name(other)),
    }
    apply_and_settle(&mut pools, a);
    assert_eq!(pools.len(), 1);
    assert!(matches!(decide_set(&set, &pools), SetAction::Noop));
}

#[test]
fn orphaned_drained_pool_is_deleted() {
    let set = gs(3, "db:1.0", "ssd");
    let h0 = pool_name("db:1.0", "ssd");
    let hx = pool_name("db:1.0", "old-gen");
    let mut pools = vec![pool(3, 3, "db:1.0", "ssd"), pool(0, 0, "db:1.0", "old-gen")];

    let a = decide_set(&set, &pools);
    match &a {
        SetAction::DeleteOldPools { names } => {
            assert_eq!(names.len(), 1);
            assert_eq!(names[0], hx);
        }
        other => panic!("expected deletion, got {:?}", action_name(other)),
    }
    apply_and_settle(&mut pools, a);
    assert_eq!(pools.len(), 1);
    assert_eq!(pools[0].name, h0);
    assert!(matches!(decide_set(&set, &pools), SetAction::Noop));
}

#[test]
fn oldest_pool_tiebreak_is_lexicographic() {
    // Two drainable old pools: the one with the smaller name drains
    // first, whatever the observed order.
    let set = gs(2, "db:1.0", "gen3");
    let p_b = pool(1, 1, "db:1.0", "gen1");
    let p_a = pool(1, 1, "db:1.0", "gen2");
    let (first, second) = if p_a.name < p_b.name {
        (p_a.clone(), p_b.clone())
    } else {
        (p_b.clone(), p_a.clone())
    };
    let mut pools = vec![pool(1, 1, "db:1.0", "gen3"), second.clone(), first.clone()];
    let a = decide_set(&set, &pools);
    match &a {
        SetAction::ScaleDown { pool } => {
            assert_eq!(pool.name, first.name);
            assert_eq!(pool.spec.sts_spec.replicas, Some(0));
        }
        other => panic!("expected scale-down, got {:?}", action_name(other)),
    }
    let mut reordered = vec![pools.remove(2), pools.remove(0), pools.remove(0)];
    let b = decide_set(&set, &reordered);
    assert_eq!(reordered.len(), 3);
    match &b {
        SetAction::ScaleDown { pool } => {
            assert_eq!(pool.name, first.name);
        }
        other => panic!("expected scale-down, got {:?}", action_name(other)),
    }
}

fn action_name(a: &SetAction) -> &'static str {
    match a {
        SetAction::Noop => "noop",
        SetAction::DeleteOldPools { .. } => "delete-old-pools",
        SetAction::PatchTemplate { .. } => "patch-template",
        SetAction::CreateCurrent { .. } => "create-current",
        SetAction::ScaleDown { .. } => "scale-down",
        SetAction::ScaleUp { .. } => "scale-up",
    }
}
