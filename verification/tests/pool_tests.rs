use gratefulset::gs::GratefulSetSpec;
use gratefulset::gs::GratefulSetStatus;
use gratefulset::gsp::GratefulSetPool;
use gratefulset::gsp::GratefulSetPoolSpec;
use gratefulset::gsp::GratefulSetPoolStatus;
use gratefulset::gsp::without_replicas;
use gratefulset::meta::KeyValue;
use gratefulset::meta::LabelSelector;
use gratefulset::pod::Container;
use gratefulset::pod::PodSpec;
use gratefulset::pod::PodTemplateSpec;
use gratefulset::revision::ImmutableSts;
use gratefulset::strfmt::hex_string_u16;
use gratefulset::sts::StatefulSetSpec;
use gratefulset::sts::StatefulSetStatus;

fn simple_spec(replicas: Option<i32>) -> StatefulSetSpec {
    StatefulSetSpec {
        pod_management_policy: None,
        replicas,
        revision_history_limit: None,
        selector: LabelSelector {
            match_expressions: None,
            match_labels: Some(vec![KeyValue {
                key: "app".to_string(),
                value: "db".to_string(),
            }]),
        },
        service_name: "db-svc".to_string(),
        template: PodTemplateSpec {
            spec: Some(PodSpec {
                containers: vec![Container {
                    name: "main".to_string(),
                    image: Some("db:1.0".to_string()),
                    command: None,
                    args: None,
                    working_dir: None,
                    volume_mounts: None,
                }],
                init_containers: None,
                volumes: None,
            }),
        },
        update_strategy: None,
        volume_claim_templates: None,
    }
}

fn pool_spec(replicas: Option<i32>) -> GratefulSetPoolSpec {
    GratefulSetPoolSpec { name: "db-abc".to_string(), sts_spec: simple_spec(replicas) }
}

#[test]
fn without_replicas_clears_only_replicas() {
    let spec = simple_spec(Some(5));
    let bare = without_replicas(&spec);
    assert_eq!(bare.replicas, None);
    assert_eq!(bare.service_name, "db-svc");
    assert_eq!(
        ImmutableSts(&bare).checksum(),
        ImmutableSts(&spec).checksum()
    );
}

#[test]
fn delta_replicas_shifts_and_floors() {
    let mut p = pool_spec(Some(3));
    p.delta_replicas(1);
    assert_eq!(p.sts_spec.replicas, Some(4));
    p.delta_replicas(-2);
    assert_eq!(p.sts_spec.replicas, Some(2));
    p.delta_replicas(-5);
    assert_eq!(p.sts_spec.replicas, Some(0));
    let mut q = pool_spec(None);
    q.delta_replicas(1);
    assert_eq!(q.sts_spec.replicas, None);
}

#[test]
fn with_lock_appends_gate_and_volume() {
    let p = pool_spec(Some(2));
    let locked = p.with_lock();
    let ps = locked.template.spec.expect("pod spec kept");
    let inits = ps.init_containers.expect("init containers added");
    assert_eq!(inits.len(), 1);
    let gate = &inits[0];
    assert_eq!(gate.name, "gsp-unlocker");
    assert_eq!(gate.image.as_deref(), Some("alpine:3.7"));
    assert_eq!(gate.command.as_ref().expect("command")[0], "/bin/sh");
    let args = gate.args.as_ref().expect("args");
    assert_eq!(args[0], "-c");
    assert!(args[1].contains("HOSTNAME"));
    assert_eq!(gate.working_dir.as_deref(), Some("/locks"));
    let mounts = gate.volume_mounts.as_ref().expect("mounts");
    assert_eq!(mounts.len(), 1);
    assert_eq!(mounts[0].mount_path, "/locks");
    assert_eq!(mounts[0].name, "pikach.us-locks");
    let vols = ps.volumes.expect("volumes added");
    assert_eq!(vols.len(), 1);
    assert_eq!(vols[0].name, "pikach.us-locks");
    assert_eq!(
        vols[0].config_map.as_ref().expect("configmap source").name.as_deref(),
        Some("db-abc-lock")
    );
    // the workload containers are kept
    assert_eq!(ps.containers.len(), 1);
    assert_eq!(ps.containers[0].name, "main");
    // replicas and everything else survive
    assert_eq!(locked.replicas, Some(2));
    assert_eq!(locked.service_name, "db-svc");
}

#[test]
fn with_lock_keeps_existing_inits_and_volumes() {
    let mut p = pool_spec(Some(1));
    if let Some(ps) = p.sts_spec.template.spec.as_mut() {
        ps.init_containers = Some(vec![Container {
            name: "warmup".to_string(),
            image: None,
            command: None,
            args: None,
            working_dir: None,
            volume_mounts: None,
        }]);
    }
    let locked = p.with_lock();
    let inits = locked.template.spec.expect("pod spec").init_containers.expect("inits");
    assert_eq!(inits.len(), 2);
    assert_eq!(inits[0].name, "warmup");
    assert_eq!(inits[1].name, "gsp-unlocker");
}

#[test]
fn configmap_holds_one_lease_per_ordinal() {
    let p = pool_spec(Some(3));
    let cm = p.configmap("prod".to_string());
    assert_eq!(cm.name, "db-abc-lock");
    assert_eq!(cm.namespace, "prod");
    assert_eq!(cm.data.len(), 3);
    for (i, kv) in cm.data.iter().enumerate() {
        assert_eq!(kv.key, i.to_string());
        assert_eq!(kv.value, i.to_string());
    }
    assert_eq!(cm.labels.len(), 1);
    assert_eq!(cm.labels[0].key, "owner.pikach.us");
    assert_eq!(cm.labels[0].value, "db-abc");
    assert_eq!(cm.owner_kind, "GratefulSetPool");
}

#[test]
fn configmap_defaults_to_one_lease() {
    let p = pool_spec(None);
    let cm = p.configmap("default".to_string());
    assert_eq!(cm.data.len(), 1);
    assert_eq!(cm.data[0].key, "0");
}

#[test]
fn pool_is_named_by_the_revision_hash() {
    let gs = GratefulSetSpec { name: "db".to_string(), sts_spec: simple_spec(Some(3)) };
    let pool = gs.pool();
    let h = ImmutableSts(&gs.sts_spec).checksum();
    let expected = format!("db-{}", hex_string_u16(h));
    assert_eq!(pool.name, expected);
    assert_eq!(pool.spec.name, expected);
    assert_eq!(pool.labels.len(), 1);
    assert_eq!(pool.labels[0].key, "owner.pikach.us");
    assert_eq!(pool.labels[0].value, "db");
    assert_eq!(pool.owner.as_deref(), Some("db"));
    assert!(pool.status.is_none());
    assert_eq!(pool.spec.sts_spec.replicas, Some(3));
}

fn pool_with_status(name: &str, declared: i32, ready: i32) -> GratefulSetPool {
    GratefulSetPool {
        name: name.to_string(),
        labels: vec![],
        owner: Some("db".to_string()),
        spec: GratefulSetPoolSpec {
            name: name.to_string(),
            sts_spec: simple_spec(Some(declared)),
        },
        status: Some(GratefulSetPoolStatus {
            sts_status: StatefulSetStatus {
                current_replicas: Some(ready),
                ready_replicas: Some(ready),
                replicas: declared,
                updated_replicas: Some(ready),
            },
            scale_down_records: vec![],
        }),
    }
}

#[test]
fn set_status_sums_pool_counters() {
    let pools = vec![
        pool_with_status("db-a", 3, 2),
        pool_with_status("db-b", 1, 1),
    ];
    let st = GratefulSetStatus::of_pools(&pools);
    assert_eq!(st.current_replicas, Some(3));
    assert_eq!(st.ready_replicas, Some(3));
    assert_eq!(st.replicas, 4);
    assert_eq!(st.updated_replicas, Some(3));
}

#[test]
fn set_status_of_no_pools_is_zero() {
    let pools: Vec<GratefulSetPool> = vec![];
    let st = GratefulSetStatus::of_pools(&pools);
    assert_eq!(st.current_replicas, Some(0));
    assert_eq!(st.ready_replicas, Some(0));
    assert_eq!(st.replicas, 0);
    assert_eq!(st.updated_replicas, Some(0));
}
