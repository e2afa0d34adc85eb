use gratefulset::meta::KeyValue;
use gratefulset::meta::LabelSelector;
use gratefulset::meta::LabelSelectorRequirement;
use gratefulset::meta::ObjectMeta;
use gratefulset::pod::Container;
use gratefulset::pod::PodSpec;
use gratefulset::pod::PodTemplateSpec;
use gratefulset::revision::ImmutableSts;
use gratefulset::strfmt::dec_string_u32;
use gratefulset::strfmt::hex_string_u16;
use gratefulset::sts::PersistentVolumeClaim;
use gratefulset::sts::PersistentVolumeClaimSpec;
use gratefulset::sts::ResourceRequirements;
use gratefulset::sts::StatefulSetSpec;
use gratefulset::sts::StatefulSetUpdateStrategy;

fn kv(k: &str, v: &str) -> KeyValue {
    KeyValue { key: k.to_string(), value: v.to_string() }
}

fn base_spec() -> StatefulSetSpec {
    StatefulSetSpec {
        pod_management_policy: Some("OrderedReady".to_string()),
        replicas: Some(3),
        revision_history_limit: Some(10),
        selector: LabelSelector {
            match_expressions: Some(vec![LabelSelectorRequirement {
                key: "tier".to_string(),
                operator: "In".to_string(),
                values: Some(vec!["db".to_string()]),
            }]),
            match_labels: Some(vec![kv("app", "db")]),
        },
        service_name: "db-svc".to_string(),
        template: PodTemplateSpec {
            spec: Some(PodSpec {
                containers: vec![Container {
                    name: "main".to_string(),
                    image: Some("db:1.0".to_string()),
                    command: None,
                    args: None,
                    working_dir: None,
                    volume_mounts: None,
                }],
                init_containers: None,
                volumes: None,
            }),
        },
        update_strategy: Some(StatefulSetUpdateStrategy {
            strategy_type: Some("RollingUpdate".to_string()),
            rolling_update_partition: None,
        }),
        volume_claim_templates: Some(vec![PersistentVolumeClaim {
            metadata: ObjectMeta {
                annotations: Some(vec![kv("note", "keep")]),
                cluster_name: None,
                deletion_grace_period_seconds: None,
                finalizers: None,
                generate_name: None,
                labels: Some(vec![kv("app", "db")]),
                name: Some("data".to_string()),
                namespace: None,
            },
            spec: Some(PersistentVolumeClaimSpec {
                access_modes: Some(vec!["ReadWriteOnce".to_string()]),
                resources: Some(ResourceRequirements {
                    limits: None,
                    requests: Some(vec![kv("storage", "10Gi")]),
                }),
                selector: None,
                storage_class_name: Some("ssd".to_string()),
                volume_mode: Some("Filesystem".to_string()),
                volume_name: None,
            }),
        }]),
    }
}

#[test]
fn hash_is_stable_across_copies() {
    let a = base_spec();
    let b = a.clone();
    assert_eq!(ImmutableSts(&a).checksum(), ImmutableSts(&b).checksum());
}

#[test]
fn hash_is_deterministic_across_calls() {
    let a = base_spec();
    let h1 = ImmutableSts(&a).checksum();
    let h2 = ImmutableSts(&a).checksum();
    assert_eq!(h1, h2);
}

#[test]
fn hash_ignores_replicas() {
    let a = base_spec();
    let mut b = base_spec();
    b.replicas = Some(17);
    assert_eq!(ImmutableSts(&a).checksum(), ImmutableSts(&b).checksum());
    b.replicas = None;
    assert_eq!(ImmutableSts(&a).checksum(), ImmutableSts(&b).checksum());
}

#[test]
fn hash_ignores_pod_template() {
    let a = base_spec();
    let mut b = base_spec();
    if let Some(ps) = b.template.spec.as_mut() {
        ps.containers[0].image = Some("db:2.0".to_string());
    }
    assert_eq!(ImmutableSts(&a).checksum(), ImmutableSts(&b).checksum());
    b.template.spec = None;
    assert_eq!(ImmutableSts(&a).checksum(), ImmutableSts(&b).checksum());
}

#[test]
fn hash_ignores_update_strategy() {
    let a = base_spec();
    let mut b = base_spec();
    b.update_strategy = Some(StatefulSetUpdateStrategy {
        strategy_type: Some("OnDelete".to_string()),
        rolling_update_partition: Some(2),
    });
    assert_eq!(ImmutableSts(&a).checksum(), ImmutableSts(&b).checksum());
    b.update_strategy = None;
    assert_eq!(ImmutableSts(&a).checksum(), ImmutableSts(&b).checksum());
}

#[test]
fn hash_tracks_pod_management_policy() {
    let a = base_spec();
    let mut b = base_spec();
    b.pod_management_policy = Some("Parallel".to_string());
    assert_ne!(ImmutableSts(&a).checksum(), ImmutableSts(&b).checksum());
}

#[test]
fn hash_tracks_revision_history_limit() {
    let a = base_spec();
    let mut b = base_spec();
    b.revision_history_limit = Some(11);
    assert_ne!(ImmutableSts(&a).checksum(), ImmutableSts(&b).checksum());
}

#[test]
fn hash_tracks_selector() {
    let a = base_spec();
    let mut b = base_spec();
    b.selector.match_labels = Some(vec![kv("app", "cache")]);
    assert_ne!(ImmutableSts(&a).checksum(), ImmutableSts(&b).checksum());
    let mut c = base_spec();
    c.selector.match_expressions = Some(vec![LabelSelectorRequirement {
        key: "tier".to_string(),
        operator: "NotIn".to_string(),
        values: Some(vec!["db".to_string()]),
    }]);
    assert_ne!(ImmutableSts(&a).checksum(), ImmutableSts(&c).checksum());
}

#[test]
fn hash_tracks_service_name() {
    let a = base_spec();
    let mut b = base_spec();
    b.service_name = "db-svc2".to_string();
    assert_ne!(ImmutableSts(&a).checksum(), ImmutableSts(&b).checksum());
}

#[test]
fn hash_tracks_storage_class() {
    let a = base_spec();
    let mut b = base_spec();
    if let Some(vcts) = b.volume_claim_templates.as_mut() {
        if let Some(sp) = vcts[0].spec.as_mut() {
            sp.storage_class_name = Some("hdd".to_string());
        }
    }
    assert_ne!(ImmutableSts(&a).checksum(), ImmutableSts(&b).checksum());
}

#[test]
fn hash_tracks_claim_resources() {
    let a = base_spec();
    let mut b = base_spec();
    if let Some(vcts) = b.volume_claim_templates.as_mut() {
        if let Some(sp) = vcts[0].spec.as_mut() {
            sp.resources = Some(ResourceRequirements {
                limits: None,
                requests: Some(vec![kv("storage", "20Gi")]),
            });
        }
    }
    assert_ne!(ImmutableSts(&a).checksum(), ImmutableSts(&b).checksum());
}

#[test]
fn hash_tracks_claim_metadata() {
    let a = base_spec();
    let mut b = base_spec();
    if let Some(vcts) = b.volume_claim_templates.as_mut() {
        vcts[0].metadata.name = Some("data2".to_string());
    }
    assert_ne!(ImmutableSts(&a).checksum(), ImmutableSts(&b).checksum());
}

#[test]
fn hash_tracks_access_modes() {
    let a = base_spec();
    let mut b = base_spec();
    if let Some(vcts) = b.volume_claim_templates.as_mut() {
        if let Some(sp) = vcts[0].spec.as_mut() {
            sp.access_modes = Some(vec!["ReadWriteMany".to_string()]);
        }
    }
    assert_ne!(ImmutableSts(&a).checksum(), ImmutableSts(&b).checksum());
}

#[test]
fn hex_rendering() {
    assert_eq!(hex_string_u16(0), "0");
    assert_eq!(hex_string_u16(9), "9");
    assert_eq!(hex_string_u16(10), "a");
    assert_eq!(hex_string_u16(15), "f");
    assert_eq!(hex_string_u16(16), "10");
    assert_eq!(hex_string_u16(0xabc), "abc");
    assert_eq!(hex_string_u16(0xffff), "ffff");
    assert_eq!(hex_string_u16(0x1a2b), "1a2b");
}

#[test]
fn dec_rendering() {
    assert_eq!(dec_string_u32(0), "0");
    assert_eq!(dec_string_u32(7), "7");
    assert_eq!(dec_string_u32(10), "10");
    assert_eq!(dec_string_u32(305), "305");
    assert_eq!(dec_string_u32(4294967295), "4294967295");
}
