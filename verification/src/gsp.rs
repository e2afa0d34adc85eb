//! The `GratefulSetPool` resource: one revision of a stateful workload.
//!
//! A pool drives one underlying StatefulSet whose name equals the
//! pool's, plus a sibling "lease" ConfigMap named `<pool>-lock`. The
//! ConfigMap holds one key per desired pod ordinal; an injected init
//! container refuses to start a pod whose ordinal has no lease, which
//! is what lets the controller drain pods one at a time.

use crate::meta::KeyValue;
use crate::meta::KeyValueView;
use crate::pod::ConfigMapVolumeSource;
use crate::pod::ConfigMapVolumeSourceView;
use crate::pod::Container;
use crate::pod::ContainerView;
use crate::pod::PodSpec;
use crate::pod::PodSpecView;
use crate::pod::PodTemplateSpec;
use crate::pod::PodTemplateSpecView;
use crate::pod::Volume;
use crate::pod::VolumeMount;
use crate::pod::VolumeMountView;
use crate::pod::VolumeView;
use crate::pod::lemma_cloned_vec_container;
use crate::pod::lemma_cloned_vec_volume;
use crate::revision::opt_seq;
use crate::strfmt::dec_of;
use crate::strfmt::dec_string_u32;
use crate::sts::StatefulSetSpec;
use crate::sts::StatefulSetSpecView;
use crate::sts::StatefulSetStatus;
use vstd::prelude::*;

verus! {

/// The desired state of one pool: its own name and the StatefulSet
/// specification it must realize (replica count included, owned by the
/// parent reconciler).
pub struct GratefulSetPoolSpec {
    pub name: String,
    pub sts_spec: StatefulSetSpec,
}

#[verifier::ext_equal]
pub struct GratefulSetPoolSpecView {
    pub name: Seq<char>,
    pub sts_spec: StatefulSetSpecView,
}

impl View for GratefulSetPoolSpec {
    type V = GratefulSetPoolSpecView;

    open spec fn view(&self) -> GratefulSetPoolSpecView {
        GratefulSetPoolSpecView { name: self.name.deep_view(), sts_spec: self.sts_spec.deep_view() }
    }
}

impl DeepView for GratefulSetPoolSpec {
    type V = GratefulSetPoolSpecView;

    open spec fn deep_view(&self) -> GratefulSetPoolSpecView {
        self.view()
    }
}

impl Clone for GratefulSetPoolSpec {
    fn clone(&self) -> (r: Self)
        ensures
            r@ == self@,
    {
        let r = GratefulSetPoolSpec { name: self.name.clone(), sts_spec: self.sts_spec.clone() };
        proof {
            assert(r@ =~= self@);
        }
        r
    }
}

/// One record of a scale-down step that has already run for an
/// ordinal.
pub struct ScaleDownRecord {
    pub ordinal: i32,
    pub value: String,
}

#[verifier::ext_equal]
pub struct ScaleDownRecordView {
    pub ordinal: i32,
    pub value: Seq<char>,
}

impl View for ScaleDownRecord {
    type V = ScaleDownRecordView;

    open spec fn view(&self) -> ScaleDownRecordView {
        ScaleDownRecordView { ordinal: self.ordinal, value: self.value.deep_view() }
    }
}

impl DeepView for ScaleDownRecord {
    type V = ScaleDownRecordView;

    open spec fn deep_view(&self) -> ScaleDownRecordView {
        self.view()
    }
}

impl Clone for ScaleDownRecord {
    fn clone(&self) -> (r: Self)
        ensures
            r@ == self@,
    {
        let r = ScaleDownRecord { ordinal: self.ordinal, value: self.value.clone() };
        proof {
            assert(r@ =~= self@);
        }
        r
    }
}

/// The observed status of a pool: the reflected status of its
/// StatefulSet, plus the scale-down steps recorded per ordinal.
pub struct GratefulSetPoolStatus {
    pub sts_status: StatefulSetStatus,
    pub scale_down_records: Vec<ScaleDownRecord>,
}

#[verifier::ext_equal]
pub struct GratefulSetPoolStatusView {
    pub sts_status: StatefulSetStatus,
    pub scale_down_records: Seq<ScaleDownRecordView>,
}

impl View for GratefulSetPoolStatus {
    type V = GratefulSetPoolStatusView;

    open spec fn view(&self) -> GratefulSetPoolStatusView {
        GratefulSetPoolStatusView {
            sts_status: self.sts_status,
            scale_down_records: self.scale_down_records.deep_view(),
        }
    }
}

impl DeepView for GratefulSetPoolStatus {
    type V = GratefulSetPoolStatusView;

    open spec fn deep_view(&self) -> GratefulSetPoolStatusView {
        self.view()
    }
}

impl Clone for GratefulSetPoolStatus {
    fn clone(&self) -> (r: Self)
        ensures
            r@ == self@,
    {
        let scale_down_records = self.scale_down_records.clone();
        proof {
            lemma_cloned_vec_sdr(self.scale_down_records, scale_down_records);
        }
        let r = GratefulSetPoolStatus { sts_status: self.sts_status, scale_down_records };
        proof {
            assert(r@ =~= self@);
        }
        r
    }
}

pub proof fn lemma_cloned_vec_sdr(a: Vec<ScaleDownRecord>, b: Vec<ScaleDownRecord>)
    requires
        cloned::<Vec<ScaleDownRecord>>(a, b),
    ensures
        b.deep_view() == a.deep_view(),
{
    if a == b {
        assert(b.deep_view() =~= a.deep_view());
    } else {
        assert forall|i: int| 0 <= i < a@.len() implies b.deep_view()[i] == a.deep_view()[i] by {
            assert(cloned::<ScaleDownRecord>(a@[i], b@[i]));
        }
        assert(b.deep_view() =~= a.deep_view());
    }
}

/// A `GratefulSetPool` object as the controller sees it: metadata name,
/// owner label and reference, desired state and observed status.
pub struct GratefulSetPool {
    pub name: String,
    pub labels: Vec<KeyValue>,
    pub owner: Option<String>,
    pub spec: GratefulSetPoolSpec,
    pub status: Option<GratefulSetPoolStatus>,
}

#[verifier::ext_equal]
pub struct GratefulSetPoolView {
    pub name: Seq<char>,
    pub labels: Seq<KeyValueView>,
    pub owner: Option<Seq<char>>,
    pub spec: GratefulSetPoolSpecView,
    pub status: Option<GratefulSetPoolStatusView>,
}

impl View for GratefulSetPool {
    type V = GratefulSetPoolView;

    open spec fn view(&self) -> GratefulSetPoolView {
        GratefulSetPoolView {
            name: self.name.deep_view(),
            labels: self.labels.deep_view(),
            owner: self.owner.deep_view(),
            spec: self.spec.deep_view(),
            status: self.status.deep_view(),
        }
    }
}

impl DeepView for GratefulSetPool {
    type V = GratefulSetPoolView;

    open spec fn deep_view(&self) -> GratefulSetPoolView {
        self.view()
    }
}

impl Clone for GratefulSetPool {
    fn clone(&self) -> (r: Self)
        ensures
            r@ == self@,
    {
        let labels = self.labels.clone();
        let status = self.status.clone();
        proof {
            crate::meta::lemma_cloned_vec_key_value(self.labels, labels);
            if self.status is Some {
                assert(cloned::<GratefulSetPoolStatus>(self.status.unwrap(), status.unwrap()));
            }
        }
        let r = GratefulSetPool {
            name: self.name.clone(),
            labels,
            owner: crate::meta::clone_opt_string(&self.owner),
            spec: self.spec.clone(),
            status,
        };
        proof {
            assert(r@ =~= self@);
        }
        r
    }
}

/// The lease ConfigMap of a pool, as the controller writes it: one key
/// per desired pod ordinal, each mapped to its own decimal rendering.
pub struct ConfigMap {
    pub name: String,
    pub namespace: String,
    pub data: Vec<KeyValue>,
    pub labels: Vec<KeyValue>,
    pub owner_kind: String,
}

#[verifier::ext_equal]
pub struct ConfigMapView {
    pub name: Seq<char>,
    pub namespace: Seq<char>,
    pub data: Seq<KeyValueView>,
    pub labels: Seq<KeyValueView>,
    pub owner_kind: Seq<char>,
}

impl View for ConfigMap {
    type V = ConfigMapView;

    open spec fn view(&self) -> ConfigMapView {
        ConfigMapView {
            name: self.name.deep_view(),
            namespace: self.namespace.deep_view(),
            data: self.data.deep_view(),
            labels: self.labels.deep_view(),
            owner_kind: self.owner_kind.deep_view(),
        }
    }
}

impl DeepView for ConfigMap {
    type V = ConfigMapView;

    open spec fn deep_view(&self) -> ConfigMapView {
        self.view()
    }
}

/// Whether a lease for `key` is present in ConfigMap data.
pub open spec fn spec_has_key(data: Seq<KeyValueView>, key: Seq<char>) -> bool {
    exists|i: int| 0 <= i < data.len() && data[i].key == key
}

/// Searches ConfigMap data for a lease key.
pub fn configmap_has_key(cm: &ConfigMap, key: &String) -> (r: bool)
    ensures
        r == spec_has_key(cm@.data, key@),
{
    let mut i: usize = 0;
    while i < cm.data.len()
        invariant
            i <= cm.data.len(),
            forall|j: int| 0 <= j < i ==> cm@.data[j].key != key@,
        decreases cm.data.len() - i,
    {
        if cm.data[i].key == *key {
            proof {
                assert(cm@.data[i as int].key == key@);
            }
            return true;
        }
        i += 1;
    }
    false
}

/// A copy of a StatefulSet specification with the replica count
/// cleared, so that everything except scale can be compared.
pub open spec fn spec_without_replicas(s: StatefulSetSpecView) -> StatefulSetSpecView {
    StatefulSetSpecView { replicas: None, ..s }
}

/// Clears the replica count of a StatefulSet specification. Both
/// reconcilers compare specifications this way: scale is converged
/// separately from everything else.
pub fn without_replicas(spec: &StatefulSetSpec) -> (r: StatefulSetSpec)
    ensures
        r@ == spec_without_replicas(spec@),
{
    let mut x = spec.clone();
    x.replicas = None;
    proof {
        assert(x@ =~= spec_without_replicas(spec@));
    }
    x
}

/// What `delta_replicas` does to a replica count: shift by `n`, floored
/// at zero; an absent count stays absent.
pub open spec fn spec_delta_replicas(r: Option<i32>, n: int) -> Option<i32> {
    match r {
        None => None,
        Some(x) => Some(if x + n < 0 { 0i32 } else { (x + n) as i32 }),
    }
}

// --- fixed names of the lease machinery ----------------------------------

/// The name of a pool's lease ConfigMap: `<pool-name>-lock`.
pub open spec fn spec_configmap_name(pool_name: Seq<char>) -> Seq<char> {
    pool_name + "-lock"@
}

/// The directory where the lease ConfigMap is mounted.
pub open spec fn spec_lock_dir() -> Seq<char> {
    "/locks"@
}

/// The fixed name of the lease volume inside the pod specification.
pub open spec fn spec_lock_volume() -> Seq<char> {
    "pikach.us-locks"@
}

/// The shell script of the unlocker: extract the pod ordinal from
/// `$HOSTNAME`, and exit zero exactly when the lease file with that
/// name exists in the working directory.
pub open spec fn spec_unlock_script() -> Seq<char> {
    "echo ${HOSTNAME} | sed -r 's/.*-([0-9])+$/\\1/' | xargs -n 1 -I {} -- [ -e {} ] && echo successfully acquired lock at $$(date -u) || (echo failure && exit 1)"@
}

/// The init container injected ahead of the workload: it blocks pod
/// start-up until the pod's ordinal holds a lease.
pub open spec fn spec_lock_container() -> ContainerView {
    ContainerView {
        name: "gsp-unlocker"@,
        image: Some("alpine:3.7"@),
        command: Some(seq!["/bin/sh"@]),
        args: Some(seq!["-c"@, spec_unlock_script()]),
        working_dir: Some(spec_lock_dir()),
        volume_mounts: Some(
            seq![VolumeMountView { mount_path: spec_lock_dir(), name: spec_lock_volume() }],
        ),
    }
}

/// The volume that exposes the pool's lease ConfigMap to its pods.
pub open spec fn spec_lease_volume(pool_name: Seq<char>) -> VolumeView {
    VolumeView {
        name: spec_lock_volume(),
        config_map: Some(
            ConfigMapVolumeSourceView { name: Some(spec_configmap_name(pool_name)) },
        ),
    }
}

/// The pool's StatefulSet specification with the lease machinery
/// injected: the unlocker init container is appended to the init
/// containers and the lease volume to the volumes. A template without a pod specification
/// is left untouched.
pub open spec fn spec_with_lock(p: GratefulSetPoolSpecView) -> StatefulSetSpecView {
    match p.sts_spec.template.spec {
        None => p.sts_spec,
        Some(ps) => StatefulSetSpecView {
            template: PodTemplateSpecView {
                spec: Some(
                    PodSpecView {
                        containers: ps.containers,
                        init_containers: Some(
                            opt_seq(ps.init_containers).push(spec_lock_container()),
                        ),
                        volumes: Some(opt_seq(ps.volumes).push(spec_lease_volume(p.name))),
                    },
                ),
            },
            ..p.sts_spec
        },
    }
}

/// The desired lease ConfigMap of a pool: keys `0 .. replicas-1`, an
/// absent replica count read as one.
pub open spec fn spec_configmap(p: GratefulSetPoolSpecView, ns: Seq<char>) -> ConfigMapView {
    let replicas = match p.sts_spec.replicas {
        Some(r) => if r < 0 { 0 as nat } else { r as nat },
        None => 1 as nat,
    };
    ConfigMapView {
        name: spec_configmap_name(p.name),
        namespace: ns,
        data: Seq::new(replicas, |i: int| KeyValueView { key: dec_of(i as nat), value: dec_of(i as nat) }),
        labels: seq![KeyValueView { key: "owner.pikach.us"@, value: p.name }],
        owner_kind: "GratefulSetPool"@,
    }
}

impl GratefulSetPoolSpec {
    /// Shifts the desired replica count by `n`, never below zero. An
    /// absent replica count stays absent.
    pub fn delta_replicas(&mut self, n: i32)
        requires
            old(self).sts_spec.replicas is Some ==> i32::MIN <= old(self).sts_spec.replicas.unwrap()
                + n <= i32::MAX,
        ensures
            final(self)@ == (GratefulSetPoolSpecView {
                sts_spec: StatefulSetSpecView {
                    replicas: spec_delta_replicas(old(self).sts_spec.replicas, n as int),
                    ..old(self)@.sts_spec
                },
                ..old(self)@
            }),
    {
        match self.sts_spec.replicas {
            None => {
                proof {
                    assert(self@ =~= (GratefulSetPoolSpecView {
                        sts_spec: StatefulSetSpecView {
                            replicas: spec_delta_replicas(old(self).sts_spec.replicas, n as int),
                            ..old(self)@.sts_spec
                        },
                        ..old(self)@
                    }));
                }
            },
            Some(x) => {
                let shifted = x + n;
                self.sts_spec.replicas = Some(if shifted < 0 { 0 } else { shifted });
                proof {
                    assert(self@ =~= (GratefulSetPoolSpecView {
                        sts_spec: StatefulSetSpecView {
                            replicas: spec_delta_replicas(old(self).sts_spec.replicas, n as int),
                            ..old(self)@.sts_spec
                        },
                        ..old(self)@
                    }));
                }
            },
        }
    }

    /// The unlocker init container, as a value.
    fn lock_container(&self) -> (r: Container)
        ensures
            r@ == spec_lock_container(),
    {
        let mut command: Vec<String> = Vec::new();
        command.push(String::from_str("/bin/sh"));
        let mut args: Vec<String> = Vec::new();
        args.push(String::from_str("-c"));
        args.push(String::from_str(
            "echo ${HOSTNAME} | sed -r 's/.*-([0-9])+$/\\1/' | xargs -n 1 -I {} -- [ -e {} ] && echo successfully acquired lock at $$(date -u) || (echo failure && exit 1)",
        ));
        let mut volume_mounts: Vec<VolumeMount> = Vec::new();
        volume_mounts.push(VolumeMount { mount_path: self.lock_dir(), name: self.lock_volume() });
        let r = Container {
            name: String::from_str("gsp-unlocker"),
            image: Some(String::from_str("alpine:3.7")),
            command: Some(command),
            args: Some(args),
            working_dir: Some(self.lock_dir()),
            volume_mounts: Some(volume_mounts),
        };
        proof {
            assert(r@.command.unwrap() =~= spec_lock_container().command.unwrap());
            assert(r@.args.unwrap() =~= spec_lock_container().args.unwrap());
            assert(r@.volume_mounts.unwrap() =~= spec_lock_container().volume_mounts.unwrap());
            assert(r@ =~= spec_lock_container());
        }
        r
    }

    /// The lease volume, as a value.
    fn lease_volume(&self) -> (r: Volume)
        ensures
            r@ == spec_lease_volume(self.name@),
    {
        let r = Volume {
            name: self.lock_volume(),
            config_map: Some(ConfigMapVolumeSource { name: Some(self.configmap_name()) }),
        };
        proof {
            assert(r@ =~= spec_lease_volume(self.name@));
        }
        r
    }

    /// The pool's StatefulSet specification with the lease machinery
    /// injected: init container and ConfigMap volume added, everything
    /// else kept.
    pub fn with_lock(&self) -> (r: StatefulSetSpec)
        ensures
            r@ == spec_with_lock(self@),
    {
        match &self.sts_spec.template.spec {
            None => {
                let r = self.sts_spec.clone();
                proof {
                    assert(r@ =~= spec_with_lock(self@));
                }
                r
            },
            Some(p) => {
                let mut inits: Vec<Container> = match &p.init_containers {
                    Some(v) => {
                        let c = v.clone();
                        proof {
                            lemma_cloned_vec_container(*v, c);
                        }
                        c
                    },
                    None => Vec::new(),
                };
                proof {
                    assert(inits.deep_view() =~= opt_seq(p.init_containers.deep_view()));
                }
                inits.push(self.lock_container());
                let mut vols: Vec<Volume> = match &p.volumes {
                    Some(v) => {
                        let c = v.clone();
                        proof {
                            lemma_cloned_vec_volume(*v, c);
                        }
                        c
                    },
                    None => Vec::new(),
                };
                proof {
                    assert(vols.deep_view() =~= opt_seq(p.volumes.deep_view()));
                }
                vols.push(self.lease_volume());
                let containers = p.containers.clone();
                proof {
                    lemma_cloned_vec_container(p.containers, containers);
                }
                let update_strategy = self.sts_spec.update_strategy.clone();
                let volume_claim_templates = self.sts_spec.volume_claim_templates.clone();
                proof {
                    if self.sts_spec.update_strategy is Some {
                        assert(cloned::<crate::sts::StatefulSetUpdateStrategy>(
                            self.sts_spec.update_strategy.unwrap(),
                            update_strategy.unwrap(),
                        ));
                    }
                    crate::sts::lemma_cloned_opt_vec_pvc(
                        self.sts_spec.volume_claim_templates,
                        volume_claim_templates,
                    );
                }
                let r = StatefulSetSpec {
                    pod_management_policy: crate::meta::clone_opt_string(
                        &self.sts_spec.pod_management_policy,
                    ),
                    replicas: self.sts_spec.replicas,
                    revision_history_limit: self.sts_spec.revision_history_limit,
                    selector: self.sts_spec.selector.clone(),
                    service_name: self.sts_spec.service_name.clone(),
                    template: PodTemplateSpec {
                        spec: Some(
                            PodSpec { containers, init_containers: Some(inits), volumes: Some(vols) },
                        ),
                    },
                    update_strategy,
                    volume_claim_templates,
                };
                proof {
                    assert(inits.deep_view() =~= opt_seq(p.init_containers.deep_view()).push(
                        spec_lock_container(),
                    ));
                    assert(vols.deep_view() =~= opt_seq(p.volumes.deep_view()).push(
                        spec_lease_volume(self.name@),
                    ));
                    assert(r@ =~= spec_with_lock(self@));
                }
                r
            },
        }
    }

    /// The name of the pool's lease ConfigMap.
    pub fn configmap_name(&self) -> (r: String)
        ensures
            r@ == spec_configmap_name(self.name@),
    {
        let r = self.name.clone().concat("-lock");
        r
    }

    /// The mount directory of the lease ConfigMap.
    pub fn lock_dir(&self) -> (r: String)
        ensures
            r@ == spec_lock_dir(),
    {
        String::from_str("/locks")
    }

    /// The name of the lease volume.
    pub fn lock_volume(&self) -> (r: String)
        ensures
            r@ == spec_lock_volume(),
    {
        let r = String::from_str("pikach.us").concat("-locks");
        proof {
            reveal_strlit("pikach.us");
            reveal_strlit("-locks");
            reveal_strlit("pikach.us-locks");
            assert(r@ =~= spec_lock_volume());
        }
        r
    }

    /// The desired lease ConfigMap: one key per desired pod ordinal,
    /// labelled and owned like the pool itself.
    pub fn configmap(&self, ns: String) -> (r: ConfigMap)
        ensures
            r@ == spec_configmap(self@, ns@),
    {
        let count: i32 = match self.sts_spec.replicas {
            Some(x) => if x < 0 { 0 } else { x },
            None => 1,
        };
        let mut data: Vec<KeyValue> = Vec::new();
        let mut i: i32 = 0;
        while i < count
            invariant
                0 <= i <= count,
                data.len() == i,
                forall|j: int| 0 <= j < i ==> data@[j]@ == (KeyValueView {
                    key: dec_of(j as nat),
                    value: dec_of(j as nat),
                }),
            decreases count - i,
        {
            let key = dec_string_u32(i as u32);
            let value = dec_string_u32(i as u32);
            let ghost prev = data@;
            data.push(KeyValue { key, value });
            i += 1;
            proof {
                assert forall|j: int| 0 <= j < i implies data@[j]@ == (KeyValueView {
                    key: dec_of(j as nat),
                    value: dec_of(j as nat),
                }) by {
                    if j < i - 1 {
                        assert(data@[j] == prev[j]);
                    } else {
                        assert(data@[j]@ =~= (KeyValueView {
                            key: dec_of(j as nat),
                            value: dec_of(j as nat),
                        }));
                    }
                }
            }
        }
        proof {
            assert forall|j: int| 0 <= j < count implies data.deep_view()[j] == (KeyValueView {
                key: dec_of(j as nat),
                value: dec_of(j as nat),
            }) by {
                assert(data.deep_view()[j] == data@[j]@);
            }
        }
        let mut labels: Vec<KeyValue> = Vec::new();
        labels.push(KeyValue { key: String::from_str("owner.pikach.us"), value: self.name.clone() });
        let r = ConfigMap {
            name: self.configmap_name(),
            namespace: ns,
            data,
            labels,
            owner_kind: String::from_str("GratefulSetPool"),
        };
        proof {
            assert(r@.labels =~= spec_configmap(self@, ns@).labels);
            assert(r@ =~= spec_configmap(self@, ns@));
        }
        r
    }
}

} // verus!
