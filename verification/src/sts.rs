//! StatefulSet specification model.
//!
//! This is the data the revision hash is computed over and the shape
//! both reconcilers compare: the StatefulSet specification with its
//! volume claim templates, plus the observed status counts. Resource
//! quantities appear in their canonical string form, and string-keyed
//! maps as key/value sequences ordered by key.

use crate::meta::KeyValue;
use crate::meta::KeyValueView;
use crate::meta::LabelSelector;
use crate::meta::LabelSelectorView;
use crate::meta::ObjectMeta;
use crate::meta::ObjectMetaView;
use crate::meta::eq_label_selector;
use crate::meta::eq_object_meta;
use crate::meta::eq_opt_i32;
use crate::meta::eq_opt_label_selector;
use crate::meta::eq_opt_string;
use crate::meta::eq_opt_vec_key_value;
use crate::meta::eq_opt_vec_string;
use crate::meta::eq_vec_key_value;
use crate::meta::lemma_cloned_opt_string;
use crate::meta::lemma_cloned_opt_vec_key_value;
use crate::meta::lemma_cloned_opt_vec_string;
use crate::pod::PodTemplateSpec;
use crate::pod::PodTemplateSpecView;
use crate::pod::eq_pod_template_spec;
use vstd::prelude::*;

verus! {

/// Resource limits and requests of a volume claim, as canonical
/// quantity strings ordered by key.
pub struct ResourceRequirements {
    pub limits: Option<Vec<KeyValue>>,
    pub requests: Option<Vec<KeyValue>>,
}

#[verifier::ext_equal]
pub struct ResourceRequirementsView {
    pub limits: Option<Seq<KeyValueView>>,
    pub requests: Option<Seq<KeyValueView>>,
}

impl View for ResourceRequirements {
    type V = ResourceRequirementsView;

    open spec fn view(&self) -> ResourceRequirementsView {
        ResourceRequirementsView {
            limits: self.limits.deep_view(),
            requests: self.requests.deep_view(),
        }
    }
}

impl DeepView for ResourceRequirements {
    type V = ResourceRequirementsView;

    open spec fn deep_view(&self) -> ResourceRequirementsView {
        self.view()
    }
}

impl Clone for ResourceRequirements {
    fn clone(&self) -> (r: Self)
        ensures
            r@ == self@,
    {
        let limits = self.limits.clone();
        let requests = self.requests.clone();
        proof {
            lemma_cloned_opt_vec_key_value(self.limits, limits);
            lemma_cloned_opt_vec_key_value(self.requests, requests);
        }
        let r = ResourceRequirements { limits, requests };
        proof {
            assert(r@ =~= self@);
        }
        r
    }
}

pub fn eq_resource_requirements(a: &ResourceRequirements, b: &ResourceRequirements) -> (r: bool)
    ensures
        r == (a@ == b@),
{
    let r = eq_opt_vec_key_value(&a.limits, &b.limits)
        && eq_opt_vec_key_value(&a.requests, &b.requests);
    proof {
        if r {
            assert(a@ =~= b@);
        }
    }
    r
}

pub fn eq_opt_resource_requirements(
    a: &Option<ResourceRequirements>,
    b: &Option<ResourceRequirements>,
) -> (r: bool)
    ensures
        r == (a.deep_view() == b.deep_view()),
{
    match (a, b) {
        (Some(x), Some(y)) => eq_resource_requirements(x, y),
        (None, None) => true,
        _ => false,
    }
}

/// The specification of one volume claim template.
pub struct PersistentVolumeClaimSpec {
    pub access_modes: Option<Vec<String>>,
    pub resources: Option<ResourceRequirements>,
    pub selector: Option<LabelSelector>,
    pub storage_class_name: Option<String>,
    pub volume_mode: Option<String>,
    pub volume_name: Option<String>,
}

#[verifier::ext_equal]
pub struct PersistentVolumeClaimSpecView {
    pub access_modes: Option<Seq<Seq<char>>>,
    pub resources: Option<ResourceRequirementsView>,
    pub selector: Option<LabelSelectorView>,
    pub storage_class_name: Option<Seq<char>>,
    pub volume_mode: Option<Seq<char>>,
    pub volume_name: Option<Seq<char>>,
}

impl View for PersistentVolumeClaimSpec {
    type V = PersistentVolumeClaimSpecView;

    open spec fn view(&self) -> PersistentVolumeClaimSpecView {
        PersistentVolumeClaimSpecView {
            access_modes: self.access_modes.deep_view(),
            resources: self.resources.deep_view(),
            selector: self.selector.deep_view(),
            storage_class_name: self.storage_class_name.deep_view(),
            volume_mode: self.volume_mode.deep_view(),
            volume_name: self.volume_name.deep_view(),
        }
    }
}

impl DeepView for PersistentVolumeClaimSpec {
    type V = PersistentVolumeClaimSpecView;

    open spec fn deep_view(&self) -> PersistentVolumeClaimSpecView {
        self.view()
    }
}

impl Clone for PersistentVolumeClaimSpec {
    fn clone(&self) -> (r: Self)
        ensures
            r@ == self@,
    {
        let access_modes = self.access_modes.clone();
        let resources = self.resources.clone();
        let selector = self.selector.clone();
        proof {
            lemma_cloned_opt_vec_string(self.access_modes, access_modes);
            if self.resources is Some {
                assert(cloned::<ResourceRequirements>(
                    self.resources.unwrap(),
                    resources.unwrap(),
                ));
            }
            if self.selector is Some {
                assert(cloned::<LabelSelector>(self.selector.unwrap(), selector.unwrap()));
            }
        }
        let r = PersistentVolumeClaimSpec {
            access_modes,
            resources,
            selector,
            storage_class_name: self.storage_class_name.clone(),
            volume_mode: self.volume_mode.clone(),
            volume_name: self.volume_name.clone(),
        };
        proof {
            lemma_cloned_opt_string(self.storage_class_name, r.storage_class_name);
            lemma_cloned_opt_string(self.volume_mode, r.volume_mode);
            lemma_cloned_opt_string(self.volume_name, r.volume_name);
            assert(r@ =~= self@);
        }
        r
    }
}

pub fn eq_persistent_volume_claim_spec(
    a: &PersistentVolumeClaimSpec,
    b: &PersistentVolumeClaimSpec,
) -> (r: bool)
    ensures
        r == (a@ == b@),
{
    let r = eq_opt_vec_string(&a.access_modes, &b.access_modes)
        && eq_opt_resource_requirements(&a.resources, &b.resources)
        && eq_opt_label_selector(&a.selector, &b.selector)
        && eq_opt_string(&a.storage_class_name, &b.storage_class_name)
        && eq_opt_string(&a.volume_mode, &b.volume_mode)
        && eq_opt_string(&a.volume_name, &b.volume_name);
    proof {
        if r {
            assert(a@ =~= b@);
        }
    }
    r
}

pub fn eq_opt_persistent_volume_claim_spec(
    a: &Option<PersistentVolumeClaimSpec>,
    b: &Option<PersistentVolumeClaimSpec>,
) -> (r: bool)
    ensures
        r == (a.deep_view() == b.deep_view()),
{
    match (a, b) {
        (Some(x), Some(y)) => eq_persistent_volume_claim_spec(x, y),
        (None, None) => true,
        _ => false,
    }
}

/// One volume claim template of a StatefulSet specification.
pub struct PersistentVolumeClaim {
    pub metadata: ObjectMeta,
    pub spec: Option<PersistentVolumeClaimSpec>,
}

#[verifier::ext_equal]
pub struct PersistentVolumeClaimView {
    pub metadata: ObjectMetaView,
    pub spec: Option<PersistentVolumeClaimSpecView>,
}

impl View for PersistentVolumeClaim {
    type V = PersistentVolumeClaimView;

    open spec fn view(&self) -> PersistentVolumeClaimView {
        PersistentVolumeClaimView {
            metadata: self.metadata.deep_view(),
            spec: self.spec.deep_view(),
        }
    }
}

impl DeepView for PersistentVolumeClaim {
    type V = PersistentVolumeClaimView;

    open spec fn deep_view(&self) -> PersistentVolumeClaimView {
        self.view()
    }
}

impl Clone for PersistentVolumeClaim {
    fn clone(&self) -> (r: Self)
        ensures
            r@ == self@,
    {
        let spec = self.spec.clone();
        proof {
            if self.spec is Some {
                assert(cloned::<PersistentVolumeClaimSpec>(self.spec.unwrap(), spec.unwrap()));
            }
        }
        let r = PersistentVolumeClaim { metadata: self.metadata.clone(), spec };
        proof {
            assert(r@ =~= self@);
        }
        r
    }
}

pub fn eq_persistent_volume_claim(
    a: &PersistentVolumeClaim,
    b: &PersistentVolumeClaim,
) -> (r: bool)
    ensures
        r == (a@ == b@),
{
    let r = eq_object_meta(&a.metadata, &b.metadata)
        && eq_opt_persistent_volume_claim_spec(&a.spec, &b.spec);
    proof {
        if r {
            assert(a@ =~= b@);
        }
    }
    r
}

/// The update strategy of a StatefulSet. It is one of the mutable
/// dimensions: the revision hash ignores it.
pub struct StatefulSetUpdateStrategy {
    pub strategy_type: Option<String>,
    pub rolling_update_partition: Option<i32>,
}

#[verifier::ext_equal]
pub struct StatefulSetUpdateStrategyView {
    pub strategy_type: Option<Seq<char>>,
    pub rolling_update_partition: Option<i32>,
}

impl View for StatefulSetUpdateStrategy {
    type V = StatefulSetUpdateStrategyView;

    open spec fn view(&self) -> StatefulSetUpdateStrategyView {
        StatefulSetUpdateStrategyView {
            strategy_type: self.strategy_type.deep_view(),
            rolling_update_partition: self.rolling_update_partition,
        }
    }
}

impl DeepView for StatefulSetUpdateStrategy {
    type V = StatefulSetUpdateStrategyView;

    open spec fn deep_view(&self) -> StatefulSetUpdateStrategyView {
        self.view()
    }
}

impl Clone for StatefulSetUpdateStrategy {
    fn clone(&self) -> (r: Self)
        ensures
            r@ == self@,
    {
        let r = StatefulSetUpdateStrategy {
            strategy_type: self.strategy_type.clone(),
            rolling_update_partition: self.rolling_update_partition,
        };
        proof {
            lemma_cloned_opt_string(self.strategy_type, r.strategy_type);
            assert(r@ =~= self@);
        }
        r
    }
}

pub fn eq_statefulset_update_strategy(
    a: &StatefulSetUpdateStrategy,
    b: &StatefulSetUpdateStrategy,
) -> (r: bool)
    ensures
        r == (a@ == b@),
{
    let r = eq_opt_string(&a.strategy_type, &b.strategy_type)
        && eq_opt_i32(&a.rolling_update_partition, &b.rolling_update_partition);
    proof {
        if r {
            assert(a@ =~= b@);
        }
    }
    r
}

pub fn eq_opt_statefulset_update_strategy(
    a: &Option<StatefulSetUpdateStrategy>,
    b: &Option<StatefulSetUpdateStrategy>,
) -> (r: bool)
    ensures
        r == (a.deep_view() == b.deep_view()),
{
    match (a, b) {
        (Some(x), Some(y)) => eq_statefulset_update_strategy(x, y),
        (None, None) => true,
        _ => false,
    }
}

/// A StatefulSet specification.
pub struct StatefulSetSpec {
    pub pod_management_policy: Option<String>,
    pub replicas: Option<i32>,
    pub revision_history_limit: Option<i32>,
    pub selector: LabelSelector,
    pub service_name: String,
    pub template: PodTemplateSpec,
    pub update_strategy: Option<StatefulSetUpdateStrategy>,
    pub volume_claim_templates: Option<Vec<PersistentVolumeClaim>>,
}

#[verifier::ext_equal]
pub struct StatefulSetSpecView {
    pub pod_management_policy: Option<Seq<char>>,
    pub replicas: Option<i32>,
    pub revision_history_limit: Option<i32>,
    pub selector: LabelSelectorView,
    pub service_name: Seq<char>,
    pub template: PodTemplateSpecView,
    pub update_strategy: Option<StatefulSetUpdateStrategyView>,
    pub volume_claim_templates: Option<Seq<PersistentVolumeClaimView>>,
}

impl View for StatefulSetSpec {
    type V = StatefulSetSpecView;

    open spec fn view(&self) -> StatefulSetSpecView {
        StatefulSetSpecView {
            pod_management_policy: self.pod_management_policy.deep_view(),
            replicas: self.replicas,
            revision_history_limit: self.revision_history_limit,
            selector: self.selector.deep_view(),
            service_name: self.service_name.deep_view(),
            template: self.template.deep_view(),
            update_strategy: self.update_strategy.deep_view(),
            volume_claim_templates: self.volume_claim_templates.deep_view(),
        }
    }
}

impl DeepView for StatefulSetSpec {
    type V = StatefulSetSpecView;

    open spec fn deep_view(&self) -> StatefulSetSpecView {
        self.view()
    }
}

impl Clone for StatefulSetSpec {
    fn clone(&self) -> (r: Self)
        ensures
            r@ == self@,
    {
        let update_strategy = self.update_strategy.clone();
        let volume_claim_templates = self.volume_claim_templates.clone();
        proof {
            if self.update_strategy is Some {
                assert(cloned::<StatefulSetUpdateStrategy>(
                    self.update_strategy.unwrap(),
                    update_strategy.unwrap(),
                ));
            }
            lemma_cloned_opt_vec_pvc(self.volume_claim_templates, volume_claim_templates);
        }
        let r = StatefulSetSpec {
            pod_management_policy: self.pod_management_policy.clone(),
            replicas: self.replicas,
            revision_history_limit: self.revision_history_limit,
            selector: self.selector.clone(),
            service_name: self.service_name.clone(),
            template: self.template.clone(),
            update_strategy,
            volume_claim_templates,
        };
        proof {
            lemma_cloned_opt_string(self.pod_management_policy, r.pod_management_policy);
            assert(r@ =~= self@);
        }
        r
    }
}

pub fn eq_statefulset_spec(a: &StatefulSetSpec, b: &StatefulSetSpec) -> (r: bool)
    ensures
        r == (a@ == b@),
{
    let r = eq_opt_string(&a.pod_management_policy, &b.pod_management_policy)
        && eq_opt_i32(&a.replicas, &b.replicas)
        && eq_opt_i32(&a.revision_history_limit, &b.revision_history_limit)
        && eq_label_selector(&a.selector, &b.selector)
        && a.service_name == b.service_name
        && eq_pod_template_spec(&a.template, &b.template)
        && eq_opt_statefulset_update_strategy(&a.update_strategy, &b.update_strategy)
        && eq_opt_vec_pvc(&a.volume_claim_templates, &b.volume_claim_templates);
    proof {
        if r {
            assert(a@ =~= b@);
        }
    }
    r
}

/// The observed counters of a StatefulSet.
#[derive(Clone, Copy)]
pub struct StatefulSetStatus {
    pub current_replicas: Option<i32>,
    pub ready_replicas: Option<i32>,
    pub replicas: i32,
    pub updated_replicas: Option<i32>,
}

impl View for StatefulSetStatus {
    type V = StatefulSetStatus;

    open spec fn view(&self) -> StatefulSetStatus {
        *self
    }
}

impl DeepView for StatefulSetStatus {
    type V = StatefulSetStatus;

    open spec fn deep_view(&self) -> StatefulSetStatus {
        *self
    }
}

/// An observed StatefulSet: its metadata name, specification and
/// status, as the pool reconciler reads them.
pub struct StatefulSet {
    pub name: String,
    pub spec: Option<StatefulSetSpec>,
    pub status: Option<StatefulSetStatus>,
}

#[verifier::ext_equal]
pub struct StatefulSetView {
    pub name: Seq<char>,
    pub spec: Option<StatefulSetSpecView>,
    pub status: Option<StatefulSetStatus>,
}

impl View for StatefulSet {
    type V = StatefulSetView;

    open spec fn view(&self) -> StatefulSetView {
        StatefulSetView {
            name: self.name.deep_view(),
            spec: self.spec.deep_view(),
            status: self.status,
        }
    }
}

impl DeepView for StatefulSet {
    type V = StatefulSetView;

    open spec fn deep_view(&self) -> StatefulSetView {
        self.view()
    }
}

pub proof fn lemma_cloned_vec_pvc(a: Vec<PersistentVolumeClaim>, b: Vec<PersistentVolumeClaim>)
    requires
        cloned::<Vec<PersistentVolumeClaim>>(a, b),
    ensures
        b.deep_view() == a.deep_view(),
{
    if a == b {
        assert(b.deep_view() =~= a.deep_view());
    } else {
        assert forall|i: int| 0 <= i < a@.len() implies b.deep_view()[i] == a.deep_view()[i] by {
            assert(cloned::<PersistentVolumeClaim>(a@[i], b@[i]));
        }
        assert(b.deep_view() =~= a.deep_view());
    }
}

pub proof fn lemma_cloned_opt_vec_pvc(
    a: Option<Vec<PersistentVolumeClaim>>,
    b: Option<Vec<PersistentVolumeClaim>>,
)
    requires
        a is None ==> b is None,
        a is Some ==> b is Some && cloned::<Vec<PersistentVolumeClaim>>(a.unwrap(), b.unwrap()),
    ensures
        b.deep_view() == a.deep_view(),
{
    if a is Some {
        lemma_cloned_vec_pvc(a.unwrap(), b.unwrap());
    }
}

pub fn eq_vec_pvc(a: &Vec<PersistentVolumeClaim>, b: &Vec<PersistentVolumeClaim>) -> (r: bool)
    ensures
        r == (a.deep_view() == b.deep_view()),
{
    if a.len() != b.len() {
        proof {
            assert(a.deep_view().len() == a@.len());
            assert(b.deep_view().len() == b@.len());
        }
        return false;
    }
    let mut i: usize = 0;
    while i < a.len()
        invariant
            i <= a.len(),
            a.len() == b.len(),
            forall|j: int| 0 <= j < i ==> a.deep_view()[j] == b.deep_view()[j],
        decreases a.len() - i,
    {
        if !eq_persistent_volume_claim(&a[i], &b[i]) {
            proof {
                assert(a.deep_view()[i as int] == a@[i as int]@);
                assert(b.deep_view()[i as int] == b@[i as int]@);
            }
            return false;
        }
        i += 1;
    }
    proof {
        assert(a.deep_view() =~= b.deep_view());
    }
    true
}

pub fn eq_opt_vec_pvc(
    a: &Option<Vec<PersistentVolumeClaim>>,
    b: &Option<Vec<PersistentVolumeClaim>>,
) -> (r: bool)
    ensures
        r == (a.deep_view() == b.deep_view()),
{
    match (a, b) {
        (Some(x), Some(y)) => eq_vec_pvc(x, y),
        (None, None) => true,
        _ => false,
    }
}

} // verus!
