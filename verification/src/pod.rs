//! Pod template models.
//!
//! The pool reconciler rewrites the pod template of a StatefulSet
//! specification: it injects an init container that gates pod start-up
//! on a lease file, and a volume backed by the pool's lease ConfigMap.
//! These types carry the parts of a pod specification that the rewrite
//! touches or that template comparisons read.

use crate::meta::eq_opt_string;
use crate::meta::eq_opt_vec_string;
use crate::meta::lemma_cloned_opt_vec_string;
use vstd::prelude::*;

verus! {

/// A mount of a named volume into a container.
pub struct VolumeMount {
    pub mount_path: String,
    pub name: String,
}

#[verifier::ext_equal]
pub struct VolumeMountView {
    pub mount_path: Seq<char>,
    pub name: Seq<char>,
}

impl View for VolumeMount {
    type V = VolumeMountView;

    open spec fn view(&self) -> VolumeMountView {
        VolumeMountView { mount_path: self.mount_path.deep_view(), name: self.name.deep_view() }
    }
}

impl DeepView for VolumeMount {
    type V = VolumeMountView;

    open spec fn deep_view(&self) -> VolumeMountView {
        self.view()
    }
}

impl Clone for VolumeMount {
    fn clone(&self) -> (r: Self)
        ensures
            r@ == self@,
    {
        let r = VolumeMount { mount_path: self.mount_path.clone(), name: self.name.clone() };
        proof {
            assert(r@ =~= self@);
        }
        r
    }
}

pub fn eq_volume_mount(a: &VolumeMount, b: &VolumeMount) -> (r: bool)
    ensures
        r == (a@ == b@),
{
    let r = a.mount_path == b.mount_path && a.name == b.name;
    proof {
        if r {
            assert(a@ =~= b@);
        }
    }
    r
}

/// A reference from a volume to the ConfigMap that backs it.
pub struct ConfigMapVolumeSource {
    pub name: Option<String>,
}

#[verifier::ext_equal]
pub struct ConfigMapVolumeSourceView {
    pub name: Option<Seq<char>>,
}

impl View for ConfigMapVolumeSource {
    type V = ConfigMapVolumeSourceView;

    open spec fn view(&self) -> ConfigMapVolumeSourceView {
        ConfigMapVolumeSourceView { name: self.name.deep_view() }
    }
}

impl DeepView for ConfigMapVolumeSource {
    type V = ConfigMapVolumeSourceView;

    open spec fn deep_view(&self) -> ConfigMapVolumeSourceView {
        self.view()
    }
}

impl Clone for ConfigMapVolumeSource {
    fn clone(&self) -> (r: Self)
        ensures
            r@ == self@,
    {
        let r = ConfigMapVolumeSource { name: self.name.clone() };
        proof {
            assert(r@ =~= self@);
        }
        r
    }
}

pub fn eq_config_map_volume_source(a: &ConfigMapVolumeSource, b: &ConfigMapVolumeSource) -> (r: bool)
    ensures
        r == (a@ == b@),
{
    let r = eq_opt_string(&a.name, &b.name);
    proof {
        if r {
            assert(a@ =~= b@);
        }
    }
    r
}

pub fn eq_opt_config_map_volume_source(
    a: &Option<ConfigMapVolumeSource>,
    b: &Option<ConfigMapVolumeSource>,
) -> (r: bool)
    ensures
        r == (a.deep_view() == b.deep_view()),
{
    match (a, b) {
        (Some(x), Some(y)) => eq_config_map_volume_source(x, y),
        (None, None) => true,
        _ => false,
    }
}

/// A volume of a pod specification. Only ConfigMap-backed volumes are
/// distinguished; the controller never builds any other kind.
pub struct Volume {
    pub name: String,
    pub config_map: Option<ConfigMapVolumeSource>,
}

#[verifier::ext_equal]
pub struct VolumeView {
    pub name: Seq<char>,
    pub config_map: Option<ConfigMapVolumeSourceView>,
}

impl View for Volume {
    type V = VolumeView;

    open spec fn view(&self) -> VolumeView {
        VolumeView { name: self.name.deep_view(), config_map: self.config_map.deep_view() }
    }
}

impl DeepView for Volume {
    type V = VolumeView;

    open spec fn deep_view(&self) -> VolumeView {
        self.view()
    }
}

impl Clone for Volume {
    fn clone(&self) -> (r: Self)
        ensures
            r@ == self@,
    {
        let config_map = self.config_map.clone();
        proof {
            if self.config_map is Some {
                assert(cloned::<ConfigMapVolumeSource>(self.config_map.unwrap(), config_map.unwrap()));
            }
        }
        let r = Volume { name: self.name.clone(), config_map };
        proof {
            assert(r@ =~= self@);
        }
        r
    }
}

pub fn eq_volume(a: &Volume, b: &Volume) -> (r: bool)
    ensures
        r == (a@ == b@),
{
    let r = a.name == b.name && eq_opt_config_map_volume_source(&a.config_map, &b.config_map);
    proof {
        if r {
            assert(a@ =~= b@);
        }
    }
    r
}

/// A container of a pod specification: the fields the lease-gating init
/// container sets, which are also the fields template comparisons read.
pub struct Container {
    pub name: String,
    pub image: Option<String>,
    pub command: Option<Vec<String>>,
    pub args: Option<Vec<String>>,
    pub working_dir: Option<String>,
    pub volume_mounts: Option<Vec<VolumeMount>>,
}

#[verifier::ext_equal]
pub struct ContainerView {
    pub name: Seq<char>,
    pub image: Option<Seq<char>>,
    pub command: Option<Seq<Seq<char>>>,
    pub args: Option<Seq<Seq<char>>>,
    pub working_dir: Option<Seq<char>>,
    pub volume_mounts: Option<Seq<VolumeMountView>>,
}

impl View for Container {
    type V = ContainerView;

    open spec fn view(&self) -> ContainerView {
        ContainerView {
            name: self.name.deep_view(),
            image: self.image.deep_view(),
            command: self.command.deep_view(),
            args: self.args.deep_view(),
            working_dir: self.working_dir.deep_view(),
            volume_mounts: self.volume_mounts.deep_view(),
        }
    }
}

impl DeepView for Container {
    type V = ContainerView;

    open spec fn deep_view(&self) -> ContainerView {
        self.view()
    }
}

impl Clone for Container {
    fn clone(&self) -> (r: Self)
        ensures
            r@ == self@,
    {
        let command = self.command.clone();
        let args = self.args.clone();
        let volume_mounts = self.volume_mounts.clone();
        proof {
            lemma_cloned_opt_vec_string(self.command, command);
            lemma_cloned_opt_vec_string(self.args, args);
            lemma_cloned_opt_vec_volume_mount(self.volume_mounts, volume_mounts);
        }
        let r = Container {
            name: self.name.clone(),
            image: self.image.clone(),
            command,
            args,
            working_dir: self.working_dir.clone(),
            volume_mounts,
        };
        proof {
            crate::meta::lemma_cloned_opt_string(self.image, r.image);
            crate::meta::lemma_cloned_opt_string(self.working_dir, r.working_dir);
            assert(r@ =~= self@);
        }
        r
    }
}

pub fn eq_container(a: &Container, b: &Container) -> (r: bool)
    ensures
        r == (a@ == b@),
{
    let r = a.name == b.name && eq_opt_string(&a.image, &b.image)
        && eq_opt_vec_string(&a.command, &b.command)
        && eq_opt_vec_string(&a.args, &b.args)
        && eq_opt_string(&a.working_dir, &b.working_dir)
        && eq_opt_vec_volume_mount(&a.volume_mounts, &b.volume_mounts);
    proof {
        if r {
            assert(a@ =~= b@);
        }
    }
    r
}

/// The parts of a pod specification that the lease rewrite touches.
pub struct PodSpec {
    pub containers: Vec<Container>,
    pub init_containers: Option<Vec<Container>>,
    pub volumes: Option<Vec<Volume>>,
}

#[verifier::ext_equal]
pub struct PodSpecView {
    pub containers: Seq<ContainerView>,
    pub init_containers: Option<Seq<ContainerView>>,
    pub volumes: Option<Seq<VolumeView>>,
}

impl View for PodSpec {
    type V = PodSpecView;

    open spec fn view(&self) -> PodSpecView {
        PodSpecView {
            containers: self.containers.deep_view(),
            init_containers: self.init_containers.deep_view(),
            volumes: self.volumes.deep_view(),
        }
    }
}

impl DeepView for PodSpec {
    type V = PodSpecView;

    open spec fn deep_view(&self) -> PodSpecView {
        self.view()
    }
}

impl Clone for PodSpec {
    fn clone(&self) -> (r: Self)
        ensures
            r@ == self@,
    {
        let containers = self.containers.clone();
        let init_containers = self.init_containers.clone();
        let volumes = self.volumes.clone();
        proof {
            lemma_cloned_vec_container(self.containers, containers);
            lemma_cloned_opt_vec_container(self.init_containers, init_containers);
            lemma_cloned_opt_vec_volume(self.volumes, volumes);
        }
        let r = PodSpec { containers, init_containers, volumes };
        proof {
            assert(r@ =~= self@);
        }
        r
    }
}

pub fn eq_pod_spec(a: &PodSpec, b: &PodSpec) -> (r: bool)
    ensures
        r == (a@ == b@),
{
    let r = eq_vec_container(&a.containers, &b.containers)
        && eq_opt_vec_container(&a.init_containers, &b.init_containers)
        && eq_opt_vec_volume(&a.volumes, &b.volumes);
    proof {
        if r {
            assert(a@ =~= b@);
        }
    }
    r
}

pub fn eq_opt_pod_spec(a: &Option<PodSpec>, b: &Option<PodSpec>) -> (r: bool)
    ensures
        r == (a.deep_view() == b.deep_view()),
{
    match (a, b) {
        (Some(x), Some(y)) => eq_pod_spec(x, y),
        (None, None) => true,
        _ => false,
    }
}

/// A pod template: the pod specification a StatefulSet stamps out.
pub struct PodTemplateSpec {
    pub spec: Option<PodSpec>,
}

#[verifier::ext_equal]
pub struct PodTemplateSpecView {
    pub spec: Option<PodSpecView>,
}

impl View for PodTemplateSpec {
    type V = PodTemplateSpecView;

    open spec fn view(&self) -> PodTemplateSpecView {
        PodTemplateSpecView { spec: self.spec.deep_view() }
    }
}

impl DeepView for PodTemplateSpec {
    type V = PodTemplateSpecView;

    open spec fn deep_view(&self) -> PodTemplateSpecView {
        self.view()
    }
}

impl Clone for PodTemplateSpec {
    fn clone(&self) -> (r: Self)
        ensures
            r@ == self@,
    {
        let spec = self.spec.clone();
        proof {
            if self.spec is Some {
                assert(cloned::<PodSpec>(self.spec.unwrap(), spec.unwrap()));
            }
        }
        let r = PodTemplateSpec { spec };
        proof {
            assert(r@ =~= self@);
        }
        r
    }
}

pub fn eq_pod_template_spec(a: &PodTemplateSpec, b: &PodTemplateSpec) -> (r: bool)
    ensures
        r == (a@ == b@),
{
    let r = eq_opt_pod_spec(&a.spec, &b.spec);
    proof {
        if r {
            assert(a@ =~= b@);
        }
    }
    r
}

pub proof fn lemma_cloned_vec_volume_mount(a: Vec<VolumeMount>, b: Vec<VolumeMount>)
    requires
        cloned::<Vec<VolumeMount>>(a, b),
    ensures
        b.deep_view() == a.deep_view(),
{
    if a == b {
        assert(b.deep_view() =~= a.deep_view());
    } else {
        assert forall|i: int| 0 <= i < a@.len() implies b.deep_view()[i] == a.deep_view()[i] by {
            assert(cloned::<VolumeMount>(a@[i], b@[i]));
        }
        assert(b.deep_view() =~= a.deep_view());
    }
}

pub proof fn lemma_cloned_opt_vec_volume_mount(a: Option<Vec<VolumeMount>>, b: Option<Vec<VolumeMount>>)
    requires
        a is None ==> b is None,
        a is Some ==> b is Some && cloned::<Vec<VolumeMount>>(a.unwrap(), b.unwrap()),
    ensures
        b.deep_view() == a.deep_view(),
{
    if a is Some {
        lemma_cloned_vec_volume_mount(a.unwrap(), b.unwrap());
    }
}

pub fn eq_vec_volume_mount(a: &Vec<VolumeMount>, b: &Vec<VolumeMount>) -> (r: bool)
    ensures
        r == (a.deep_view() == b.deep_view()),
{
    if a.len() != b.len() {
        proof {
            assert(a.deep_view().len() == a@.len());
            assert(b.deep_view().len() == b@.len());
        }
        return false;
    }
    let mut i: usize = 0;
    while i < a.len()
        invariant
            i <= a.len(),
            a.len() == b.len(),
            forall|j: int| 0 <= j < i ==> a.deep_view()[j] == b.deep_view()[j],
        decreases a.len() - i,
    {
        if !eq_volume_mount(&a[i], &b[i]) {
            proof {
                assert(a.deep_view()[i as int] == a@[i as int]@);
                assert(b.deep_view()[i as int] == b@[i as int]@);
            }
            return false;
        }
        i += 1;
    }
    proof {
        assert(a.deep_view() =~= b.deep_view());
    }
    true
}

pub fn eq_opt_vec_volume_mount(a: &Option<Vec<VolumeMount>>, b: &Option<Vec<VolumeMount>>) -> (r: bool)
    ensures
        r == (a.deep_view() == b.deep_view()),
{
    match (a, b) {
        (Some(x), Some(y)) => eq_vec_volume_mount(x, y),
        (None, None) => true,
        _ => false,
    }
}

pub proof fn lemma_cloned_vec_volume(a: Vec<Volume>, b: Vec<Volume>)
    requires
        cloned::<Vec<Volume>>(a, b),
    ensures
        b.deep_view() == a.deep_view(),
{
    if a == b {
        assert(b.deep_view() =~= a.deep_view());
    } else {
        assert forall|i: int| 0 <= i < a@.len() implies b.deep_view()[i] == a.deep_view()[i] by {
            assert(cloned::<Volume>(a@[i], b@[i]));
        }
        assert(b.deep_view() =~= a.deep_view());
    }
}

pub proof fn lemma_cloned_opt_vec_volume(a: Option<Vec<Volume>>, b: Option<Vec<Volume>>)
    requires
        a is None ==> b is None,
        a is Some ==> b is Some && cloned::<Vec<Volume>>(a.unwrap(), b.unwrap()),
    ensures
        b.deep_view() == a.deep_view(),
{
    if a is Some {
        lemma_cloned_vec_volume(a.unwrap(), b.unwrap());
    }
}

pub fn eq_vec_volume(a: &Vec<Volume>, b: &Vec<Volume>) -> (r: bool)
    ensures
        r == (a.deep_view() == b.deep_view()),
{
    if a.len() != b.len() {
        proof {
            assert(a.deep_view().len() == a@.len());
            assert(b.deep_view().len() == b@.len());
        }
        return false;
    }
    let mut i: usize = 0;
    while i < a.len()
        invariant
            i <= a.len(),
            a.len() == b.len(),
            forall|j: int| 0 <= j < i ==> a.deep_view()[j] == b.deep_view()[j],
        decreases a.len() - i,
    {
        if !eq_volume(&a[i], &b[i]) {
            proof {
                assert(a.deep_view()[i as int] == a@[i as int]@);
                assert(b.deep_view()[i as int] == b@[i as int]@);
            }
            return false;
        }
        i += 1;
    }
    proof {
        assert(a.deep_view() =~= b.deep_view());
    }
    true
}

pub fn eq_opt_vec_volume(a: &Option<Vec<Volume>>, b: &Option<Vec<Volume>>) -> (r: bool)
    ensures
        r == (a.deep_view() == b.deep_view()),
{
    match (a, b) {
        (Some(x), Some(y)) => eq_vec_volume(x, y),
        (None, None) => true,
        _ => false,
    }
}

pub proof fn lemma_cloned_vec_container(a: Vec<Container>, b: Vec<Container>)
    requires
        cloned::<Vec<Container>>(a, b),
    ensures
        b.deep_view() == a.deep_view(),
{
    if a == b {
        assert(b.deep_view() =~= a.deep_view());
    } else {
        assert forall|i: int| 0 <= i < a@.len() implies b.deep_view()[i] == a.deep_view()[i] by {
            assert(cloned::<Container>(a@[i], b@[i]));
        }
        assert(b.deep_view() =~= a.deep_view());
    }
}

pub proof fn lemma_cloned_opt_vec_container(a: Option<Vec<Container>>, b: Option<Vec<Container>>)
    requires
        a is None ==> b is None,
        a is Some ==> b is Some && cloned::<Vec<Container>>(a.unwrap(), b.unwrap()),
    ensures
        b.deep_view() == a.deep_view(),
{
    if a is Some {
        lemma_cloned_vec_container(a.unwrap(), b.unwrap());
    }
}

pub fn eq_vec_container(a: &Vec<Container>, b: &Vec<Container>) -> (r: bool)
    ensures
        r == (a.deep_view() == b.deep_view()),
{
    if a.len() != b.len() {
        proof {
            assert(a.deep_view().len() == a@.len());
            assert(b.deep_view().len() == b@.len());
        }
        return false;
    }
    let mut i: usize = 0;
    while i < a.len()
        invariant
            i <= a.len(),
            a.len() == b.len(),
            forall|j: int| 0 <= j < i ==> a.deep_view()[j] == b.deep_view()[j],
        decreases a.len() - i,
    {
        if !eq_container(&a[i], &b[i]) {
            proof {
                assert(a.deep_view()[i as int] == a@[i as int]@);
                assert(b.deep_view()[i as int] == b@[i as int]@);
            }
            return false;
        }
        i += 1;
    }
    proof {
        assert(a.deep_view() =~= b.deep_view());
    }
    true
}

pub fn eq_opt_vec_container(a: &Option<Vec<Container>>, b: &Option<Vec<Container>>) -> (r: bool)
    ensures
        r == (a.deep_view() == b.deep_view()),
{
    match (a, b) {
        (Some(x), Some(y)) => eq_vec_container(x, y),
        (None, None) => true,
        _ => false,
    }
}

} // verus!
