//! Object metadata and label-selector models.
//!
//! These mirror the parts of Kubernetes object metadata that the
//! controller's logic reads: the fields hashed into a revision
//! identifier and the label selector of a StatefulSet specification.
//! Maps keyed by strings (labels, annotations) are carried as sequences
//! of key/value pairs ordered by key, which is the order the platform's
//! serialized form presents them in.

use vstd::prelude::*;

verus! {

/// One key/value pair of a string-keyed map (labels, annotations,
/// resource quantities in their canonical string form).
pub struct KeyValue {
    pub key: String,
    pub value: String,
}

#[verifier::ext_equal]
pub struct KeyValueView {
    pub key: Seq<char>,
    pub value: Seq<char>,
}

impl View for KeyValue {
    type V = KeyValueView;

    open spec fn view(&self) -> KeyValueView {
        KeyValueView { key: self.key.deep_view(), value: self.value.deep_view() }
    }
}

impl DeepView for KeyValue {
    type V = KeyValueView;

    open spec fn deep_view(&self) -> KeyValueView {
        self.view()
    }
}

impl Clone for KeyValue {
    fn clone(&self) -> (r: Self)
        ensures
            r@ == self@,
    {
        let r = KeyValue { key: self.key.clone(), value: self.value.clone() };
        proof {
            assert(r@ =~= self@);
        }
        r
    }
}

/// One requirement of a label selector: the triple
/// `(key, operator, values)`.
pub struct LabelSelectorRequirement {
    pub key: String,
    pub operator: String,
    pub values: Option<Vec<String>>,
}

#[verifier::ext_equal]
pub struct LabelSelectorRequirementView {
    pub key: Seq<char>,
    pub operator: Seq<char>,
    pub values: Option<Seq<Seq<char>>>,
}

impl View for LabelSelectorRequirement {
    type V = LabelSelectorRequirementView;

    open spec fn view(&self) -> LabelSelectorRequirementView {
        LabelSelectorRequirementView {
            key: self.key.deep_view(),
            operator: self.operator.deep_view(),
            values: self.values.deep_view(),
        }
    }
}

impl DeepView for LabelSelectorRequirement {
    type V = LabelSelectorRequirementView;

    open spec fn deep_view(&self) -> LabelSelectorRequirementView {
        self.view()
    }
}

impl Clone for LabelSelectorRequirement {
    fn clone(&self) -> (r: Self)
        ensures
            r@ == self@,
    {
        let values = self.values.clone();
        proof {
            lemma_cloned_opt_vec_string(self.values, values);
        }
        let r = LabelSelectorRequirement {
            key: self.key.clone(),
            operator: self.operator.clone(),
            values,
        };
        proof {
            assert(r@ =~= self@);
        }
        r
    }
}

/// A label selector: requirements and match labels, the latter ordered
/// by key.
pub struct LabelSelector {
    pub match_expressions: Option<Vec<LabelSelectorRequirement>>,
    pub match_labels: Option<Vec<KeyValue>>,
}

#[verifier::ext_equal]
pub struct LabelSelectorView {
    pub match_expressions: Option<Seq<LabelSelectorRequirementView>>,
    pub match_labels: Option<Seq<KeyValueView>>,
}

impl View for LabelSelector {
    type V = LabelSelectorView;

    open spec fn view(&self) -> LabelSelectorView {
        LabelSelectorView {
            match_expressions: self.match_expressions.deep_view(),
            match_labels: self.match_labels.deep_view(),
        }
    }
}

impl DeepView for LabelSelector {
    type V = LabelSelectorView;

    open spec fn deep_view(&self) -> LabelSelectorView {
        self.view()
    }
}

impl Clone for LabelSelector {
    fn clone(&self) -> (r: Self)
        ensures
            r@ == self@,
    {
        let match_expressions = self.match_expressions.clone();
        let match_labels = self.match_labels.clone();
        proof {
            lemma_cloned_opt_vec_lsr(self.match_expressions, match_expressions);
            lemma_cloned_opt_vec_key_value(self.match_labels, match_labels);
        }
        let r = LabelSelector { match_expressions, match_labels };
        proof {
            assert(r@ =~= self@);
        }
        r
    }
}

/// The metadata fields that the revision hash covers.
pub struct ObjectMeta {
    pub annotations: Option<Vec<KeyValue>>,
    pub cluster_name: Option<String>,
    pub deletion_grace_period_seconds: Option<i64>,
    pub finalizers: Option<Vec<String>>,
    pub generate_name: Option<String>,
    pub labels: Option<Vec<KeyValue>>,
    pub name: Option<String>,
    pub namespace: Option<String>,
}

#[verifier::ext_equal]
pub struct ObjectMetaView {
    pub annotations: Option<Seq<KeyValueView>>,
    pub cluster_name: Option<Seq<char>>,
    pub deletion_grace_period_seconds: Option<i64>,
    pub finalizers: Option<Seq<Seq<char>>>,
    pub generate_name: Option<Seq<char>>,
    pub labels: Option<Seq<KeyValueView>>,
    pub name: Option<Seq<char>>,
    pub namespace: Option<Seq<char>>,
}

impl View for ObjectMeta {
    type V = ObjectMetaView;

    open spec fn view(&self) -> ObjectMetaView {
        ObjectMetaView {
            annotations: self.annotations.deep_view(),
            cluster_name: self.cluster_name.deep_view(),
            deletion_grace_period_seconds: self.deletion_grace_period_seconds,
            finalizers: self.finalizers.deep_view(),
            generate_name: self.generate_name.deep_view(),
            labels: self.labels.deep_view(),
            name: self.name.deep_view(),
            namespace: self.namespace.deep_view(),
        }
    }
}

impl DeepView for ObjectMeta {
    type V = ObjectMetaView;

    open spec fn deep_view(&self) -> ObjectMetaView {
        self.view()
    }
}

impl Clone for ObjectMeta {
    fn clone(&self) -> (r: Self)
        ensures
            r@ == self@,
    {
        let annotations = self.annotations.clone();
        let finalizers = self.finalizers.clone();
        let labels = self.labels.clone();
        proof {
            lemma_cloned_opt_vec_key_value(self.annotations, annotations);
            lemma_cloned_opt_vec_string(self.finalizers, finalizers);
            lemma_cloned_opt_vec_key_value(self.labels, labels);
        }
        let r = ObjectMeta {
            annotations,
            cluster_name: self.cluster_name.clone(),
            deletion_grace_period_seconds: self.deletion_grace_period_seconds,
            finalizers,
            generate_name: self.generate_name.clone(),
            labels,
            name: self.name.clone(),
            namespace: self.namespace.clone(),
        };
        proof {
            lemma_cloned_opt_string(self.cluster_name, r.cluster_name);
            lemma_cloned_opt_string(self.generate_name, r.generate_name);
            lemma_cloned_opt_string(self.name, r.name);
            lemma_cloned_opt_string(self.namespace, r.namespace);
            assert(r@ =~= self@);
        }
        r
    }
}

// --- lemmas connecting std clones to views ------------------------------

pub proof fn lemma_cloned_opt_string(a: Option<String>, b: Option<String>)
    requires
        a is None ==> b is None,
        a is Some ==> b is Some && cloned::<String>(a.unwrap(), b.unwrap()),
    ensures
        b.deep_view() == a.deep_view(),
{
}

pub proof fn lemma_cloned_vec_string(a: Vec<String>, b: Vec<String>)
    requires
        cloned::<Vec<String>>(a, b),
    ensures
        b.deep_view() == a.deep_view(),
{
    if a == b {
        assert(b.deep_view() =~= a.deep_view());
    } else {
        assert forall|i: int| 0 <= i < a@.len() implies b.deep_view()[i] == a.deep_view()[i] by {
            assert(cloned::<String>(a@[i], b@[i]));
        }
        assert(b.deep_view() =~= a.deep_view());
    }
}

pub proof fn lemma_cloned_opt_vec_string(a: Option<Vec<String>>, b: Option<Vec<String>>)
    requires
        a is None ==> b is None,
        a is Some ==> b is Some && cloned::<Vec<String>>(a.unwrap(), b.unwrap()),
    ensures
        b.deep_view() == a.deep_view(),
{
    if a is Some {
        lemma_cloned_vec_string(a.unwrap(), b.unwrap());
    }
}

pub proof fn lemma_cloned_vec_key_value(a: Vec<KeyValue>, b: Vec<KeyValue>)
    requires
        cloned::<Vec<KeyValue>>(a, b),
    ensures
        b.deep_view() == a.deep_view(),
{
    if a == b {
        assert(b.deep_view() =~= a.deep_view());
    } else {
        assert forall|i: int| 0 <= i < a@.len() implies b.deep_view()[i] == a.deep_view()[i] by {
            assert(cloned::<KeyValue>(a@[i], b@[i]));
        }
        assert(b.deep_view() =~= a.deep_view());
    }
}

pub proof fn lemma_cloned_opt_vec_key_value(a: Option<Vec<KeyValue>>, b: Option<Vec<KeyValue>>)
    requires
        a is None ==> b is None,
        a is Some ==> b is Some && cloned::<Vec<KeyValue>>(a.unwrap(), b.unwrap()),
    ensures
        b.deep_view() == a.deep_view(),
{
    if a is Some {
        lemma_cloned_vec_key_value(a.unwrap(), b.unwrap());
    }
}

pub proof fn lemma_cloned_vec_lsr(a: Vec<LabelSelectorRequirement>, b: Vec<LabelSelectorRequirement>)
    requires
        cloned::<Vec<LabelSelectorRequirement>>(a, b),
    ensures
        b.deep_view() == a.deep_view(),
{
    if a == b {
        assert(b.deep_view() =~= a.deep_view());
    } else {
        assert forall|i: int| 0 <= i < a@.len() implies b.deep_view()[i] == a.deep_view()[i] by {
            assert(cloned::<LabelSelectorRequirement>(a@[i], b@[i]));
        }
        assert(b.deep_view() =~= a.deep_view());
    }
}

pub proof fn lemma_cloned_opt_vec_lsr(
    a: Option<Vec<LabelSelectorRequirement>>,
    b: Option<Vec<LabelSelectorRequirement>>,
)
    requires
        a is None ==> b is None,
        a is Some ==> b is Some && cloned::<Vec<LabelSelectorRequirement>>(a.unwrap(), b.unwrap()),
    ensures
        b.deep_view() == a.deep_view(),
{
    if a is Some {
        lemma_cloned_vec_lsr(a.unwrap(), b.unwrap());
    }
}

/// Copies an optional string.
pub fn clone_opt_string(a: &Option<String>) -> (r: Option<String>)
    ensures
        r.deep_view() == a.deep_view(),
{
    match a {
        Some(s) => Some(s.clone()),
        None => None,
    }
}

// --- equality helpers ---------------------------------------------------

pub fn eq_opt_string(a: &Option<String>, b: &Option<String>) -> (r: bool)
    ensures
        r == (a.deep_view() == b.deep_view()),
{
    match (a, b) {
        (Some(x), Some(y)) => *x == *y,
        (None, None) => true,
        _ => false,
    }
}

pub fn eq_opt_i32(a: &Option<i32>, b: &Option<i32>) -> (r: bool)
    ensures
        r == (a.deep_view() == b.deep_view()),
{
    match (a, b) {
        (Some(x), Some(y)) => *x == *y,
        (None, None) => true,
        _ => false,
    }
}

pub fn eq_opt_i64(a: &Option<i64>, b: &Option<i64>) -> (r: bool)
    ensures
        r == (a.deep_view() == b.deep_view()),
{
    match (a, b) {
        (Some(x), Some(y)) => *x == *y,
        (None, None) => true,
        _ => false,
    }
}

pub fn eq_vec_string(a: &Vec<String>, b: &Vec<String>) -> (r: bool)
    ensures
        r == (a.deep_view() == b.deep_view()),
{
    if a.len() != b.len() {
        proof {
            assert(a.deep_view().len() == a@.len());
            assert(b.deep_view().len() == b@.len());
        }
        return false;
    }
    let mut i: usize = 0;
    while i < a.len()
        invariant
            i <= a.len(),
            a.len() == b.len(),
            forall|j: int| 0 <= j < i ==> a.deep_view()[j] == b.deep_view()[j],
        decreases a.len() - i,
    {
        if !(a[i] == b[i]) {
            proof {
                assert(a.deep_view()[i as int] == a@[i as int]@);
                assert(b.deep_view()[i as int] == b@[i as int]@);
            }
            return false;
        }
        i += 1;
    }
    proof {
        assert(a.deep_view() =~= b.deep_view());
    }
    true
}

pub fn eq_opt_vec_string(a: &Option<Vec<String>>, b: &Option<Vec<String>>) -> (r: bool)
    ensures
        r == (a.deep_view() == b.deep_view()),
{
    match (a, b) {
        (Some(x), Some(y)) => eq_vec_string(x, y),
        (None, None) => true,
        _ => false,
    }
}

pub fn eq_key_value(a: &KeyValue, b: &KeyValue) -> (r: bool)
    ensures
        r == (a@ == b@),
{
    let r = a.key == b.key && a.value == b.value;
    proof {
        if r {
            assert(a@ =~= b@);
        }
    }
    r
}

pub fn eq_vec_key_value(a: &Vec<KeyValue>, b: &Vec<KeyValue>) -> (r: bool)
    ensures
        r == (a.deep_view() == b.deep_view()),
{
    if a.len() != b.len() {
        proof {
            assert(a.deep_view().len() == a@.len());
            assert(b.deep_view().len() == b@.len());
        }
        return false;
    }
    let mut i: usize = 0;
    while i < a.len()
        invariant
            i <= a.len(),
            a.len() == b.len(),
            forall|j: int| 0 <= j < i ==> a.deep_view()[j] == b.deep_view()[j],
        decreases a.len() - i,
    {
        if !eq_key_value(&a[i], &b[i]) {
            proof {
                assert(a.deep_view()[i as int] == a@[i as int]@);
                assert(b.deep_view()[i as int] == b@[i as int]@);
            }
            return false;
        }
        i += 1;
    }
    proof {
        assert(a.deep_view() =~= b.deep_view());
    }
    true
}

pub fn eq_opt_vec_key_value(a: &Option<Vec<KeyValue>>, b: &Option<Vec<KeyValue>>) -> (r: bool)
    ensures
        r == (a.deep_view() == b.deep_view()),
{
    match (a, b) {
        (Some(x), Some(y)) => eq_vec_key_value(x, y),
        (None, None) => true,
        _ => false,
    }
}

pub fn eq_lsr(a: &LabelSelectorRequirement, b: &LabelSelectorRequirement) -> (r: bool)
    ensures
        r == (a@ == b@),
{
    let r = a.key == b.key && a.operator == b.operator && eq_opt_vec_string(&a.values, &b.values);
    proof {
        if r {
            assert(a@ =~= b@);
        }
    }
    r
}

pub fn eq_vec_lsr(
    a: &Vec<LabelSelectorRequirement>,
    b: &Vec<LabelSelectorRequirement>,
) -> (r: bool)
    ensures
        r == (a.deep_view() == b.deep_view()),
{
    if a.len() != b.len() {
        proof {
            assert(a.deep_view().len() == a@.len());
            assert(b.deep_view().len() == b@.len());
        }
        return false;
    }
    let mut i: usize = 0;
    while i < a.len()
        invariant
            i <= a.len(),
            a.len() == b.len(),
            forall|j: int| 0 <= j < i ==> a.deep_view()[j] == b.deep_view()[j],
        decreases a.len() - i,
    {
        if !eq_lsr(&a[i], &b[i]) {
            proof {
                assert(a.deep_view()[i as int] == a@[i as int]@);
                assert(b.deep_view()[i as int] == b@[i as int]@);
            }
            return false;
        }
        i += 1;
    }
    proof {
        assert(a.deep_view() =~= b.deep_view());
    }
    true
}

pub fn eq_opt_vec_lsr(
    a: &Option<Vec<LabelSelectorRequirement>>,
    b: &Option<Vec<LabelSelectorRequirement>>,
) -> (r: bool)
    ensures
        r == (a.deep_view() == b.deep_view()),
{
    match (a, b) {
        (Some(x), Some(y)) => eq_vec_lsr(x, y),
        (None, None) => true,
        _ => false,
    }
}

pub fn eq_label_selector(a: &LabelSelector, b: &LabelSelector) -> (r: bool)
    ensures
        r == (a@ == b@),
{
    let r = eq_opt_vec_lsr(&a.match_expressions, &b.match_expressions)
        && eq_opt_vec_key_value(&a.match_labels, &b.match_labels);
    proof {
        if r {
            assert(a@ =~= b@);
        }
    }
    r
}

pub fn eq_opt_label_selector(a: &Option<LabelSelector>, b: &Option<LabelSelector>) -> (r: bool)
    ensures
        r == (a.deep_view() == b.deep_view()),
{
    match (a, b) {
        (Some(x), Some(y)) => eq_label_selector(x, y),
        (None, None) => true,
        _ => false,
    }
}

pub fn eq_object_meta(a: &ObjectMeta, b: &ObjectMeta) -> (r: bool)
    ensures
        r == (a@ == b@),
{
    let r = eq_opt_vec_key_value(&a.annotations, &b.annotations)
        && eq_opt_string(&a.cluster_name, &b.cluster_name)
        && eq_opt_i64(&a.deletion_grace_period_seconds, &b.deletion_grace_period_seconds)
        && eq_opt_vec_string(&a.finalizers, &b.finalizers)
        && eq_opt_string(&a.generate_name, &b.generate_name)
        && eq_opt_vec_key_value(&a.labels, &b.labels)
        && eq_opt_string(&a.name, &b.name)
        && eq_opt_string(&a.namespace, &b.namespace);
    proof {
        if r {
            assert(a@ =~= b@);
        }
    }
    r
}

} // verus!
