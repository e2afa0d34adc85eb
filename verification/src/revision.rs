//! The revision hash over the immutable subset of a StatefulSet
//! specification.
//!
//! The platform refuses in-place updates of certain StatefulSet fields
//! (volume claim templates, selector, service name, and a few more).
//! Pools are therefore keyed by a 16-bit digest of exactly those
//! fields: equal digests mean an in-place update is safe, unequal
//! digests mean the workload must migrate to a new pool. The digest is
//! computed by serializing the immutable projection into bytes in a
//! fixed order and folding the bytes through a 64-bit
//! Fowler-Noll-Vo hash, keeping the low 16 bits. Every step is a pure
//! function of the specification value, so the hash is stable across
//! processes and restarts.

use crate::meta::KeyValue;
use crate::meta::KeyValueView;
use crate::meta::LabelSelectorRequirement;
use crate::meta::LabelSelectorRequirementView;
use crate::sts::PersistentVolumeClaim;
use crate::sts::PersistentVolumeClaimView;
use crate::sts::StatefulSetSpec;
use crate::sts::StatefulSetSpecView;
use vstd::prelude::*;

verus! {

pub const FNV_OFFSET: u64 = 0xcbf2_9ce4_8422_2325;

pub const FNV_PRIME: u64 = 0x100_0000_01b3;

/// The 64-bit Fowler-Noll-Vo (variant 1a) digest of a byte sequence.
pub open spec fn fnv64(bytes: Seq<u8>) -> u64
    decreases bytes.len(),
{
    if bytes.len() == 0 {
        FNV_OFFSET
    } else {
        vstd::wrapping::u64_specs::wrapping_mul(
            fnv64(bytes.drop_last()) ^ (bytes.last() as u64),
            FNV_PRIME,
        )
    }
}

// --- the byte encoding of the immutable projection ----------------------

pub open spec fn enc_u64(x: u64) -> Seq<u8> {
    seq![
        (x & 0xff) as u8,
        ((x >> 8) & 0xff) as u8,
        ((x >> 16) & 0xff) as u8,
        ((x >> 24) & 0xff) as u8,
        ((x >> 32) & 0xff) as u8,
        ((x >> 40) & 0xff) as u8,
        ((x >> 48) & 0xff) as u8,
        ((x >> 56) & 0xff) as u8,
    ]
}

pub open spec fn enc_u32(x: u32) -> Seq<u8> {
    seq![
        (x & 0xff) as u8,
        ((x >> 8) & 0xff) as u8,
        ((x >> 16) & 0xff) as u8,
        ((x >> 24) & 0xff) as u8,
    ]
}

pub open spec fn enc_char_seq(s: Seq<char>) -> Seq<u8>
    decreases s.len(),
{
    if s.len() == 0 {
        Seq::empty()
    } else {
        enc_char_seq(s.drop_last()) + enc_u32(s.last() as u32)
    }
}

pub open spec fn enc_str(s: Seq<char>) -> Seq<u8> {
    enc_u64(s.len() as u64) + enc_char_seq(s)
}

pub open spec fn enc_opt_str(s: Option<Seq<char>>) -> Seq<u8> {
    match s {
        None => seq![0u8],
        Some(v) => seq![1u8] + enc_str(v),
    }
}

pub open spec fn enc_opt_i32(x: Option<i32>) -> Seq<u8> {
    match x {
        None => seq![0u8],
        Some(v) => seq![1u8] + enc_u32(v as u32),
    }
}

pub open spec fn enc_opt_i64(x: Option<i64>) -> Seq<u8> {
    match x {
        None => seq![0u8],
        Some(v) => seq![1u8] + enc_u64(v as u64),
    }
}

pub open spec fn enc_str_items(s: Seq<Seq<char>>) -> Seq<u8>
    decreases s.len(),
{
    if s.len() == 0 {
        Seq::empty()
    } else {
        enc_str_items(s.drop_last()) + enc_str(s.last())
    }
}

pub open spec fn enc_strs(s: Seq<Seq<char>>) -> Seq<u8> {
    enc_u64(s.len() as u64) + enc_str_items(s)
}

pub open spec fn enc_opt_strs(s: Option<Seq<Seq<char>>>) -> Seq<u8> {
    match s {
        None => seq![0u8],
        Some(v) => seq![1u8] + enc_strs(v),
    }
}

pub open spec fn enc_kv(kv: KeyValueView) -> Seq<u8> {
    enc_str(kv.key) + enc_str(kv.value)
}

pub open spec fn enc_kv_items(s: Seq<KeyValueView>) -> Seq<u8>
    decreases s.len(),
{
    if s.len() == 0 {
        Seq::empty()
    } else {
        enc_kv_items(s.drop_last()) + enc_kv(s.last())
    }
}

pub open spec fn enc_kvs(s: Seq<KeyValueView>) -> Seq<u8> {
    enc_u64(s.len() as u64) + enc_kv_items(s)
}

pub open spec fn enc_opt_kvs(s: Option<Seq<KeyValueView>>) -> Seq<u8> {
    match s {
        None => seq![0u8],
        Some(v) => seq![1u8] + enc_kvs(v),
    }
}

pub open spec fn enc_lsr(r: LabelSelectorRequirementView) -> Seq<u8> {
    enc_str(r.key) + enc_str(r.operator) + enc_opt_strs(r.values)
}

pub open spec fn enc_lsr_items(s: Seq<LabelSelectorRequirementView>) -> Seq<u8>
    decreases s.len(),
{
    if s.len() == 0 {
        Seq::empty()
    } else {
        enc_lsr_items(s.drop_last()) + enc_lsr(s.last())
    }
}

pub open spec fn enc_lsrs(s: Seq<LabelSelectorRequirementView>) -> Seq<u8> {
    enc_u64(s.len() as u64) + enc_lsr_items(s)
}

pub open spec fn enc_opt_rr(rr: Option<crate::sts::ResourceRequirementsView>) -> Seq<u8> {
    match rr {
        None => seq![0u8],
        Some(r) => seq![1u8] + enc_opt_kvs(r.limits) + enc_opt_kvs(r.requests),
    }
}

pub open spec fn enc_opt_selector(sel: Option<crate::meta::LabelSelectorView>) -> Seq<u8> {
    match sel {
        None => seq![0u8],
        Some(s) => seq![1u8] + enc_opt_lsrs(s.match_expressions) + enc_opt_kvs(s.match_labels),
    }
}

pub open spec fn enc_pvc_spec_front(s: crate::sts::PersistentVolumeClaimSpecView) -> Seq<u8> {
    enc_opt_strs(s.access_modes) + enc_opt_rr(s.resources) + enc_opt_selector(s.selector)
}

pub open spec fn enc_pvc_spec_back(s: crate::sts::PersistentVolumeClaimSpecView) -> Seq<u8> {
    enc_opt_str(s.storage_class_name) + enc_opt_str(s.volume_mode) + enc_opt_str(s.volume_name)
}

pub open spec fn enc_opt_pvc_spec(
    sp: Option<crate::sts::PersistentVolumeClaimSpecView>,
) -> Seq<u8> {
    match sp {
        None => seq![0u8],
        Some(s) => seq![1u8] + enc_pvc_spec_front(s) + enc_pvc_spec_back(s),
    }
}

pub open spec fn enc_meta_front(m: crate::meta::ObjectMetaView) -> Seq<u8> {
    enc_opt_kvs(m.annotations) + enc_opt_str(m.cluster_name) + enc_opt_i64(
        m.deletion_grace_period_seconds,
    ) + enc_opt_strs(m.finalizers)
}

pub open spec fn enc_meta_back(m: crate::meta::ObjectMetaView) -> Seq<u8> {
    enc_opt_str(m.generate_name) + enc_opt_kvs(m.labels) + enc_opt_str(m.name) + enc_opt_str(
        m.namespace,
    )
}

pub open spec fn enc_meta(m: crate::meta::ObjectMetaView) -> Seq<u8> {
    enc_meta_front(m) + enc_meta_back(m)
}

pub open spec fn enc_pvc(p: PersistentVolumeClaimView) -> Seq<u8> {
    enc_meta(p.metadata) + enc_opt_pvc_spec(p.spec)
}

pub open spec fn enc_opt_lsrs(s: Option<Seq<LabelSelectorRequirementView>>) -> Seq<u8> {
    match s {
        None => seq![0u8],
        Some(v) => seq![1u8] + enc_lsrs(v),
    }
}

pub open spec fn enc_pvc_items(s: Seq<PersistentVolumeClaimView>) -> Seq<u8>
    decreases s.len(),
{
    if s.len() == 0 {
        Seq::empty()
    } else {
        enc_pvc_items(s.drop_last()) + enc_pvc(s.last())
    }
}

pub open spec fn enc_pvcs(s: Seq<PersistentVolumeClaimView>) -> Seq<u8> {
    enc_u64(s.len() as u64) + enc_pvc_items(s)
}

// --- the immutable projection -------------------------------------------

/// The sequence held by an optional sequence, with absence read as the
/// empty sequence.
pub open spec fn opt_seq<T>(o: Option<Seq<T>>) -> Seq<T> {
    match o {
        Some(s) => s,
        None => Seq::empty(),
    }
}

/// The fields of a StatefulSet specification that the platform refuses
/// to update in place. This value is the digest's entire input:
/// `replicas`, the pod template, the update strategy and any status
/// never reach it.
#[verifier::ext_equal]
pub struct ImmutableStsView {
    pub pod_management_policy: Option<Seq<char>>,
    pub revision_history_limit: Option<i32>,
    pub match_expressions: Seq<LabelSelectorRequirementView>,
    pub match_labels: Seq<KeyValueView>,
    pub service_name: Seq<char>,
    pub volume_claim_templates: Seq<PersistentVolumeClaimView>,
}

/// The immutable projection of a StatefulSet specification.
pub open spec fn immutable_of(s: StatefulSetSpecView) -> ImmutableStsView {
    ImmutableStsView {
        pod_management_policy: s.pod_management_policy,
        revision_history_limit: s.revision_history_limit,
        match_expressions: opt_seq(s.selector.match_expressions),
        match_labels: opt_seq(s.selector.match_labels),
        service_name: s.service_name,
        volume_claim_templates: opt_seq(s.volume_claim_templates),
    }
}

/// The byte serialization of the immutable projection, in the fixed
/// field order of the projection.
pub open spec fn enc_immutable(v: ImmutableStsView) -> Seq<u8> {
    enc_opt_str(v.pod_management_policy) + enc_opt_i32(v.revision_history_limit) + enc_lsrs(
        v.match_expressions,
    ) + enc_kvs(v.match_labels) + enc_str(v.service_name) + enc_pvcs(v.volume_claim_templates)
}

/// The 64-bit digest of a StatefulSet specification's immutable
/// projection.
pub open spec fn revision_digest(s: StatefulSetSpecView) -> u64 {
    fnv64(enc_immutable(immutable_of(s)))
}

/// The 16-bit revision hash: the low 16 bits of the digest. Opaque:
/// callers reason about it through the laws below and through the
/// contract of `ImmutableSts::checksum`.
#[verifier::opaque]
pub open spec fn spec_checksum(s: StatefulSetSpecView) -> u16 {
    (revision_digest(s) & 0xffff) as u16
}

// --- laws ---------------------------------------------------------------

/// The revision hash reads nothing but the immutable projection: two
/// specifications with equal projections hash alike. In particular a
/// specification and any copy of it (equal in every field) hash alike.
pub proof fn lemma_checksum_of_immutable(s1: StatefulSetSpecView, s2: StatefulSetSpecView)
    requires
        immutable_of(s1) == immutable_of(s2),
    ensures
        spec_checksum(s1) == spec_checksum(s2),
{
    reveal(spec_checksum);
}

/// Changing only the mutable dimensions of a specification — the
/// replica count, the pod template, the update strategy — leaves the
/// revision hash unchanged.
pub proof fn lemma_checksum_ignores_mutable(
    s: StatefulSetSpecView,
    replicas: Option<i32>,
    template: crate::pod::PodTemplateSpecView,
    update_strategy: Option<crate::sts::StatefulSetUpdateStrategyView>,
)
    ensures
        spec_checksum(
            (StatefulSetSpecView { replicas, template, update_strategy, ..s }),
        ) == spec_checksum(s),
{
    reveal(spec_checksum);
    assert(immutable_of((StatefulSetSpecView { replicas, template, update_strategy, ..s }))
        =~= immutable_of(s));
}

/// The digest input tracks each immutable field: the projections of
/// two specifications agree exactly when every hashed field agrees
/// (with an absent list read as the empty list).
pub proof fn lemma_immutable_projection_faithful(s1: StatefulSetSpecView, s2: StatefulSetSpecView)
    ensures
        (immutable_of(s1) == immutable_of(s2)) <==> {
            &&& s1.pod_management_policy == s2.pod_management_policy
            &&& s1.revision_history_limit == s2.revision_history_limit
            &&& opt_seq(s1.selector.match_expressions) == opt_seq(s2.selector.match_expressions)
            &&& opt_seq(s1.selector.match_labels) == opt_seq(s2.selector.match_labels)
            &&& s1.service_name == s2.service_name
            &&& opt_seq(s1.volume_claim_templates) == opt_seq(s2.volume_claim_templates)
        },
{
    if immutable_of(s1) == immutable_of(s2) {
        assert(immutable_of(s1).pod_management_policy == immutable_of(s2).pod_management_policy);
    } else {
        if s1.pod_management_policy == s2.pod_management_policy && s1.revision_history_limit
            == s2.revision_history_limit && opt_seq(s1.selector.match_expressions) == opt_seq(
            s2.selector.match_expressions,
        ) && opt_seq(s1.selector.match_labels) == opt_seq(s2.selector.match_labels)
            && s1.service_name == s2.service_name && opt_seq(s1.volume_claim_templates) == opt_seq(
            s2.volume_claim_templates,
        ) {
            assert(immutable_of(s1) =~= immutable_of(s2));
        }
    }
}

// --- executable encoding --------------------------------------------------

fn push_u64(out: &mut Vec<u8>, x: u64)
    ensures
        final(out)@ == old(out)@ + enc_u64(x),
{
    out.push((x & 0xff) as u8);
    out.push(((x >> 8) & 0xff) as u8);
    out.push(((x >> 16) & 0xff) as u8);
    out.push(((x >> 24) & 0xff) as u8);
    out.push(((x >> 32) & 0xff) as u8);
    out.push(((x >> 40) & 0xff) as u8);
    out.push(((x >> 48) & 0xff) as u8);
    out.push(((x >> 56) & 0xff) as u8);
    proof {
        assert(out@ =~= old(out)@ + enc_u64(x));
    }
}

fn push_u32(out: &mut Vec<u8>, x: u32)
    ensures
        final(out)@ == old(out)@ + enc_u32(x),
{
    out.push((x & 0xff) as u8);
    out.push(((x >> 8) & 0xff) as u8);
    out.push(((x >> 16) & 0xff) as u8);
    out.push(((x >> 24) & 0xff) as u8);
    proof {
        assert(out@ =~= old(out)@ + enc_u32(x));
    }
}

fn push_str(out: &mut Vec<u8>, s: &String)
    ensures
        final(out)@ == old(out)@ + enc_str(s@),
{
    let n = s.as_str().unicode_len();
    push_u64(out, n as u64);
    let mut i: usize = 0;
    while i < n
        invariant
            i <= n,
            n == s@.len(),
            out@ == old(out)@ + enc_u64(n as u64) + enc_char_seq(s@.take(i as int)),
        decreases n - i,
    {
        let c = s.as_str().get_char(i);
        push_u32(out, c as u32);
        proof {
            assert(s@.take(i + 1 as int).drop_last() =~= s@.take(i as int));
            assert(s@.take(i + 1 as int).last() == s@[i as int]);
            assert(enc_char_seq(s@.take(i + 1 as int)) == enc_char_seq(s@.take(i as int))
                + enc_u32(c as u32));
            assert(out@ =~= old(out)@ + enc_u64(n as u64) + enc_char_seq(s@.take(i + 1 as int)));
        }
        i += 1;
    }
    proof {
        assert(s@.take(n as int) =~= s@);
        assert(out@ =~= old(out)@ + enc_str(s@));
    }
}

fn push_opt_str(out: &mut Vec<u8>, s: &Option<String>)
    ensures
        final(out)@ == old(out)@ + enc_opt_str(s.deep_view()),
{
    match s {
        None => {
            out.push(0u8);
            proof {
                assert(out@ =~= old(out)@ + enc_opt_str(None::<Seq<char>>));
            }
        },
        Some(v) => {
            out.push(1u8);
            push_str(out, v);
            proof {
                assert(out@ =~= old(out)@ + enc_opt_str(Some(v@)));
            }
        },
    }
}

fn push_opt_i32(out: &mut Vec<u8>, x: &Option<i32>)
    ensures
        final(out)@ == old(out)@ + enc_opt_i32(*x),
{
    match x {
        None => {
            out.push(0u8);
            proof {
                assert(out@ =~= old(out)@ + enc_opt_i32(None));
            }
        },
        Some(v) => {
            out.push(1u8);
            push_u32(out, *v as u32);
            proof {
                assert(out@ =~= old(out)@ + enc_opt_i32(Some(*v)));
            }
        },
    }
}

fn push_opt_i64(out: &mut Vec<u8>, x: &Option<i64>)
    ensures
        final(out)@ == old(out)@ + enc_opt_i64(*x),
{
    match x {
        None => {
            out.push(0u8);
            proof {
                assert(out@ =~= old(out)@ + enc_opt_i64(None));
            }
        },
        Some(v) => {
            out.push(1u8);
            push_u64(out, *v as u64);
            proof {
                assert(out@ =~= old(out)@ + enc_opt_i64(Some(*v)));
            }
        },
    }
}

fn push_strs(out: &mut Vec<u8>, s: &Vec<String>)
    ensures
        final(out)@ == old(out)@ + enc_strs(s.deep_view()),
{
    push_u64(out, s.len() as u64);
    let mut i: usize = 0;
    while i < s.len()
        invariant
            i <= s.len(),
            s.deep_view().len() == s@.len(),
            out@ == old(out)@ + enc_u64(s@.len() as u64) + enc_str_items(
                s.deep_view().take(i as int),
            ),
        decreases s.len() - i,
    {
        push_str(out, &s[i]);
        proof {
            let dv = s.deep_view();
            assert(dv.take(i + 1 as int).drop_last() =~= dv.take(i as int));
            assert(dv.take(i + 1 as int).last() == dv[i as int]);
            assert(dv[i as int] == s@[i as int]@);
            assert(enc_str_items(dv.take(i + 1 as int)) == enc_str_items(dv.take(i as int))
                + enc_str(dv[i as int]));
            assert(out@ =~= old(out)@ + enc_u64(s@.len() as u64) + enc_str_items(
                dv.take(i + 1 as int),
            ));
        }
        i += 1;
    }
    proof {
        assert(s.deep_view().take(s@.len() as int) =~= s.deep_view());
        assert(out@ =~= old(out)@ + enc_strs(s.deep_view()));
    }
}

fn push_opt_strs(out: &mut Vec<u8>, s: &Option<Vec<String>>)
    ensures
        final(out)@ == old(out)@ + enc_opt_strs(s.deep_view()),
{
    match s {
        None => {
            out.push(0u8);
            proof {
                assert(out@ =~= old(out)@ + enc_opt_strs(None::<Seq<Seq<char>>>));
            }
        },
        Some(v) => {
            out.push(1u8);
            push_strs(out, v);
            proof {
                assert(out@ =~= old(out)@ + enc_opt_strs(Some(v.deep_view())));
            }
        },
    }
}

fn push_kv(out: &mut Vec<u8>, kv: &KeyValue)
    ensures
        final(out)@ == old(out)@ + enc_kv(kv@),
{
    push_str(out, &kv.key);
    push_str(out, &kv.value);
    proof {
        assert(out@ =~= old(out)@ + enc_kv(kv@));
    }
}

fn push_kvs(out: &mut Vec<u8>, s: &Vec<KeyValue>)
    ensures
        final(out)@ == old(out)@ + enc_kvs(s.deep_view()),
{
    push_u64(out, s.len() as u64);
    let mut i: usize = 0;
    while i < s.len()
        invariant
            i <= s.len(),
            s.deep_view().len() == s@.len(),
            out@ == old(out)@ + enc_u64(s@.len() as u64) + enc_kv_items(
                s.deep_view().take(i as int),
            ),
        decreases s.len() - i,
    {
        push_kv(out, &s[i]);
        proof {
            let dv = s.deep_view();
            assert(dv.take(i + 1 as int).drop_last() =~= dv.take(i as int));
            assert(dv.take(i + 1 as int).last() == dv[i as int]);
            assert(dv[i as int] == s@[i as int]@);
            assert(enc_kv_items(dv.take(i + 1 as int)) == enc_kv_items(dv.take(i as int)) + enc_kv(
                dv[i as int],
            ));
            assert(out@ =~= old(out)@ + enc_u64(s@.len() as u64) + enc_kv_items(
                dv.take(i + 1 as int),
            ));
        }
        i += 1;
    }
    proof {
        assert(s.deep_view().take(s@.len() as int) =~= s.deep_view());
        assert(out@ =~= old(out)@ + enc_kvs(s.deep_view()));
    }
}

fn push_opt_kvs(out: &mut Vec<u8>, s: &Option<Vec<KeyValue>>)
    ensures
        final(out)@ == old(out)@ + enc_opt_kvs(s.deep_view()),
{
    match s {
        None => {
            out.push(0u8);
            proof {
                assert(out@ =~= old(out)@ + enc_opt_kvs(None::<Seq<KeyValueView>>));
            }
        },
        Some(v) => {
            out.push(1u8);
            push_kvs(out, v);
            proof {
                assert(out@ =~= old(out)@ + enc_opt_kvs(Some(v.deep_view())));
            }
        },
    }
}

fn push_lsr(out: &mut Vec<u8>, r: &LabelSelectorRequirement)
    ensures
        final(out)@ == old(out)@ + enc_lsr(r@),
{
    push_str(out, &r.key);
    push_str(out, &r.operator);
    push_opt_strs(out, &r.values);
    proof {
        assert(out@ =~= old(out)@ + enc_lsr(r@));
    }
}

fn push_lsrs(out: &mut Vec<u8>, s: &Vec<LabelSelectorRequirement>)
    ensures
        final(out)@ == old(out)@ + enc_lsrs(s.deep_view()),
{
    push_u64(out, s.len() as u64);
    let mut i: usize = 0;
    while i < s.len()
        invariant
            i <= s.len(),
            s.deep_view().len() == s@.len(),
            out@ == old(out)@ + enc_u64(s@.len() as u64) + enc_lsr_items(
                s.deep_view().take(i as int),
            ),
        decreases s.len() - i,
    {
        push_lsr(out, &s[i]);
        proof {
            let dv = s.deep_view();
            assert(dv.take(i + 1 as int).drop_last() =~= dv.take(i as int));
            assert(dv.take(i + 1 as int).last() == dv[i as int]);
            assert(dv[i as int] == s@[i as int]@);
            assert(enc_lsr_items(dv.take(i + 1 as int)) == enc_lsr_items(dv.take(i as int))
                + enc_lsr(dv[i as int]));
            assert(out@ =~= old(out)@ + enc_u64(s@.len() as u64) + enc_lsr_items(
                dv.take(i + 1 as int),
            ));
        }
        i += 1;
    }
    proof {
        assert(s.deep_view().take(s@.len() as int) =~= s.deep_view());
        assert(out@ =~= old(out)@ + enc_lsrs(s.deep_view()));
    }
}

fn push_meta_front(out: &mut Vec<u8>, m: &crate::meta::ObjectMeta)
    ensures
        final(out)@ == old(out)@ + enc_meta_front(m@),
{
    push_opt_kvs(out, &m.annotations);
    push_opt_str(out, &m.cluster_name);
    push_opt_i64(out, &m.deletion_grace_period_seconds);
    push_opt_strs(out, &m.finalizers);
    proof {
        assert(out@ =~= old(out)@ + enc_meta_front(m@));
    }
}

fn push_meta_back(out: &mut Vec<u8>, m: &crate::meta::ObjectMeta)
    ensures
        final(out)@ == old(out)@ + enc_meta_back(m@),
{
    push_opt_str(out, &m.generate_name);
    push_opt_kvs(out, &m.labels);
    push_opt_str(out, &m.name);
    push_opt_str(out, &m.namespace);
    proof {
        assert(out@ =~= old(out)@ + enc_meta_back(m@));
    }
}

fn push_meta(out: &mut Vec<u8>, m: &crate::meta::ObjectMeta)
    ensures
        final(out)@ == old(out)@ + enc_meta(m@),
{
    push_meta_front(out, m);
    push_meta_back(out, m);
    proof {
        assert(out@ =~= old(out)@ + enc_meta(m@));
    }
}

fn push_opt_selector(out: &mut Vec<u8>, sel: &Option<crate::meta::LabelSelector>)
    ensures
        final(out)@ == old(out)@ + enc_opt_selector(sel.deep_view()),
{
    match sel {
        None => {
            out.push(0u8);
            proof {
                assert(out@ =~= old(out)@ + enc_opt_selector(None::<crate::meta::LabelSelectorView>));
            }
        },
        Some(s) => {
            out.push(1u8);
            match &s.match_expressions {
                None => {
                    out.push(0u8);
                },
                Some(me) => {
                    out.push(1u8);
                    push_lsrs(out, me);
                },
            }
            push_opt_kvs(out, &s.match_labels);
            proof {
                assert(out@ =~= old(out)@ + enc_opt_selector(Some(s@)));
            }
        },
    }
}

fn push_opt_rr(out: &mut Vec<u8>, rr: &Option<crate::sts::ResourceRequirements>)
    ensures
        final(out)@ == old(out)@ + enc_opt_rr(rr.deep_view()),
{
    match rr {
        None => {
            out.push(0u8);
            proof {
                assert(out@ =~= old(out)@ + enc_opt_rr(
                    None::<crate::sts::ResourceRequirementsView>,
                ));
            }
        },
        Some(r) => {
            out.push(1u8);
            push_opt_kvs(out, &r.limits);
            push_opt_kvs(out, &r.requests);
            proof {
                assert(out@ =~= old(out)@ + enc_opt_rr(Some(r@)));
            }
        },
    }
}

fn push_pvc_spec_front(out: &mut Vec<u8>, s: &crate::sts::PersistentVolumeClaimSpec)
    ensures
        final(out)@ == old(out)@ + enc_pvc_spec_front(s@),
{
    push_opt_strs(out, &s.access_modes);
    push_opt_rr(out, &s.resources);
    push_opt_selector(out, &s.selector);
    proof {
        assert(out@ =~= old(out)@ + enc_pvc_spec_front(s@));
    }
}

fn push_pvc_spec_back(out: &mut Vec<u8>, s: &crate::sts::PersistentVolumeClaimSpec)
    ensures
        final(out)@ == old(out)@ + enc_pvc_spec_back(s@),
{
    push_opt_str(out, &s.storage_class_name);
    push_opt_str(out, &s.volume_mode);
    push_opt_str(out, &s.volume_name);
    proof {
        assert(out@ =~= old(out)@ + enc_pvc_spec_back(s@));
    }
}

fn push_opt_pvc_spec(out: &mut Vec<u8>, sp: &Option<crate::sts::PersistentVolumeClaimSpec>)
    ensures
        final(out)@ == old(out)@ + enc_opt_pvc_spec(sp.deep_view()),
{
    match sp {
        None => {
            out.push(0u8);
            proof {
                assert(out@ =~= old(out)@ + enc_opt_pvc_spec(
                    None::<crate::sts::PersistentVolumeClaimSpecView>,
                ));
            }
        },
        Some(s) => {
            out.push(1u8);
            push_pvc_spec_front(out, s);
            push_pvc_spec_back(out, s);
            proof {
                assert(out@ =~= old(out)@ + enc_opt_pvc_spec(Some(s@)));
            }
        },
    }
}

fn push_pvc(out: &mut Vec<u8>, p: &PersistentVolumeClaim)
    ensures
        final(out)@ == old(out)@ + enc_pvc(p@),
{
    push_meta(out, &p.metadata);
    push_opt_pvc_spec(out, &p.spec);
    proof {
        assert(out@ =~= old(out)@ + enc_pvc(p@));
    }
}

fn push_pvcs(out: &mut Vec<u8>, s: &Vec<PersistentVolumeClaim>)
    ensures
        final(out)@ == old(out)@ + enc_pvcs(s.deep_view()),
{
    push_u64(out, s.len() as u64);
    let mut i: usize = 0;
    while i < s.len()
        invariant
            i <= s.len(),
            s.deep_view().len() == s@.len(),
            out@ == old(out)@ + enc_u64(s@.len() as u64) + enc_pvc_items(
                s.deep_view().take(i as int),
            ),
        decreases s.len() - i,
    {
        push_pvc(out, &s[i]);
        proof {
            let dv = s.deep_view();
            assert(dv.take(i + 1 as int).drop_last() =~= dv.take(i as int));
            assert(dv.take(i + 1 as int).last() == dv[i as int]);
            assert(dv[i as int] == s@[i as int]@);
            assert(enc_pvc_items(dv.take(i + 1 as int)) == enc_pvc_items(dv.take(i as int))
                + enc_pvc(dv[i as int]));
            assert(out@ =~= old(out)@ + enc_u64(s@.len() as u64) + enc_pvc_items(
                dv.take(i + 1 as int),
            ));
        }
        i += 1;
    }
    proof {
        assert(s.deep_view().take(s@.len() as int) =~= s.deep_view());
        assert(out@ =~= old(out)@ + enc_pvcs(s.deep_view()));
    }
}

/// Serializes the immutable projection of a StatefulSet specification.
pub fn encode_immutable(s: &StatefulSetSpec) -> (r: Vec<u8>)
    ensures
        r@ == enc_immutable(immutable_of(s@)),
{
    let mut out: Vec<u8> = Vec::new();
    push_opt_str(&mut out, &s.pod_management_policy);
    push_opt_i32(&mut out, &s.revision_history_limit);
    match &s.selector.match_expressions {
        None => {
            push_u64(&mut out, 0);
            proof {
                assert(enc_lsr_items(Seq::<LabelSelectorRequirementView>::empty())
                    == Seq::<u8>::empty());
                assert(enc_lsrs(opt_seq(s.selector.match_expressions.deep_view())) =~= enc_u64(0));
            }
        },
        Some(me) => {
            push_lsrs(&mut out, me);
        },
    }
    match &s.selector.match_labels {
        None => {
            push_u64(&mut out, 0);
            proof {
                assert(enc_kv_items(Seq::<KeyValueView>::empty()) == Seq::<u8>::empty());
                assert(enc_kvs(opt_seq(s.selector.match_labels.deep_view())) =~= enc_u64(0));
            }
        },
        Some(ml) => {
            push_kvs(&mut out, ml);
        },
    }
    push_str(&mut out, &s.service_name);
    match &s.volume_claim_templates {
        None => {
            push_u64(&mut out, 0);
            proof {
                assert(enc_pvc_items(Seq::<PersistentVolumeClaimView>::empty())
                    == Seq::<u8>::empty());
                assert(enc_pvcs(opt_seq(s.volume_claim_templates.deep_view())) =~= enc_u64(0));
            }
        },
        Some(v) => {
            push_pvcs(&mut out, v);
        },
    }
    proof {
        assert(out@ =~= enc_immutable(immutable_of(s@)));
    }
    out
}

/// Folds a byte sequence through the 64-bit Fowler-Noll-Vo hash.
pub fn fnv64_digest(bytes: &Vec<u8>) -> (r: u64)
    ensures
        r == fnv64(bytes@),
{
    let mut h: u64 = FNV_OFFSET;
    let mut i: usize = 0;
    while i < bytes.len()
        invariant
            i <= bytes.len(),
            h == fnv64(bytes@.take(i as int)),
        decreases bytes.len() - i,
    {
        h = (h ^ (bytes[i] as u64)).wrapping_mul(FNV_PRIME);
        proof {
            assert(bytes@.take(i + 1 as int).drop_last() =~= bytes@.take(i as int));
            assert(bytes@.take(i + 1 as int).last() == bytes@[i as int]);
        }
        i += 1;
    }
    proof {
        assert(bytes@.take(bytes@.len() as int) =~= bytes@);
    }
    h
}

/// A StatefulSet specification read through its immutable subset: what
/// the revision hash is computed over.
pub struct ImmutableSts<'a>(pub &'a StatefulSetSpec);

impl<'a> ImmutableSts<'a> {
    /// The 16-bit revision hash: the low 16 bits of the 64-bit digest
    /// of the immutable projection. Rendered in lowercase hex when
    /// used in names.
    pub fn checksum(&self) -> (r: u16)
        ensures
            r == spec_checksum(self.0@),
    {
        let bytes = encode_immutable(self.0);
        let h = fnv64_digest(&bytes);
        proof {
            reveal(spec_checksum);
        }
        (h & 0xffff) as u16
    }
}

} // verus!
