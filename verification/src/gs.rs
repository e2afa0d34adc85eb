//! The `GratefulSet` resource: the user-facing description of a
//! stateful workload.
//!
//! The controller never mutates a `GratefulSet`'s specification; it
//! derives the desired pool from it (named by the revision hash of the
//! template) and mirrors the pools' replica counters back into the
//! status.

use crate::gsp::GratefulSetPool;
use crate::gsp::GratefulSetPoolSpec;
use crate::gsp::GratefulSetPoolSpecView;
use crate::gsp::GratefulSetPoolView;
use crate::meta::KeyValue;
use crate::meta::KeyValueView;
use crate::revision::ImmutableSts;
use crate::revision::spec_checksum;
use crate::strfmt::hex_of;
use crate::strfmt::hex_string_u16;
use crate::sts::StatefulSetSpec;
use crate::sts::StatefulSetSpecView;
use vstd::prelude::*;

verus! {

/// The desired state of a `GratefulSet`: its name and the full
/// StatefulSet specification (replica count included) the workload
/// should converge to.
pub struct GratefulSetSpec {
    pub name: String,
    pub sts_spec: StatefulSetSpec,
}

#[verifier::ext_equal]
pub struct GratefulSetSpecView {
    pub name: Seq<char>,
    pub sts_spec: StatefulSetSpecView,
}

impl View for GratefulSetSpec {
    type V = GratefulSetSpecView;

    open spec fn view(&self) -> GratefulSetSpecView {
        GratefulSetSpecView { name: self.name.deep_view(), sts_spec: self.sts_spec.deep_view() }
    }
}

impl DeepView for GratefulSetSpec {
    type V = GratefulSetSpecView;

    open spec fn deep_view(&self) -> GratefulSetSpecView {
        self.view()
    }
}

impl Clone for GratefulSetSpec {
    fn clone(&self) -> (r: Self)
        ensures
            r@ == self@,
    {
        let r = GratefulSetSpec { name: self.name.clone(), sts_spec: self.sts_spec.clone() };
        proof {
            assert(r@ =~= self@);
        }
        r
    }
}

/// The mirrored replica counters of a `GratefulSet`: the sums of the
/// corresponding counters over all of its pools.
#[derive(Clone, Copy)]
pub struct GratefulSetStatus {
    pub current_replicas: Option<i32>,
    pub ready_replicas: Option<i32>,
    pub replicas: i32,
    pub updated_replicas: Option<i32>,
}

impl View for GratefulSetStatus {
    type V = GratefulSetStatus;

    open spec fn view(&self) -> GratefulSetStatus {
        *self
    }
}

impl DeepView for GratefulSetStatus {
    type V = GratefulSetStatus;

    open spec fn deep_view(&self) -> GratefulSetStatus {
        *self
    }
}

/// A `GratefulSet` object as the controller sees it: metadata name,
/// desired state, observed status.
pub struct GratefulSet {
    pub name: String,
    pub spec: GratefulSetSpec,
    pub status: Option<GratefulSetStatus>,
}

#[verifier::ext_equal]
pub struct GratefulSetView {
    pub name: Seq<char>,
    pub spec: GratefulSetSpecView,
    pub status: Option<GratefulSetStatus>,
}

impl View for GratefulSet {
    type V = GratefulSetView;

    open spec fn view(&self) -> GratefulSetView {
        GratefulSetView {
            name: self.name.deep_view(),
            spec: self.spec.deep_view(),
            status: self.status,
        }
    }
}

impl DeepView for GratefulSet {
    type V = GratefulSetView;

    open spec fn deep_view(&self) -> GratefulSetView {
        self.view()
    }
}

impl Clone for GratefulSet {
    fn clone(&self) -> (r: Self)
        ensures
            r@ == self@,
    {
        let r = GratefulSet {
            name: self.name.clone(),
            spec: self.spec.clone(),
            status: self.status,
        };
        proof {
            assert(r@ =~= self@);
        }
        r
    }
}

/// The owner label every pool of a `GratefulSet` carries.
pub open spec fn spec_owner_label_key() -> Seq<char> {
    "owner.pikach.us"@
}

/// The name of the pool realizing a given template:
/// `<set-name>-<hex16-of-revision-hash>`.
pub open spec fn spec_pool_name(gs: GratefulSetSpecView) -> Seq<char> {
    gs.name + "-"@ + hex_of(spec_checksum(gs.sts_spec) as nat)
}

/// The pool a `GratefulSet` wants: named by the revision hash of its
/// template, labelled and owner-referenced back to the set, carrying
/// the full template, with no status.
pub open spec fn spec_pool(gs: GratefulSetSpecView) -> GratefulSetPoolView {
    GratefulSetPoolView {
        name: spec_pool_name(gs),
        labels: seq![KeyValueView { key: spec_owner_label_key(), value: gs.name }],
        owner: Some(gs.name),
        spec: GratefulSetPoolSpecView { name: spec_pool_name(gs), sts_spec: gs.sts_spec },
        status: None,
    }
}

impl GratefulSetSpec {
    /// The desired pool for this specification: its name is the set's
    /// name suffixed with the revision hash in lowercase hex, it
    /// carries the owner label and owner reference, and its template
    /// is this specification's template.
    pub fn pool(&self) -> (r: GratefulSetPool)
        ensures
            r@ == spec_pool(self@),
    {
        let hash = ImmutableSts(&self.sts_spec).checksum();
        let name = self.name.clone().concat("-").concat(hex_string_u16(hash).as_str());
        let mut labels: Vec<KeyValue> = Vec::new();
        labels.push(
            KeyValue { key: String::from_str("owner.pikach.us"), value: self.name.clone() },
        );
        let r = GratefulSetPool {
            name: name.clone(),
            labels,
            owner: Some(self.name.clone()),
            spec: GratefulSetPoolSpec { name, sts_spec: self.sts_spec.clone() },
            status: None,
        };
        proof {
            assert(r@.labels =~= spec_pool(self@).labels);
            assert(r@ =~= spec_pool(self@));
        }
        r
    }
}


// --- mirroring pool counters into the set's status ---------------------------

/// Clamps a sum into the range of a counter.
pub open spec fn clamp_i32(x: int) -> i32 {
    if x > i32::MAX {
        i32::MAX
    } else if x < i32::MIN {
        i32::MIN
    } else {
        x as i32
    }
}

/// The sum of one observed counter over a sequence of pools; `which`
/// selects the counter.
pub open spec fn sum_counter(pools: Seq<GratefulSetPoolView>, which: StatusCounter) -> int
    decreases pools.len(),
{
    if pools.len() == 0 {
        0
    } else {
        sum_counter(pools.drop_last(), which) + counter_of(pools.last(), which)
    }
}

/// The counters a `GratefulSet` status mirrors.
pub enum StatusCounter {
    Current,
    Ready,
    Declared,
    Updated,
}

/// One observed counter of one pool, an absent status read as zero.
pub open spec fn counter_of(p: GratefulSetPoolView, which: StatusCounter) -> int {
    match p.status {
        None => 0,
        Some(st) => match which {
            StatusCounter::Current => match st.sts_status.current_replicas {
                Some(x) => x as int,
                None => 0,
            },
            StatusCounter::Ready => match st.sts_status.ready_replicas {
                Some(x) => x as int,
                None => 0,
            },
            StatusCounter::Declared => st.sts_status.replicas as int,
            StatusCounter::Updated => match st.sts_status.updated_replicas {
                Some(x) => x as int,
                None => 0,
            },
        },
    }
}

/// One observed counter of one pool, as a value.
fn counter_i32(p: &GratefulSetPool, which: &StatusCounter) -> (r: i32)
    ensures
        r as int == counter_of(p@, *which),
{
    match &p.status {
        None => 0,
        Some(st) => match which {
            StatusCounter::Current => match st.sts_status.current_replicas {
                Some(x) => x,
                None => 0,
            },
            StatusCounter::Ready => match st.sts_status.ready_replicas {
                Some(x) => x,
                None => 0,
            },
            StatusCounter::Declared => st.sts_status.replicas,
            StatusCounter::Updated => match st.sts_status.updated_replicas {
                Some(x) => x,
                None => 0,
            },
        },
    }
}

/// The sum of one counter over the pools, clamped into counter range.
fn sum_counter_i32(pools: &Vec<GratefulSetPool>, which: StatusCounter) -> (r: i32)
    requires
        pools@.len() <= 0x7fff_ffff,
    ensures
        r == clamp_i32(sum_counter(pools.deep_view(), which)),
{
    let ghost pv = pools.deep_view();
    let mut sum: i64 = 0;
    let mut j: usize = 0;
    while j < pools.len()
        invariant
            j <= pools@.len(),
            pools@.len() <= 0x7fff_ffff,
            pv == pools.deep_view(),
            pv.len() == pools@.len(),
            sum == sum_counter(pv.take(j as int), which),
            -0x8000_0000i64 * (j as i64 + 1) <= sum <= 0x8000_0000i64 * (j as i64 + 1),
        decreases pools@.len() - j,
    {
        let c = counter_i32(&pools[j], &which);
        proof {
            assert(pools.deep_view()[j as int] == pools@[j as int]@);
            assert(pv.take(j + 1 as int).drop_last() =~= pv.take(j as int));
            assert(pv.take(j + 1 as int).last() == pv[j as int]);
        }
        sum = sum + c as i64;
        j += 1;
    }
    proof {
        assert(pv.take(pools@.len() as int) =~= pv);
    }
    if sum > i32::MAX as i64 {
        i32::MAX
    } else if sum < i32::MIN as i64 {
        i32::MIN
    } else {
        sum as i32
    }
}

impl GratefulSetStatus {
    /// The status the set reports: each counter the sum of that
    /// counter over the managed pools, so that an operator watching
    /// the set sees the migration's progress live. Sums beyond counter
    /// range are clamped.
    pub fn of_pools(pools: &Vec<GratefulSetPool>) -> (r: GratefulSetStatus)
        requires
            pools@.len() <= 0x7fff_ffff,
        ensures
            r.current_replicas == Some(clamp_i32(sum_counter(pools.deep_view(), StatusCounter::Current))),
            r.ready_replicas == Some(clamp_i32(sum_counter(pools.deep_view(), StatusCounter::Ready))),
            r.replicas == clamp_i32(sum_counter(pools.deep_view(), StatusCounter::Declared)),
            r.updated_replicas == Some(clamp_i32(sum_counter(pools.deep_view(), StatusCounter::Updated))),
    {
        GratefulSetStatus {
            current_replicas: Some(sum_counter_i32(pools, StatusCounter::Current)),
            ready_replicas: Some(sum_counter_i32(pools, StatusCounter::Ready)),
            replicas: sum_counter_i32(pools, StatusCounter::Declared),
            updated_replicas: Some(sum_counter_i32(pools, StatusCounter::Updated)),
        }
    }
}

} // verus!
