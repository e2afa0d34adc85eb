//! The `GratefulSet` reconciler's decision function.
//!
//! One reconcile pass reads the set and its observed pools and decides
//! a single step toward convergence. The decision is a pure function of
//! the observed world; applying the chosen action (and the requeue
//! policy around it) is the caller's job. The rows, in order:
//!
//! 1. the current pool's template equals the set's template — delete
//!    every old pool (nothing to delete means the set has converged);
//! 2. the current pool exists with replicas above zero but drifts from
//!    the template in some dimension other than scale — patch the
//!    template in place, preserving the replica count;
//! 3. no current pool is observed — create it at zero replicas;
//! 4. the pools' ready total covers the desired count — give back one
//!    replica: decrement the oldest old pool still holding replicas
//!    (ties broken by smallest name), or the current pool if none;
//! 5. otherwise — grant one replica: increment the current pool.
//!
//! Scale-down strictly precedes scale-up, so a migration never holds
//! more than one replica of headroom.

use crate::gs::GratefulSet;
use crate::gs::GratefulSetSpecView;
use crate::gs::GratefulSetView;
use crate::gs::spec_pool;
use crate::gsp::GratefulSetPool;
use crate::gsp::GratefulSetPoolSpecView;
use crate::gsp::GratefulSetPoolView;
use crate::gsp::spec_delta_replicas;
use crate::gsp::spec_without_replicas;
use crate::gsp::without_replicas;
use crate::revision::ImmutableSts;
use crate::revision::spec_checksum;
use crate::sts::StatefulSetSpecView;
use crate::sts::eq_statefulset_spec;
use vstd::prelude::*;

verus! {

/// One step decided by the set reconciler.
pub enum SetAction {
    /// Nothing to do: the set has converged. Requeue after the safety
    /// interval.
    Noop,
    /// Delete the pools with these names: they are old and the current
    /// pool already carries the whole template.
    DeleteOldPools { names: Vec<String> },
    /// Apply this pool: its template is brought to the set's, its
    /// replica count kept.
    PatchTemplate { pool: GratefulSetPool },
    /// Create this pool: the current revision, starting at zero
    /// replicas.
    CreateCurrent { pool: GratefulSetPool },
    /// Apply this pool: one replica fewer than observed.
    ScaleDown { pool: GratefulSetPool },
    /// Apply this pool: one replica more than observed.
    ScaleUp { pool: GratefulSetPool },
}

#[verifier::ext_equal]
pub enum SetActionView {
    Noop,
    DeleteOldPools { names: Seq<Seq<char>> },
    PatchTemplate { pool: GratefulSetPoolView },
    CreateCurrent { pool: GratefulSetPoolView },
    ScaleDown { pool: GratefulSetPoolView },
    ScaleUp { pool: GratefulSetPoolView },
}

impl View for SetAction {
    type V = SetActionView;

    open spec fn view(&self) -> SetActionView {
        match self {
            SetAction::Noop => SetActionView::Noop,
            SetAction::DeleteOldPools { names } => SetActionView::DeleteOldPools {
                names: names.deep_view(),
            },
            SetAction::PatchTemplate { pool } => SetActionView::PatchTemplate {
                pool: pool.deep_view(),
            },
            SetAction::CreateCurrent { pool } => SetActionView::CreateCurrent {
                pool: pool.deep_view(),
            },
            SetAction::ScaleDown { pool } => SetActionView::ScaleDown { pool: pool.deep_view() },
            SetAction::ScaleUp { pool } => SetActionView::ScaleUp { pool: pool.deep_view() },
        }
    }
}

impl DeepView for SetAction {
    type V = SetActionView;

    open spec fn deep_view(&self) -> SetActionView {
        self.view()
    }
}

// --- readings of a pool ---------------------------------------------------

/// The revision hash a pool is classified by.
pub open spec fn pool_hash(p: GratefulSetPoolView) -> u16 {
    spec_checksum(p.spec.sts_spec)
}

/// A pool's observed ready count, absent counters read as zero.
pub open spec fn pool_ready(p: GratefulSetPoolView) -> int {
    match p.status {
        Some(st) => match st.sts_status.ready_replicas {
            Some(x) => x as int,
            None => 0,
        },
        None => 0,
    }
}

/// A pool's desired replica count, an absent count read as one.
pub open spec fn pool_replicas_or_one(p: GratefulSetPoolView) -> int {
    match p.spec.sts_spec.replicas {
        Some(x) => x as int,
        None => 1,
    }
}

/// The sum of the pools' ready counts.
pub open spec fn sum_ready(pools: Seq<GratefulSetPoolView>) -> int
    decreases pools.len(),
{
    if pools.len() == 0 {
        0
    } else {
        sum_ready(pools.drop_last()) + pool_ready(pools.last())
    }
}

// --- classification -------------------------------------------------------

/// The pools whose revision hash differs from `h`, in observed order.
pub open spec fn old_pools_of(pools: Seq<GratefulSetPoolView>, h: u16) -> Seq<GratefulSetPoolView>
    decreases pools.len(),
{
    if pools.len() == 0 {
        Seq::empty()
    } else if pool_hash(pools.last()) != h {
        old_pools_of(pools.drop_last(), h).push(pools.last())
    } else {
        old_pools_of(pools.drop_last(), h)
    }
}

/// Whether some pool carries revision hash `h`.
pub open spec fn cur_observed(pools: Seq<GratefulSetPoolView>, h: u16) -> bool {
    exists|i: int| 0 <= i < pools.len() && pool_hash(pools[i]) == h
}

/// The last pool carrying revision hash `h`, or `dflt` if none does.
pub open spec fn cur_pool_of(
    pools: Seq<GratefulSetPoolView>,
    h: u16,
    dflt: GratefulSetPoolView,
) -> GratefulSetPoolView
    decreases pools.len(),
{
    if pools.len() == 0 {
        dflt
    } else if pool_hash(pools.last()) == h {
        pools.last()
    } else {
        cur_pool_of(pools.drop_last(), h, dflt)
    }
}

// --- lexicographic name order ----------------------------------------------

/// Strict lexicographic order on character sequences.
pub open spec fn lex_lt(a: Seq<char>, b: Seq<char>) -> bool
    decreases a.len(),
{
    if b.len() == 0 {
        false
    } else if a.len() == 0 {
        true
    } else if a[0] != b[0] {
        a[0] < b[0]
    } else {
        lex_lt(a.skip(1), b.skip(1))
    }
}

/// Compares two strings lexicographically by characters.
pub fn str_lex_lt(a: &String, b: &String) -> (r: bool)
    ensures
        r == lex_lt(a@, b@),
{
    let an = a.as_str().unicode_len();
    let bn = b.as_str().unicode_len();
    let mut i: usize = 0;
    proof {
        assert(a@.skip(0) =~= a@);
        assert(b@.skip(0) =~= b@);
    }
    loop
        invariant
            i <= an,
            i <= bn,
            an == a@.len(),
            bn == b@.len(),
            forall|j: int| 0 <= j < i ==> a@[j] == b@[j],
            lex_lt(a@, b@) == lex_lt(a@.skip(i as int), b@.skip(i as int)),
        ensures
            lex_lt(a@, b@) == lex_lt(a@.skip(i as int), b@.skip(i as int)),
            i <= an && i <= bn,
            (i < an && i < bn) ==> a@[i as int] != b@[i as int],
            !(i < an && i < bn) ==> (i == an || i == bn),
        decreases an - i,
    {
        if i >= an || i >= bn {
            break;
        }
        let ca = a.as_str().get_char(i);
        let cb = b.as_str().get_char(i);
        if ca != cb {
            break;
        }
        proof {
            lemma_lex_unfold(a@.skip(i as int), b@.skip(i as int));
            assert(a@.skip(i as int).skip(1) =~= a@.skip(i as int + 1));
            assert(b@.skip(i as int).skip(1) =~= b@.skip(i as int + 1));
        }
        i += 1;
    }
    if i < an && i < bn {
        let ca = a.as_str().get_char(i);
        let cb = b.as_str().get_char(i);
        proof {
            lemma_lex_unfold(a@.skip(i as int), b@.skip(i as int));
        }
        ca < cb
    } else if i < bn {
        proof {
            lemma_lex_unfold(a@.skip(i as int), b@.skip(i as int));
        }
        true
    } else {
        proof {
            lemma_lex_unfold(a@.skip(i as int), b@.skip(i as int));
        }
        false
    }
}

/// Unfolds one step of the lexicographic order on nonempty prefixes.
proof fn lemma_lex_unfold(a: Seq<char>, b: Seq<char>)
    ensures
        b.len() == 0 ==> !lex_lt(a, b),
        a.len() == 0 && b.len() > 0 ==> lex_lt(a, b),
        a.len() > 0 && b.len() > 0 && a[0] != b[0] ==> lex_lt(a, b) == (a[0] < b[0]),
        a.len() > 0 && b.len() > 0 && a[0] == b[0] ==> lex_lt(a, b) == lex_lt(a.skip(1), b.skip(1)),
{
}

// --- the oldest scalable old pool ------------------------------------------

/// Whether a pool still holds replicas to give back.
pub open spec fn pool_scalable(p: GratefulSetPoolView) -> bool {
    pool_replicas_or_one(p) > 0
}

/// Among the old pools, the one to drain next: a pool with replicas
/// left, the lexicographically smallest name breaking ties, so every
/// restart of the reconciler picks the same pool.
pub open spec fn oldest_scalable(olds: Seq<GratefulSetPoolView>) -> Option<GratefulSetPoolView>
    decreases olds.len(),
{
    if olds.len() == 0 {
        None
    } else {
        let rest = oldest_scalable(olds.drop_last());
        let p = olds.last();
        if !pool_scalable(p) {
            rest
        } else {
            match rest {
                None => Some(p),
                Some(q) => if lex_lt(p.name, q.name) {
                    Some(p)
                } else {
                    Some(q)
                },
            }
        }
    }
}

// --- the decision -----------------------------------------------------------

/// The pool the set wants right now: the desired pool at zero
/// replicas. Scale is converged separately, one replica per pass.
pub open spec fn spec_want(gs: GratefulSetSpecView) -> GratefulSetPoolView {
    let p = spec_pool(gs);
    GratefulSetPoolView {
        spec: GratefulSetPoolSpecView {
            sts_spec: StatefulSetSpecView { replicas: Some(0i32), ..gs.sts_spec },
            ..p.spec
        },
        ..p
    }
}

/// The desired replica count of the set, an absent count read as one.
pub open spec fn spec_desired(gs: GratefulSetSpecView) -> int {
    match gs.sts_spec.replicas {
        Some(x) => x as int,
        None => 1,
    }
}

/// The pool written by a scale-down that found a drainable old pool:
/// that pool with one replica fewer.
pub open spec fn drained_pool(p: GratefulSetPoolView) -> GratefulSetPoolView {
    GratefulSetPoolView {
        spec: GratefulSetPoolSpecView {
            sts_spec: StatefulSetSpecView {
                replicas: Some((pool_replicas_or_one(p) - 1) as i32),
                ..p.spec.sts_spec
            },
            ..p.spec
        },
        ..p
    }
}

/// A pool with its replica count shifted by `n`, floored at zero.
pub open spec fn shifted_pool(p: GratefulSetPoolView, n: int) -> GratefulSetPoolView {
    GratefulSetPoolView {
        spec: GratefulSetPoolSpecView {
            sts_spec: StatefulSetSpecView {
                replicas: spec_delta_replicas(p.spec.sts_spec.replicas, n),
                ..p.spec.sts_spec
            },
            ..p.spec
        },
        ..p
    }
}

/// The pool written by an in-place template patch: the current pool's
/// identity, the set's template, the current pool's replica count.
pub open spec fn patched_pool(
    cur: GratefulSetPoolView,
    want: GratefulSetPoolView,
) -> GratefulSetPoolView {
    GratefulSetPoolView {
        spec: GratefulSetPoolSpecView {
            sts_spec: StatefulSetSpecView {
                replicas: cur.spec.sts_spec.replicas,
                ..want.spec.sts_spec
            },
            ..want.spec
        },
        ..cur
    }
}

/// The names of a sequence of pools, in order.
pub open spec fn names_of(pools: Seq<GratefulSetPoolView>) -> Seq<Seq<char>> {
    pools.map_values(|p: GratefulSetPoolView| p.name)
}

/// The set reconciler's decision, as a function of the observed world.
pub open spec fn spec_decide(
    gs: GratefulSetView,
    pools: Seq<GratefulSetPoolView>,
) -> SetActionView {
    let want = spec_want(gs.spec);
    let h = spec_checksum(want.spec.sts_spec);
    let olds = old_pools_of(pools, h);
    let cur = cur_pool_of(pools, h, want);
    if cur.spec.sts_spec == gs.spec.sts_spec {
        if olds.len() == 0 {
            SetActionView::Noop
        } else {
            SetActionView::DeleteOldPools { names: names_of(olds) }
        }
    } else if cur_observed(pools, h) && (match cur.spec.sts_spec.replicas {
        Some(x) => x > 0,
        None => false,
    }) && spec_without_replicas(want.spec.sts_spec) != spec_without_replicas(cur.spec.sts_spec) {
        SetActionView::PatchTemplate { pool: patched_pool(cur, want) }
    } else if !cur_observed(pools, h) {
        SetActionView::CreateCurrent { pool: want }
    } else if sum_ready(olds) + pool_ready(cur) >= spec_desired(gs.spec) {
        match oldest_scalable(olds) {
            Some(target) => SetActionView::ScaleDown { pool: drained_pool(target) },
            None => SetActionView::ScaleDown { pool: shifted_pool(cur, -1) },
        }
    } else {
        SetActionView::ScaleUp { pool: shifted_pool(cur, 1) }
    }
}

/// How long to wait before the next pass when the decided action asks
/// for no earlier wake-up: converged sets are re-checked after five
/// minutes as a safety net; every other action is followed by a watch
/// event, so no timer is set.
pub fn requeue_after_secs(a: &SetAction) -> (r: Option<u64>)
    ensures
        a is Noop ==> r == Some(300u64),
        !(a is Noop) ==> r is None,
{
    match a {
        SetAction::Noop => Some(300),
        _ => None,
    }
}

// --- membership lemmas -------------------------------------------------------

/// Every old pool is one of the observed pools.
proof fn lemma_old_pools_in_range(pools: Seq<GratefulSetPoolView>, h: u16)
    requires
        forall|i: int| 0 <= i < pools.len() ==> pool_replicas_in_range(#[trigger] pools[i]),
    ensures
        forall|j: int| 0 <= j < old_pools_of(pools, h).len() ==> pool_replicas_in_range(
            #[trigger] old_pools_of(pools, h)[j],
        ),
    decreases pools.len(),
{
    if pools.len() > 0 {
        assert(forall|i: int| 0 <= i < pools.drop_last().len() ==> pool_replicas_in_range(
            #[trigger] pools.drop_last()[i],
        ));
        lemma_old_pools_in_range(pools.drop_last(), h);
        assert(pool_replicas_in_range(pools.last()));
        let rec = old_pools_of(pools.drop_last(), h);
        if pool_hash(pools.last()) != h {
            assert forall|j: int| 0 <= j < old_pools_of(pools, h).len() implies
                pool_replicas_in_range(#[trigger] old_pools_of(pools, h)[j]) by {
                if j < rec.len() {
                    assert(old_pools_of(pools, h)[j] == rec[j]);
                } else {
                    assert(old_pools_of(pools, h)[j] == pools.last());
                }
            }
        }
    }
}

/// The current pool is either the default or one of the observed
/// pools.
proof fn lemma_cur_pool_in_range(
    pools: Seq<GratefulSetPoolView>,
    h: u16,
    dflt: GratefulSetPoolView,
)
    requires
        forall|i: int| 0 <= i < pools.len() ==> pool_replicas_in_range(#[trigger] pools[i]),
        pool_replicas_in_range(dflt),
    ensures
        pool_replicas_in_range(cur_pool_of(pools, h, dflt)),
    decreases pools.len(),
{
    if pools.len() > 0 {
        if pool_hash(pools.last()) == h {
            assert(pool_replicas_in_range(pools.last()));
        } else {
            assert(forall|i: int| 0 <= i < pools.drop_last().len() ==> pool_replicas_in_range(
                #[trigger] pools.drop_last()[i],
            ));
            lemma_cur_pool_in_range(pools.drop_last(), h, dflt);
        }
    }
}

/// What `oldest_scalable` returns is a scalable member of the list.
pub proof fn lemma_oldest_scalable_member(olds: Seq<GratefulSetPoolView>)
    ensures
        oldest_scalable(olds) matches Some(q) ==> pool_scalable(q) && exists|j: int|
            0 <= j < olds.len() && olds[j] == q,
    decreases olds.len(),
{
    if olds.len() > 0 {
        lemma_oldest_scalable_member(olds.drop_last());
        if oldest_scalable(olds) is Some {
            let q = oldest_scalable(olds).unwrap();
            if pool_scalable(olds.last()) && q == olds.last() {
                assert(olds[olds.len() - 1] == q);
            } else {
                let j = choose|j: int|
                    0 <= j < olds.drop_last().len() && olds.drop_last()[j] == q;
                assert(olds[j] == q);
            }
        }
    }
}

// --- the executable decision -------------------------------------------------

/// Whether a pool's declared replica count leaves room to shift by one
/// in either direction.
pub open spec fn pool_replicas_in_range(p: GratefulSetPoolView) -> bool {
    match p.spec.sts_spec.replicas {
        Some(x) => i32::MIN < x < i32::MAX,
        None => true,
    }
}

/// A pool's observed ready count, as a value.
fn pool_ready_i32(p: &GratefulSetPool) -> (r: i32)
    ensures
        r as int == pool_ready(p@),
{
    match &p.status {
        Some(st) => match st.sts_status.ready_replicas {
            Some(x) => x,
            None => 0,
        },
        None => 0,
    }
}

/// Splits the observed pools into the old ones (hash differs from
/// `desired_hash`, observed order kept) and the current one (the last
/// pool with the desired hash, or a copy of `dflt` if none), and says
/// whether a current pool was observed at all.
/// Pushing one element extends the element-wise view of a vector.
proof fn lemma_deep_view_push(
    prevv: Seq<GratefulSetPool>,
    prevd: Seq<GratefulSetPoolView>,
    v: Vec<GratefulSetPool>,
    x: GratefulSetPool,
)
    requires
        v@ == prevv.push(x),
        prevd.len() == prevv.len(),
        forall|j: int| 0 <= j < prevv.len() ==> prevd[j] == #[trigger] prevv[j]@,
    ensures
        v.deep_view() == prevd.push(x@),
{
    assert forall|j: int| 0 <= j < v@.len() implies v.deep_view()[j] == prevd.push(x@)[j] by {
        assert(v.deep_view()[j] == v@[j]@);
        if j < prevv.len() {
            assert(v@[j] == prevv[j]);
        } else {
            assert(v@[j] == x);
        }
    }
    assert(v.deep_view() =~= prevd.push(x@));
}

/// A pool of a foreign revision neither adds nor removes a witness for
/// the current revision.
proof fn lemma_cur_observed_step(pv: Seq<GratefulSetPoolView>, i: int, h: u16)
    requires
        0 <= i < pv.len(),
        pool_hash(pv[i]) != h,
    ensures
        cur_observed(pv.take(i + 1), h) == cur_observed(pv.take(i), h),
{
    if cur_observed(pv.take(i + 1), h) {
        let j = choose|j: int|
            0 <= j < pv.take(i + 1).len() && #[trigger] pool_hash(pv.take(i + 1)[j]) == h;
        assert(pv.take(i + 1)[j] == pv[j]);
        assert(j != i);
        assert(pv.take(i)[j] == pv[j]);
        assert(pool_hash(pv.take(i)[j]) == h);
    }
    if cur_observed(pv.take(i), h) {
        let j = choose|j: int|
            0 <= j < pv.take(i).len() && #[trigger] pool_hash(pv.take(i)[j]) == h;
        assert(pv.take(i + 1)[j] == pv.take(i)[j]);
        assert(pool_hash(pv.take(i + 1)[j]) == h);
    }
}

/// One step of the partition: classify `p` (which is `pv[i]`) as old
/// or current.
fn partition_step(
    p: &GratefulSetPool,
    desired_hash: u16,
    old_pools: &mut Vec<GratefulSetPool>,
    cur: &mut GratefulSetPool,
    cur_found: &mut bool,
    Ghost(pv): Ghost<Seq<GratefulSetPoolView>>,
    Ghost(i): Ghost<int>,
    Ghost(dflt): Ghost<GratefulSetPoolView>,
)
    requires
        0 <= i < pv.len(),
        p@ == pv[i],
        old(old_pools).deep_view() == old_pools_of(pv.take(i), desired_hash),
        old(old_pools)@.len() <= i,
        old(cur)@ == cur_pool_of(pv.take(i), desired_hash, dflt),
        *old(cur_found) == cur_observed(pv.take(i), desired_hash),
    ensures
        final(old_pools).deep_view() == old_pools_of(pv.take(i + 1), desired_hash),
        final(old_pools)@.len() <= i + 1,
        final(cur)@ == cur_pool_of(pv.take(i + 1), desired_hash, dflt),
        *final(cur_found) == cur_observed(pv.take(i + 1), desired_hash),
{
    proof {
        assert(pv.take(i + 1).drop_last() =~= pv.take(i));
        assert(pv.take(i + 1).last() == pv[i]);
    }
    let ph = ImmutableSts(&p.spec.sts_spec).checksum();
    proof {
        assert(ph == pool_hash(pv[i]));
    }
    if ph != desired_hash {
        let pc = p.clone();
        let ghost prevd = old_pools.deep_view();
        let ghost prevv = old_pools@;
        old_pools.push(pc);
        proof {
            lemma_deep_view_push(prevv, prevd, *old_pools, pc);
            assert(pc@ == pv[i]);
            lemma_cur_observed_step(pv, i, desired_hash);
        }
    } else {
        *cur = p.clone();
        *cur_found = true;
        proof {
            assert(pool_hash(pv.take(i + 1)[i]) == desired_hash);
        }
    }
}

fn partition_pools(
    pools: &Vec<GratefulSetPool>,
    desired_hash: u16,
    dflt: &GratefulSetPool,
) -> (r: (Vec<GratefulSetPool>, GratefulSetPool, bool))
    requires
        spec_checksum(dflt@.spec.sts_spec) == desired_hash,
    ensures
        r.0@.len() <= pools@.len(),
        r.0.deep_view() == old_pools_of(pools.deep_view(), desired_hash),
        r.1@ == cur_pool_of(pools.deep_view(), desired_hash, dflt@),
        r.2 == cur_observed(pools.deep_view(), desired_hash),
{
    let ghost pv = pools.deep_view();
    let mut old_pools: Vec<GratefulSetPool> = Vec::new();
    let mut cur: GratefulSetPool = dflt.clone();
    let mut cur_found: bool = false;
    let mut i: usize = 0;
    while i < pools.len()
        invariant
            i <= pools@.len(),
            pv == pools.deep_view(),
            pv.len() == pools@.len(),
            old_pools@.len() <= i,
            old_pools.deep_view() == old_pools_of(pv.take(i as int), desired_hash),
            cur@ == cur_pool_of(pv.take(i as int), desired_hash, dflt@),
            cur_found == cur_observed(pv.take(i as int), desired_hash),
        decreases pools@.len() - i,
    {
        proof {
            assert(pv[i as int] == pools@[i as int]@);
        }
        partition_step(
            &pools[i],
            desired_hash,
            &mut old_pools,
            &mut cur,
            &mut cur_found,
            Ghost(pv),
            Ghost(i as int),
            Ghost(dflt@),
        );
        i += 1;
    }
    proof {
        assert(pv.take(pools@.len() as int) =~= pv);
    }
    (old_pools, cur, cur_found)
}

/// The names of these pools, in order.
fn pool_names(pools: &Vec<GratefulSetPool>) -> (names: Vec<String>)
    ensures
        names.deep_view() == names_of(pools.deep_view()),
{
    let mut names: Vec<String> = Vec::new();
    let mut j: usize = 0;
    while j < pools.len()
        invariant
            j <= pools@.len(),
            names@.len() == j,
            forall|k: int| 0 <= k < j ==> names@[k]@ == names_of(pools.deep_view())[k],
        decreases pools@.len() - j,
    {
        names.push(pools[j].name.clone());
        proof {
            assert(pools.deep_view()[j as int] == pools@[j as int]@);
        }
        j += 1;
    }
    proof {
        assert forall|k: int| 0 <= k < names@.len() implies names.deep_view()[k] == names_of(
            pools.deep_view(),
        )[k] by {
            assert(names.deep_view()[k] == names@[k]@);
        }
        assert(names.deep_view() =~= names_of(pools.deep_view()));
    }
    names
}

/// The sum of the pools' observed ready counts, as a value.
fn total_ready(olds: &Vec<GratefulSetPool>) -> (r: i64)
    requires
        olds@.len() <= 0x7fff_ffff,
    ensures
        r == sum_ready(olds.deep_view()),
        -0x4000_0000_0000_0000i64 <= r <= 0x4000_0000_0000_0000i64,
{
    let ghost ov = olds.deep_view();
    let mut ready: i64 = 0;
    let mut j: usize = 0;
    while j < olds.len()
        invariant
            j <= olds@.len(),
            olds@.len() <= 0x7fff_ffff,
            ov == olds.deep_view(),
            ov.len() == olds@.len(),
            ready == sum_ready(ov.take(j as int)),
            -0x8000_0000i64 * (j as i64 + 1) <= ready <= 0x8000_0000i64 * (j as i64 + 1),
        decreases olds@.len() - j,
    {
        let pr = pool_ready_i32(&olds[j]);
        proof {
            assert(olds.deep_view()[j as int] == olds@[j as int]@);
            assert(ov.take(j + 1 as int).drop_last() =~= ov.take(j as int));
            assert(ov.take(j + 1 as int).last() == ov[j as int]);
        }
        ready = ready + pr as i64;
        j += 1;
    }
    proof {
        assert(ov.take(olds@.len() as int) =~= ov);
    }
    ready
}

/// Finds the index of the pool to drain next: among the pools that
/// still hold replicas, the one with the smallest name.
fn find_oldest_scalable(olds: &Vec<GratefulSetPool>) -> (r: Option<usize>)
    ensures
        r is None ==> oldest_scalable(olds.deep_view()) is None,
        r matches Some(b) ==> b < olds@.len() && oldest_scalable(olds.deep_view()) == Some(
            olds.deep_view()[b as int],
        ),
{
    let ghost ov = olds.deep_view();
    let mut best: usize = 0;
    let mut have_best: bool = false;
    let mut k: usize = 0;
    while k < olds.len()
        invariant
            k <= olds@.len(),
            ov == olds.deep_view(),
            ov.len() == olds@.len(),
            !have_best ==> oldest_scalable(ov.take(k as int)) is None,
            have_best ==> best < k && oldest_scalable(ov.take(k as int)) == Some(ov[best as int]),
        decreases olds@.len() - k,
    {
        proof {
            assert(olds.deep_view()[k as int] == olds@[k as int]@);
            assert(ov.take(k + 1 as int).drop_last() =~= ov.take(k as int));
            assert(ov.take(k + 1 as int).last() == ov[k as int]);
        }
        let scalable = match olds[k].spec.sts_spec.replicas {
            Some(x) => x > 0,
            None => true,
        };
        if scalable {
            if !have_best {
                best = k;
                have_best = true;
            } else {
                proof {
                    assert(olds.deep_view()[best as int] == olds@[best as int]@);
                }
                if str_lex_lt(&olds[k].name, &olds[best].name) {
                    best = k;
                }
            }
        }
        k += 1;
    }
    proof {
        assert(ov.take(olds@.len() as int) =~= ov);
    }
    if have_best {
        Some(best)
    } else {
        None
    }
}

/// One reconcile decision for a `GratefulSet`, given the pools observed
/// under its owner label. The result equals `spec_decide` on the views
/// of the inputs; the caller applies it and relies on the next watch
/// event (or the safety requeue) for the next pass.
///
/// The replica-count bounds keep the single-step shifts representable;
/// the length bound keeps the ready-count sum representable. Callers
/// outside the proof check both before calling.
pub fn decide_set(gs: &GratefulSet, pools: &Vec<GratefulSetPool>) -> (a: SetAction)
    requires
        pools@.len() <= 0x7fff_ffff,
        forall|i: int| 0 <= i < pools.deep_view().len() ==> pool_replicas_in_range(
            #[trigger] pools.deep_view()[i],
        ),
    ensures
        a.deep_view() == spec_decide(gs@, pools.deep_view()),
{
    let ghost gsv = gs@;
    let ghost pv = pools.deep_view();

    let mut want = gs.spec.pool();
    want.spec.sts_spec.replicas = Some(0);
    proof {
        assert(want@ =~= spec_want(gsv.spec));
        crate::revision::lemma_checksum_ignores_mutable(
            gsv.spec.sts_spec,
            Some(0i32),
            gsv.spec.sts_spec.template,
            gsv.spec.sts_spec.update_strategy,
        );
        assert(spec_want(gsv.spec).spec.sts_spec =~= (StatefulSetSpecView {
            replicas: Some(0i32),
            template: gsv.spec.sts_spec.template,
            update_strategy: gsv.spec.sts_spec.update_strategy,
            ..gsv.spec.sts_spec
        }));
    }
    let desired_hash = ImmutableSts(&want.spec.sts_spec).checksum();
    let ghost h = spec_checksum(spec_want(gsv.spec).spec.sts_spec);

    let (old_pools, cur, cur_found) = partition_pools(pools, desired_hash, &want);
    let ghost olds = old_pools_of(pv, h);
    let ghost curv = cur_pool_of(pv, h, spec_want(gsv.spec));

    // Converged template: every old pool can go.
    if eq_statefulset_spec(&cur.spec.sts_spec, &gs.spec.sts_spec) {
        if old_pools.len() == 0 {
            proof {
                assert(olds.len() == 0);
            }
            return SetAction::Noop;
        }
        let names = pool_names(&old_pools);
        return SetAction::DeleteOldPools { names };
    }

    // Template drift on a live current pool: patch it in place.
    let row_patch = if !cur_found {
        false
    } else {
        let live = match cur.spec.sts_spec.replicas {
            Some(x) => x > 0,
            None => false,
        };
        if !live {
            false
        } else {
            let want_sans = without_replicas(&want.spec.sts_spec);
            let cur_sans = without_replicas(&cur.spec.sts_spec);
            !eq_statefulset_spec(&want_sans, &cur_sans)
        }
    };
    if row_patch {
        let mut sts_spec = want.spec.sts_spec.clone();
        sts_spec.replicas = cur.spec.sts_spec.replicas;
        let labels = cur.labels.clone();
        let status = cur.status.clone();
        proof {
            crate::meta::lemma_cloned_vec_key_value(cur.labels, labels);
            if cur.status is Some {
                assert(cloned::<crate::gsp::GratefulSetPoolStatus>(
                    cur.status.unwrap(),
                    status.unwrap(),
                ));
            }
        }
        let pool = GratefulSetPool {
            name: cur.name.clone(),
            labels,
            owner: crate::meta::clone_opt_string(&cur.owner),
            spec: crate::gsp::GratefulSetPoolSpec { name: want.spec.name.clone(), sts_spec },
            status,
        };
        proof {
            assert(pool@ =~= patched_pool(curv, spec_want(gsv.spec)));
        }
        return SetAction::PatchTemplate { pool };
    }

    // No current pool yet: create it, at zero replicas.
    if !cur_found {
        return SetAction::CreateCurrent { pool: want };
    }

    // Only scale is left to converge. Count what is ready everywhere.
    proof {
        lemma_old_pools_in_range(pv, h);
        lemma_cur_pool_in_range(pv, h, spec_want(gsv.spec));
    }
    let ready: i64 = {
        let olds_ready = total_ready(&old_pools);
        let cur_ready = pool_ready_i32(&cur) as i64;
        olds_ready + cur_ready
    };
    let desired: i64 = match gs.spec.sts_spec.replicas {
        Some(x) => x as i64,
        None => 1,
    };

    if ready >= desired {
        // Scale down: drain the oldest old pool still holding
        // replicas, the smallest name first.
        match find_oldest_scalable(&old_pools) {
            Some(b) => {
                let mut target = old_pools[b].clone();
                proof {
                    assert(old_pools.deep_view()[b as int] == old_pools@[b as int]@);
                    lemma_oldest_scalable_member(olds);
                    assert(pool_scalable(olds[b as int]));
                }
                let reps = match target.spec.sts_spec.replicas {
                    Some(x) => x,
                    None => 1,
                };
                target.spec.sts_spec.replicas = Some(reps - 1);
                proof {
                    assert(target@ =~= drained_pool(old_pools.deep_view()[b as int]));
                }
                SetAction::ScaleDown { pool: target }
            },
            None => {
                let mut target = cur.clone();
                target.spec.delta_replicas(-1);
                proof {
                    assert(target@ =~= shifted_pool(curv, -1));
                }
                SetAction::ScaleDown { pool: target }
            },
        }
    } else {
        // Scale up: grant the current pool one more replica.
        let mut target = cur.clone();
        target.spec.delta_replicas(1);
        proof {
            assert(target@ =~= shifted_pool(curv, 1));
        }
        SetAction::ScaleUp { pool: target }
    }
}


// --- the owner marks ----------------------------------------------------------

/// Whether a pool carries the owner label and owner reference of the
/// set named `owner`.
pub open spec fn carries_owner_marks(p: GratefulSetPoolView, owner: Seq<char>) -> bool {
    &&& p.owner == Some(owner)
    &&& exists|i: int|
        0 <= i < p.labels.len() && (#[trigger] p.labels[i]) == (crate::meta::KeyValueView {
            key: crate::gs::spec_owner_label_key(),
            value: owner,
        })
}

/// Every pool the set reconciler writes — created, patched or scaled —
/// carries the set's owner label and owner reference, provided every
/// observed pool did. (The platform's garbage collection and the
/// list-by-label discovery both rest on this.)
pub proof fn lemma_decision_keeps_owner_marks(
    gs: GratefulSetView,
    pools: Seq<GratefulSetPoolView>,
)
    requires
        forall|i: int|
            0 <= i < pools.len() ==> carries_owner_marks(#[trigger] pools[i], gs.spec.name),
    ensures
        spec_decide(gs, pools) matches SetActionView::CreateCurrent { pool } ==> carries_owner_marks(
            pool,
            gs.spec.name,
        ),
        spec_decide(gs, pools) matches SetActionView::PatchTemplate { pool } ==> carries_owner_marks(
            pool,
            gs.spec.name,
        ),
        spec_decide(gs, pools) matches SetActionView::ScaleUp { pool } ==> carries_owner_marks(
            pool,
            gs.spec.name,
        ),
        spec_decide(gs, pools) matches SetActionView::ScaleDown { pool } ==> carries_owner_marks(
            pool,
            gs.spec.name,
        ),
{
    let want = spec_want(gs.spec);
    let h = spec_checksum(want.spec.sts_spec);
    let olds = old_pools_of(pools, h);
    let cur = cur_pool_of(pools, h, want);
    assert(carries_owner_marks(want, gs.spec.name)) by {
        assert(want.labels[0] == (crate::meta::KeyValueView {
            key: crate::gs::spec_owner_label_key(),
            value: gs.spec.name,
        }));
    }
    lemma_cur_marked(pools, h, want, gs.spec.name);
    lemma_olds_marked(pools, h, gs.spec.name);
    lemma_marks_move(cur, patched_pool(cur, want), gs.spec.name);
    lemma_marks_move(cur, shifted_pool(cur, 1), gs.spec.name);
    lemma_marks_move(cur, shifted_pool(cur, -1), gs.spec.name);
    if oldest_scalable(olds) is Some {
        let target = oldest_scalable(olds).unwrap();
        lemma_oldest_scalable_member(olds);
        lemma_marks_move(target, drained_pool(target), gs.spec.name);
    }
}

/// Owner marks ride along when only the specification changes.
proof fn lemma_marks_move(a: GratefulSetPoolView, b: GratefulSetPoolView, owner: Seq<char>)
    requires
        carries_owner_marks(a, owner),
        b.labels == a.labels,
        b.owner == a.owner,
    ensures
        carries_owner_marks(b, owner),
{
    let i = choose|i: int|
        0 <= i < a.labels.len() && (#[trigger] a.labels[i]) == (crate::meta::KeyValueView {
            key: crate::gs::spec_owner_label_key(),
            value: owner,
        });
    assert(b.labels[i] == a.labels[i]);
}

/// The current pool inherits the owner marks from the observed pools
/// (or from the default).
proof fn lemma_cur_marked(
    pools: Seq<GratefulSetPoolView>,
    h: u16,
    dflt: GratefulSetPoolView,
    owner: Seq<char>,
)
    requires
        forall|i: int| 0 <= i < pools.len() ==> carries_owner_marks(#[trigger] pools[i], owner),
        carries_owner_marks(dflt, owner),
    ensures
        carries_owner_marks(cur_pool_of(pools, h, dflt), owner),
    decreases pools.len(),
{
    if pools.len() > 0 {
        if pool_hash(pools.last()) == h {
            assert(carries_owner_marks(pools[pools.len() - 1], owner));
        } else {
            assert(forall|i: int| 0 <= i < pools.drop_last().len() ==> carries_owner_marks(
                #[trigger] pools.drop_last()[i],
                owner,
            ));
            lemma_cur_marked(pools.drop_last(), h, dflt, owner);
        }
    }
}

/// The old pools inherit the owner marks from the observed pools.
proof fn lemma_olds_marked(pools: Seq<GratefulSetPoolView>, h: u16, owner: Seq<char>)
    requires
        forall|i: int| 0 <= i < pools.len() ==> carries_owner_marks(#[trigger] pools[i], owner),
    ensures
        forall|j: int|
            0 <= j < old_pools_of(pools, h).len() ==> carries_owner_marks(
                #[trigger] old_pools_of(pools, h)[j],
                owner,
            ),
    decreases pools.len(),
{
    if pools.len() > 0 {
        assert(forall|i: int| 0 <= i < pools.drop_last().len() ==> carries_owner_marks(
            #[trigger] pools.drop_last()[i],
            owner,
        ));
        lemma_olds_marked(pools.drop_last(), h, owner);
        let rec = old_pools_of(pools.drop_last(), h);
        if pool_hash(pools.last()) != h {
            assert(carries_owner_marks(pools[pools.len() - 1], owner));
            assert forall|j: int| 0 <= j < old_pools_of(pools, h).len() implies carries_owner_marks(
                #[trigger] old_pools_of(pools, h)[j],
                owner,
            ) by {
                if j < rec.len() {
                    assert(old_pools_of(pools, h)[j] == rec[j]);
                } else {
                    assert(old_pools_of(pools, h)[j] == pools.last());
                }
            }
        }
    }
}

} // verus!
