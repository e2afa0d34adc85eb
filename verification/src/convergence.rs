//! What repeated reconciles do to a `GratefulSet`'s pools.
//!
//! This module models the loop around the set reconciler: the decided
//! action is applied to the pool list as a declarative API would apply
//! it, and between passes the cooperating platform settles every pool
//! (each reports exactly as many ready replicas as it declares). Over
//! that model it proves the two global guarantees of the design:
//!
//! - a capacity bound: at settled observation points the pools' ready
//!   total never exceeds the desired count plus one, and one step never
//!   costs more than one replica of what was ready;
//! - convergence: from any well-formed settled state, finitely many
//!   passes reach the state with exactly one pool, whose template (the
//!   replica count included) is the set's.

use crate::gs::GratefulSetView;
use crate::gs::spec_pool_name;
use crate::gsp::GratefulSetPoolStatusView;
use crate::gsp::GratefulSetPoolView;
use crate::gsp::spec_without_replicas;
use crate::pool_reconcile::replicas_or_one;
use crate::revision::spec_checksum;
use crate::set_reconcile::SetActionView;
use crate::set_reconcile::cur_observed;
use crate::set_reconcile::cur_pool_of;
use crate::set_reconcile::names_of;
use crate::set_reconcile::old_pools_of;
use crate::set_reconcile::pool_hash;
use crate::set_reconcile::pool_ready;
use crate::set_reconcile::pool_replicas_or_one;
use crate::set_reconcile::spec_decide;
use crate::set_reconcile::spec_desired;
use crate::set_reconcile::spec_want;
use crate::set_reconcile::sum_ready;
use crate::sts::StatefulSetStatus;
use vstd::prelude::*;

verus! {

// --- the model of the API ---------------------------------------------------

/// The pools that survive deleting the named ones.
pub open spec fn remove_named(
    pools: Seq<GratefulSetPoolView>,
    names: Seq<Seq<char>>,
) -> Seq<GratefulSetPoolView>
    decreases pools.len(),
{
    if pools.len() == 0 {
        Seq::empty()
    } else {
        let rest = remove_named(pools.drop_last(), names);
        if names.contains(pools.last().name) {
            rest
        } else {
            rest.push(pools.last())
        }
    }
}

/// The pool list after applying a pool (server-side apply semantics on
/// a list with unique names): the pool with the same name is replaced.
pub open spec fn replace_named(
    pools: Seq<GratefulSetPoolView>,
    p: GratefulSetPoolView,
) -> Seq<GratefulSetPoolView> {
    pools.map_values(|q: GratefulSetPoolView| if q.name == p.name { p } else { q })
}

/// What the API does with one decided action.
pub open spec fn apply_set_action(
    pools: Seq<GratefulSetPoolView>,
    a: SetActionView,
) -> Seq<GratefulSetPoolView> {
    match a {
        SetActionView::Noop => pools,
        SetActionView::DeleteOldPools { names } => remove_named(pools, names),
        SetActionView::PatchTemplate { pool } => replace_named(pools, pool),
        SetActionView::CreateCurrent { pool } => pools.push(pool),
        SetActionView::ScaleDown { pool } => replace_named(pools, pool),
        SetActionView::ScaleUp { pool } => replace_named(pools, pool),
    }
}

/// A pool as the cooperating platform reports it once the dust has
/// settled: every counter equals the declared replica count.
pub open spec fn settle_pool(p: GratefulSetPoolView) -> GratefulSetPoolView {
    let r = replicas_or_one(p.spec.sts_spec.replicas);
    GratefulSetPoolView {
        status: Some(
            GratefulSetPoolStatusView {
                sts_status: StatefulSetStatus {
                    current_replicas: Some(r),
                    ready_replicas: Some(r),
                    replicas: r,
                    updated_replicas: Some(r),
                },
                scale_down_records: Seq::empty(),
            },
        ),
        ..p
    }
}

pub open spec fn settle(pools: Seq<GratefulSetPoolView>) -> Seq<GratefulSetPoolView> {
    pools.map_values(|p: GratefulSetPoolView| settle_pool(p))
}

/// One observe-decide-apply-settle round of the loop.
pub open spec fn step(gs: GratefulSetView, pools: Seq<GratefulSetPoolView>) -> Seq<
    GratefulSetPoolView,
> {
    settle(apply_set_action(pools, spec_decide(gs, pools)))
}

/// The pool list after `n` rounds.
pub open spec fn run(gs: GratefulSetView, pools: Seq<GratefulSetPoolView>, n: nat) -> Seq<
    GratefulSetPoolView,
>
    decreases n,
{
    if n == 0 {
        pools
    } else {
        step(gs, run(gs, pools, (n - 1) as nat))
    }
}

// --- well-formedness ---------------------------------------------------------

/// The revision hash of the pool the set wants.
pub open spec fn desired_hash_of(gs: GratefulSetView) -> u16 {
    spec_checksum(spec_want(gs.spec).spec.sts_spec)
}

/// A pool the model tracks: a declared replica count that a single
/// step can shift in either direction.
pub open spec fn wf_pool(p: GratefulSetPoolView) -> bool {
    p.spec.sts_spec.replicas matches Some(x) && 0 <= x < i32::MAX
}

/// A set whose desired count is representable after one more grant.
pub open spec fn wf_gs(gs: GratefulSetView) -> bool {
    gs.spec.sts_spec.replicas matches Some(x) ==> 0 <= x < i32::MAX
}

pub open spec fn distinct_names(pools: Seq<GratefulSetPoolView>) -> bool {
    forall|i: int, j: int| 0 <= i < j < pools.len() ==> pools[i].name != pools[j].name
}

/// At most one pool carries the desired revision hash — the invariant
/// the naming scheme maintains.
pub open spec fn at_most_one_current(pools: Seq<GratefulSetPoolView>, h: u16) -> bool {
    forall|i: int, j: int|
        0 <= i < pools.len() && 0 <= j < pools.len() && pool_hash(#[trigger] pools[i]) == h
            && pool_hash(#[trigger] pools[j]) == h ==> i == j
}

/// A pool bearing the desired pool's name carries the desired hash:
/// the name encodes the revision.
pub open spec fn names_encode_revision(
    gs: GratefulSetView,
    pools: Seq<GratefulSetPoolView>,
) -> bool {
    forall|i: int|
        0 <= i < pools.len() && (#[trigger] pools[i]).name == spec_pool_name(gs.spec)
            ==> pool_hash(pools[i]) == desired_hash_of(gs)
}

/// The whole well-formedness of an observed world.
pub open spec fn wf_world(gs: GratefulSetView, pools: Seq<GratefulSetPoolView>) -> bool {
    &&& wf_gs(gs)
    &&& distinct_names(pools)
    &&& at_most_one_current(pools, desired_hash_of(gs))
    &&& names_encode_revision(gs, pools)
    &&& forall|i: int| 0 <= i < pools.len() ==> wf_pool(#[trigger] pools[i])
}

/// A settled observation point: every pool reports exactly as many
/// ready replicas as it declares.
pub open spec fn settled(pools: Seq<GratefulSetPoolView>) -> bool {
    forall|i: int|
        0 <= i < pools.len() ==> pool_ready(#[trigger] pools[i]) == pool_replicas_or_one(pools[i])
}

/// The converged state: exactly one pool, and its template — replica
/// count included — is the set's.
pub open spec fn converged(gs: GratefulSetView, pools: Seq<GratefulSetPoolView>) -> bool {
    pools.len() == 1 && pools[0].spec.sts_spec == gs.spec.sts_spec
}

// --- sums --------------------------------------------------------------------

/// The sum of the pools' declared replica counts.
pub open spec fn total_rep(pools: Seq<GratefulSetPoolView>) -> int
    decreases pools.len(),
{
    if pools.len() == 0 {
        0
    } else {
        total_rep(pools.drop_last()) + pool_replicas_or_one(pools.last())
    }
}

proof fn lemma_total_rep_nonneg(pools: Seq<GratefulSetPoolView>)
    requires
        forall|i: int| 0 <= i < pools.len() ==> pool_replicas_or_one(#[trigger] pools[i]) >= 0,
    ensures
        total_rep(pools) >= 0,
    decreases pools.len(),
{
    if pools.len() > 0 {
        assert(forall|i: int| 0 <= i < pools.drop_last().len() ==> pool_replicas_or_one(
            #[trigger] pools.drop_last()[i],
        ) >= 0);
        lemma_total_rep_nonneg(pools.drop_last());
        assert(pool_replicas_or_one(pools[pools.len() - 1]) >= 0);
    }
}

/// At a settled point the ready total is the declared total.
proof fn lemma_sum_ready_eq_total(pools: Seq<GratefulSetPoolView>)
    requires
        settled(pools),
    ensures
        sum_ready(pools) == total_rep(pools),
    decreases pools.len(),
{
    if pools.len() > 0 {
        assert(settled(pools.drop_last())) by {
            assert(forall|i: int| 0 <= i < pools.drop_last().len() ==> pools.drop_last()[i]
                == #[trigger] pools[i]);
        }
        lemma_sum_ready_eq_total(pools.drop_last());
        assert(pool_ready(pools[pools.len() - 1]) == pool_replicas_or_one(pools[pools.len() - 1]));
    }
}

// --- membership of the classification ---------------------------------------

/// Every old pool is one of the observed pools (of a foreign hash).
proof fn lemma_olds_are_members(pools: Seq<GratefulSetPoolView>, h: u16)
    ensures
        forall|j: int|
            0 <= j < old_pools_of(pools, h).len() ==> exists|i: int|
                0 <= i < pools.len() && #[trigger] old_pools_of(pools, h)[j] == pools[i]
                    && pool_hash(pools[i]) != h,
    decreases pools.len(),
{
    if pools.len() > 0 {
        lemma_olds_are_members(pools.drop_last(), h);
        let init = pools.drop_last();
        let olds = old_pools_of(pools, h);
        assert forall|j: int| 0 <= j < olds.len() implies exists|i: int|
            0 <= i < pools.len() && #[trigger] olds[j] == pools[i] && pool_hash(pools[i]) != h by {
            if j < old_pools_of(init, h).len() {
                assert(olds[j] == old_pools_of(init, h)[j]);
                let i = choose|i: int|
                    0 <= i < init.len() && #[trigger] old_pools_of(init, h)[j] == init[i]
                        && pool_hash(init[i]) != h;
                assert(pools[i] == init[i]);
            } else {
                assert(pool_hash(pools.last()) != h);
                assert(olds[j] == pools[pools.len() - 1]);
            }
        }
    }
}

/// When some pool carries the desired hash, the current pool is such a
/// member; otherwise it is the given default.
proof fn lemma_cur_is_member(pools: Seq<GratefulSetPoolView>, h: u16, dflt: GratefulSetPoolView)
    ensures
        cur_observed(pools, h) ==> exists|k: int|
            0 <= k < pools.len() && cur_pool_of(pools, h, dflt) == pools[k] && pool_hash(pools[k])
                == h,
        !cur_observed(pools, h) ==> cur_pool_of(pools, h, dflt) == dflt,
    decreases pools.len(),
{
    if pools.len() > 0 {
        lemma_cur_is_member(pools.drop_last(), h, dflt);
        let init = pools.drop_last();
        if pool_hash(pools.last()) == h {
            assert(cur_pool_of(pools, h, dflt) == pools[pools.len() - 1]);
            assert(cur_observed(pools, h)) by {
                assert(pool_hash(pools[pools.len() - 1]) == h);
            }
        } else {
            assert(cur_observed(pools, h) == cur_observed(init, h)) by {
                crate::convergence::lemma_cur_observed_take(pools, h);
            }
            if cur_observed(init, h) {
                let k = choose|k: int|
                    0 <= k < init.len() && cur_pool_of(init, h, dflt) == init[k] && pool_hash(
                        init[k],
                    ) == h;
                assert(pools[k] == init[k]);
            }
        }
    }
}

/// Observing the current revision among all pools is observing it
/// among all but the last, when the last is of a foreign revision.
proof fn lemma_cur_observed_take(pools: Seq<GratefulSetPoolView>, h: u16)
    requires
        pools.len() > 0,
        pool_hash(pools.last()) != h,
    ensures
        cur_observed(pools, h) == cur_observed(pools.drop_last(), h),
{
    let init = pools.drop_last();
    if cur_observed(pools, h) {
        let j = choose|j: int| 0 <= j < pools.len() && pool_hash(#[trigger] pools[j]) == h;
        assert(j < init.len());
        assert(init[j] == pools[j]);
        assert(pool_hash(init[j]) == h);
    }
    if cur_observed(init, h) {
        let j = choose|j: int| 0 <= j < init.len() && pool_hash(#[trigger] init[j]) == h;
        assert(pools[j] == init[j]);
        assert(pool_hash(pools[j]) == h);
    }
}

/// The observed pools split, by declared and by ready counts, into the
/// old pools and the current one (when one is observed); with none
/// observed, every pool is old.
proof fn lemma_split_sums(pools: Seq<GratefulSetPoolView>, h: u16, dflt: GratefulSetPoolView)
    requires
        at_most_one_current(pools, h),
    ensures
        cur_observed(pools, h) ==> {
            &&& total_rep(pools) == total_rep(old_pools_of(pools, h)) + pool_replicas_or_one(
                cur_pool_of(pools, h, dflt),
            )
            &&& sum_ready(pools) == sum_ready(old_pools_of(pools, h)) + pool_ready(
                cur_pool_of(pools, h, dflt),
            )
        },
        !cur_observed(pools, h) ==> old_pools_of(pools, h) == pools,
    decreases pools.len(),
{
    if pools.len() == 0 {
        assert(old_pools_of(pools, h) =~= pools);
    } else {
        let init = pools.drop_last();
        assert(at_most_one_current(init, h)) by {
            assert(forall|i: int| 0 <= i < init.len() ==> #[trigger] init[i] == pools[i]);
        }
        lemma_split_sums(init, h, dflt);
        if pool_hash(pools.last()) == h {
            // The last pool is the current one, and no earlier pool
            // can match.
            assert(!cur_observed(init, h)) by {
                if cur_observed(init, h) {
                    let j = choose|j: int| 0 <= j < init.len() && pool_hash(#[trigger] init[j]) == h;
                    assert(pools[j] == init[j]);
                    assert(j == pools.len() - 1);
                }
            }
            assert(cur_observed(pools, h)) by {
                assert(pool_hash(pools[pools.len() - 1]) == h);
            }
            assert(old_pools_of(pools, h) == init);
            assert(cur_pool_of(pools, h, dflt) == pools.last());
        } else {
            lemma_cur_observed_take(pools, h);
            let olds = old_pools_of(pools, h);
            assert(olds == old_pools_of(init, h).push(pools.last()));
            assert(olds.drop_last() =~= old_pools_of(init, h));
            assert(olds.last() == pools.last());
            assert(total_rep(olds) == total_rep(old_pools_of(init, h)) + pool_replicas_or_one(
                pools.last(),
            ));
            assert(sum_ready(olds) == sum_ready(old_pools_of(init, h)) + pool_ready(pools.last()));
            if cur_observed(pools, h) {
                assert(cur_pool_of(pools, h, dflt) == cur_pool_of(init, h, dflt));
            } else {
                assert(old_pools_of(pools, h) =~= pools);
            }
        }
    }
}


// --- how one applied pool changes the list -----------------------------------

/// With unique names, applying a pool that bears an observed pool's
/// name replaces exactly that pool.
proof fn lemma_replace_is_update(pools: Seq<GratefulSetPoolView>, k: int, p: GratefulSetPoolView)
    requires
        0 <= k < pools.len(),
        p.name == pools[k].name,
        distinct_names(pools),
    ensures
        replace_named(pools, p) == pools.update(k, p),
{
    assert forall|i: int| 0 <= i < pools.len() implies replace_named(pools, p)[i] == pools.update(
        k,
        p,
    )[i] by {
        if i != k {
            assert(pools[i].name != pools[k].name);
        }
    }
    assert(replace_named(pools, p) =~= pools.update(k, p));
}

/// Replacing one pool shifts the declared total by the difference.
proof fn lemma_total_update(pools: Seq<GratefulSetPoolView>, k: int, p: GratefulSetPoolView)
    requires
        0 <= k < pools.len(),
    ensures
        total_rep(pools.update(k, p)) == total_rep(pools) - pool_replicas_or_one(pools[k])
            + pool_replicas_or_one(p),
    decreases pools.len(),
{
    let upd = pools.update(k, p);
    if k == pools.len() - 1 {
        assert(upd.drop_last() =~= pools.drop_last());
        assert(upd.last() == p);
    } else {
        assert(upd.drop_last() =~= pools.drop_last().update(k, p));
        assert(upd.last() == pools.last());
        lemma_total_update(pools.drop_last(), k, p);
    }
}

/// Replacing an old pool by a pool of the same foreign revision leaves
/// the current pool alone and shifts the old total by the difference.
proof fn lemma_classify_update_old(
    pools: Seq<GratefulSetPoolView>,
    h: u16,
    dflt: GratefulSetPoolView,
    k: int,
    p: GratefulSetPoolView,
)
    requires
        0 <= k < pools.len(),
        pool_hash(pools[k]) != h,
        pool_hash(p) != h,
    ensures
        cur_observed(pools.update(k, p), h) == cur_observed(pools, h),
        cur_pool_of(pools.update(k, p), h, dflt) == cur_pool_of(pools, h, dflt),
        total_rep(old_pools_of(pools.update(k, p), h)) == total_rep(old_pools_of(pools, h))
            - pool_replicas_or_one(pools[k]) + pool_replicas_or_one(p),
    decreases pools.len(),
{
    let upd = pools.update(k, p);
    if k == pools.len() - 1 {
        assert(upd.drop_last() =~= pools.drop_last());
        assert(upd.last() == p);
        assert(old_pools_of(upd, h) == old_pools_of(pools.drop_last(), h).push(p));
        assert(old_pools_of(pools, h) == old_pools_of(pools.drop_last(), h).push(pools.last()));
        assert(old_pools_of(upd, h).drop_last() =~= old_pools_of(pools.drop_last(), h));
        assert(old_pools_of(pools, h).drop_last() =~= old_pools_of(pools.drop_last(), h));
        lemma_cur_observed_take(pools, h);
        lemma_cur_observed_take(upd, h);
    } else {
        assert(upd.drop_last() =~= pools.drop_last().update(k, p));
        assert(upd.last() == pools.last());
        lemma_classify_update_old(pools.drop_last(), h, dflt, k, p);
        if pool_hash(pools.last()) == h {
            assert(cur_observed(pools, h)) by {
                assert(pool_hash(pools[pools.len() - 1]) == h);
            }
            assert(cur_observed(upd, h)) by {
                assert(pool_hash(upd[upd.len() - 1]) == h);
            }
            assert(old_pools_of(upd, h) == old_pools_of(upd.drop_last(), h));
        } else {
            lemma_cur_observed_take(pools, h);
            lemma_cur_observed_take(upd, h);
            let oi = old_pools_of(pools.drop_last(), h);
            let ou = old_pools_of(upd.drop_last(), h);
            assert(old_pools_of(upd, h) == ou.push(pools.last()));
            assert(old_pools_of(pools, h) == oi.push(pools.last()));
            assert(ou.push(pools.last()).drop_last() =~= ou);
            assert(oi.push(pools.last()).drop_last() =~= oi);
        }
    }
}

/// Replacing the one current pool by another pool of the current
/// revision leaves the old pools alone and makes the new pool current.
proof fn lemma_classify_update_cur(
    pools: Seq<GratefulSetPoolView>,
    h: u16,
    dflt: GratefulSetPoolView,
    k: int,
    p: GratefulSetPoolView,
)
    requires
        0 <= k < pools.len(),
        pool_hash(pools[k]) == h,
        pool_hash(p) == h,
        at_most_one_current(pools, h),
    ensures
        cur_observed(pools.update(k, p), h),
        cur_pool_of(pools.update(k, p), h, dflt) == p,
        old_pools_of(pools.update(k, p), h) == old_pools_of(pools, h),
    decreases pools.len(),
{
    let upd = pools.update(k, p);
    assert(cur_observed(upd, h)) by {
        assert(pool_hash(upd[k]) == h);
    }
    if k == pools.len() - 1 {
        assert(upd.drop_last() =~= pools.drop_last());
        assert(upd.last() == p);
    } else {
        assert(upd.drop_last() =~= pools.drop_last().update(k, p));
        assert(upd.last() == pools.last());
        assert(pool_hash(pools.last()) != h) by {
            if pool_hash(pools[pools.len() - 1]) == h {
                assert(pool_hash(pools[k]) == h);
            }
        }
        assert(at_most_one_current(pools.drop_last(), h)) by {
            assert(forall|i: int| 0 <= i < pools.drop_last().len() ==> pools.drop_last()[i]
                == #[trigger] pools[i]);
        }
        lemma_classify_update_cur(pools.drop_last(), h, dflt, k, p);
        let oi = old_pools_of(pools.drop_last(), h);
        assert(old_pools_of(upd, h) == oi.push(pools.last()));
        assert(old_pools_of(pools, h) == oi.push(pools.last()));
    }
}

/// Creating the wanted pool when none of its revision exists appends
/// it as the current pool and leaves the old pools alone.
proof fn lemma_classify_push(
    pools: Seq<GratefulSetPoolView>,
    h: u16,
    dflt: GratefulSetPoolView,
    w: GratefulSetPoolView,
)
    requires
        pool_hash(w) == h,
    ensures
        cur_observed(pools.push(w), h),
        cur_pool_of(pools.push(w), h, dflt) == w,
        old_pools_of(pools.push(w), h) == old_pools_of(pools, h),
{
    let ext = pools.push(w);
    assert(ext.last() == w);
    assert(ext.drop_last() =~= pools);
    assert(cur_observed(ext, h)) by {
        assert(pool_hash(ext[ext.len() - 1]) == h);
    }
}

// --- settling ------------------------------------------------------------------

/// Settling changes only the reported status: the name, the revision
/// hash and the declared replica count of every pool stay.
proof fn lemma_settle_pool_facts(p: GratefulSetPoolView)
    ensures
        settle_pool(p).name == p.name,
        settle_pool(p).spec == p.spec,
        pool_hash(settle_pool(p)) == pool_hash(p),
        pool_replicas_or_one(settle_pool(p)) == pool_replicas_or_one(p),
        pool_ready(settle_pool(p)) == pool_replicas_or_one(p),
{
}

/// A settled list is settled, with the declared counts kept.
proof fn lemma_settle_settles(pools: Seq<GratefulSetPoolView>)
    ensures
        settle(pools).len() == pools.len(),
        settled(settle(pools)),
        total_rep(settle(pools)) == total_rep(pools),
    decreases pools.len(),
{
    if pools.len() > 0 {
        assert(settle(pools).drop_last() =~= settle(pools.drop_last()));
        assert(settle(pools).last() == settle_pool(pools.last()));
        lemma_settle_settles(pools.drop_last());
        lemma_settle_pool_facts(pools.last());
        assert forall|i: int| 0 <= i < settle(pools).len() implies pool_ready(
            #[trigger] settle(pools)[i],
        ) == pool_replicas_or_one(settle(pools)[i]) by {
            assert(settle(pools)[i] == settle_pool(pools[i]));
            lemma_settle_pool_facts(pools[i]);
        }
    } else {
        assert forall|i: int| 0 <= i < settle(pools).len() implies pool_ready(
            #[trigger] settle(pools)[i],
        ) == pool_replicas_or_one(settle(pools)[i]) by {}
    }
}

/// Settling commutes with the classification.
proof fn lemma_settle_classify(pools: Seq<GratefulSetPoolView>, h: u16, dflt: GratefulSetPoolView)
    ensures
        cur_observed(settle(pools), h) == cur_observed(pools, h),
        old_pools_of(settle(pools), h) == settle(old_pools_of(pools, h)),
        cur_observed(pools, h) ==> cur_pool_of(settle(pools), h, dflt) == settle_pool(
            cur_pool_of(pools, h, dflt),
        ),
        !cur_observed(pools, h) ==> cur_pool_of(settle(pools), h, dflt) == dflt,
    decreases pools.len(),
{
    assert(cur_observed(settle(pools), h) == cur_observed(pools, h)) by {
        if cur_observed(settle(pools), h) {
            let j = choose|j: int|
                0 <= j < settle(pools).len() && pool_hash(#[trigger] settle(pools)[j]) == h;
            assert(settle(pools)[j] == settle_pool(pools[j]));
            lemma_settle_pool_facts(pools[j]);
            assert(pool_hash(pools[j]) == h);
        }
        if cur_observed(pools, h) {
            let j = choose|j: int| 0 <= j < pools.len() && pool_hash(#[trigger] pools[j]) == h;
            assert(settle(pools)[j] == settle_pool(pools[j]));
            lemma_settle_pool_facts(pools[j]);
            assert(pool_hash(settle(pools)[j]) == h);
        }
    }
    if pools.len() == 0 {
        assert(old_pools_of(settle(pools), h) =~= settle(old_pools_of(pools, h)));
    } else {
        assert(settle(pools).drop_last() =~= settle(pools.drop_last()));
        assert(settle(pools).last() == settle_pool(pools.last()));
        lemma_settle_pool_facts(pools.last());
        lemma_settle_classify(pools.drop_last(), h, dflt);
        if pool_hash(pools.last()) != h {
            let oi = old_pools_of(pools.drop_last(), h);
            assert(old_pools_of(pools, h) == oi.push(pools.last()));
            assert(old_pools_of(settle(pools), h) == old_pools_of(settle(pools.drop_last()), h)
                .push(settle_pool(pools.last())));
            assert(settle(oi.push(pools.last())) =~= settle(oi).push(settle_pool(pools.last())));
            lemma_cur_observed_take(pools, h);
            lemma_cur_observed_take(settle(pools), h);
        } else {
            assert(old_pools_of(settle(pools), h) == old_pools_of(settle(pools.drop_last()), h));
        }
    }
}


// --- deleting the old pools ---------------------------------------------------

/// Deleting by a name list that covers every pool deletes everything.
proof fn lemma_remove_all(pools: Seq<GratefulSetPoolView>, names: Seq<Seq<char>>)
    requires
        forall|i: int| 0 <= i < pools.len() ==> names.contains((#[trigger] pools[i]).name),
    ensures
        remove_named(pools, names) == Seq::<GratefulSetPoolView>::empty(),
    decreases pools.len(),
{
    if pools.len() > 0 {
        assert(forall|i: int| 0 <= i < pools.drop_last().len() ==> pools.drop_last()[i]
            == #[trigger] pools[i]);
        lemma_remove_all(pools.drop_last(), names);
        assert(names.contains(pools[pools.len() - 1].name));
    }
}

/// Deleting by a name list that covers exactly the foreign-revision
/// pools keeps exactly the current pool.
proof fn lemma_remove_keeps_current(
    pools: Seq<GratefulSetPoolView>,
    h: u16,
    dflt: GratefulSetPoolView,
    names: Seq<Seq<char>>,
)
    requires
        forall|i: int|
            0 <= i < pools.len() && pool_hash(#[trigger] pools[i]) != h ==> names.contains(
                pools[i].name,
            ),
        forall|i: int|
            0 <= i < pools.len() && pool_hash(#[trigger] pools[i]) == h ==> !names.contains(
                pools[i].name,
            ),
        at_most_one_current(pools, h),
        cur_observed(pools, h),
    ensures
        remove_named(pools, names) == seq![cur_pool_of(pools, h, dflt)],
    decreases pools.len(),
{
    let init = pools.drop_last();
    assert(pools.len() > 0);
    assert(forall|i: int| 0 <= i < init.len() ==> init[i] == #[trigger] pools[i]);
    if pool_hash(pools.last()) == h {
        assert(pool_hash(pools[pools.len() - 1]) == h);
        assert(!names.contains(pools.last().name));
        assert(forall|i: int| 0 <= i < init.len() ==> pool_hash(#[trigger] init[i]) != h) by {
            assert forall|i: int| 0 <= i < init.len() implies pool_hash(#[trigger] init[i]) != h by {
                if pool_hash(init[i]) == h {
                    assert(pool_hash(pools[i]) == h);
                }
            }
        }
        lemma_remove_all(init, names);
        assert(remove_named(pools, names) =~= seq![pools.last()]);
        assert(cur_pool_of(pools, h, dflt) == pools.last());
    } else {
        assert(pool_hash(pools[pools.len() - 1]) != h);
        assert(names.contains(pools.last().name));
        lemma_cur_observed_take(pools, h);
        lemma_remove_keeps_current(init, h, dflt, names);
        assert(remove_named(pools, names) == remove_named(init, names));
        assert(cur_pool_of(pools, h, dflt) == cur_pool_of(init, h, dflt));
    }
}

/// Every foreign-revision pool's name is on the old pools' name list.
proof fn lemma_old_names_complete(pools: Seq<GratefulSetPoolView>, h: u16)
    ensures
        forall|i: int|
            0 <= i < pools.len() && pool_hash(#[trigger] pools[i]) != h ==> names_of(
                old_pools_of(pools, h),
            ).contains(pools[i].name),
    decreases pools.len(),
{
    if pools.len() > 0 {
        let init = pools.drop_last();
        lemma_old_names_complete(init, h);
        assert forall|i: int|
            0 <= i < pools.len() && pool_hash(#[trigger] pools[i]) != h implies names_of(
            old_pools_of(pools, h),
        ).contains(pools[i].name) by {
            let olds = old_pools_of(pools, h);
            if i < init.len() {
                assert(init[i] == pools[i]);
                let ns = names_of(old_pools_of(init, h));
                let j = choose|j: int| 0 <= j < ns.len() && ns[j] == pools[i].name;
                if pool_hash(pools.last()) != h {
                    assert(olds == old_pools_of(init, h).push(pools.last()));
                    assert(names_of(olds)[j] == olds[j].name);
                    assert(olds[j] == old_pools_of(init, h)[j]);
                    assert(names_of(olds)[j] == pools[i].name);
                } else {
                    assert(olds == old_pools_of(init, h));
                    assert(names_of(olds)[j] == ns[j]);
                }
            } else {
                assert(pool_hash(pools.last()) != h);
                assert(olds.last() == pools.last());
                assert(names_of(olds)[olds.len() - 1] == pools[i].name);
            }
        }
    }
}

/// A current-revision pool's name is not on the old pools' name list.
proof fn lemma_cur_name_not_old(pools: Seq<GratefulSetPoolView>, h: u16, k: int)
    requires
        0 <= k < pools.len(),
        pool_hash(pools[k]) == h,
        distinct_names(pools),
    ensures
        !names_of(old_pools_of(pools, h)).contains(pools[k].name),
{
    let olds = old_pools_of(pools, h);
    let ns = names_of(olds);
    if ns.contains(pools[k].name) {
        let j = choose|j: int| 0 <= j < ns.len() && ns[j] == pools[k].name;
        assert(ns[j] == olds[j].name);
        lemma_olds_are_members(pools, h);
        let m = choose|m: int|
            0 <= m < pools.len() && #[trigger] olds[j] == pools[m] && pool_hash(pools[m]) != h;
        assert(m != k);
        assert(pools[m].name != pools[k].name);
    }
}

/// When no pool is old, every pool carries the current revision.
proof fn lemma_olds_empty(pools: Seq<GratefulSetPoolView>, h: u16)
    requires
        old_pools_of(pools, h).len() == 0,
    ensures
        forall|i: int| 0 <= i < pools.len() ==> pool_hash(#[trigger] pools[i]) == h,
    decreases pools.len(),
{
    if pools.len() > 0 {
        assert(pool_hash(pools.last()) == h);
        lemma_olds_empty(pools.drop_last(), h);
        assert forall|i: int| 0 <= i < pools.len() implies pool_hash(#[trigger] pools[i]) == h by {
            if i < pools.len() - 1 {
                assert(pools.drop_last()[i] == pools[i]);
            }
        }
    }
}

/// When no old pool is scalable, none holds replicas.
proof fn lemma_oldest_none(olds: Seq<GratefulSetPoolView>)
    requires
        crate::set_reconcile::oldest_scalable(olds) is None,
    ensures
        forall|j: int| 0 <= j < olds.len() ==> !crate::set_reconcile::pool_scalable(
            #[trigger] olds[j],
        ),
    decreases olds.len(),
{
    if olds.len() > 0 {
        assert(!crate::set_reconcile::pool_scalable(olds.last()));
        lemma_oldest_none(olds.drop_last());
        assert forall|j: int| 0 <= j < olds.len() implies !crate::set_reconcile::pool_scalable(
            #[trigger] olds[j],
        ) by {
            if j < olds.len() - 1 {
                assert(olds.drop_last()[j] == olds[j]);
            }
        }
    }
}

/// Pools without replicas sum to nothing.
proof fn lemma_total_zero(olds: Seq<GratefulSetPoolView>)
    requires
        forall|j: int| 0 <= j < olds.len() ==> pool_replicas_or_one(#[trigger] olds[j]) == 0,
    ensures
        total_rep(olds) == 0,
    decreases olds.len(),
{
    if olds.len() > 0 {
        assert(forall|j: int| 0 <= j < olds.drop_last().len() ==> olds.drop_last()[j]
            == #[trigger] olds[j]);
        lemma_total_zero(olds.drop_last());
        assert(pool_replicas_or_one(olds[olds.len() - 1]) == 0);
    }
}

// --- the distance from convergence --------------------------------------------

/// First component: is the current pool still to be created?
pub open spec fn measure_create(gs: GratefulSetView, pools: Seq<GratefulSetPoolView>) -> int {
    if cur_observed(pools, desired_hash_of(gs)) {
        0
    } else {
        1
    }
}

/// Second component: does the current pool's template still drift from
/// the set's in some dimension other than scale?
pub open spec fn measure_drift(gs: GratefulSetView, pools: Seq<GratefulSetPoolView>) -> int {
    let cur = cur_pool_of(pools, desired_hash_of(gs), spec_want(gs.spec));
    if spec_without_replicas(cur.spec.sts_spec) != spec_without_replicas(
        spec_want(gs.spec).spec.sts_spec,
    ) {
        1
    } else {
        0
    }
}

/// Third component: how far the current pool's replica count is from
/// the desired one.
pub open spec fn measure_scale(gs: GratefulSetView, pools: Seq<GratefulSetPoolView>) -> int {
    let cur = cur_pool_of(pools, desired_hash_of(gs), spec_want(gs.spec));
    let d = spec_desired(gs.spec);
    let r = pool_replicas_or_one(cur);
    if d >= r {
        d - r
    } else {
        r - d
    }
}

/// Fourth component: the replicas still to be drained from old pools.
pub open spec fn measure_drain(gs: GratefulSetView, pools: Seq<GratefulSetPoolView>) -> int {
    total_rep(old_pools_of(pools, desired_hash_of(gs)))
}


// --- preservation of well-formedness ------------------------------------------

/// Settling preserves well-formedness (it changes no name, hash or
/// declared count).
proof fn lemma_wf_settle(gs: GratefulSetView, x: Seq<GratefulSetPoolView>)
    requires
        wf_world(gs, x),
    ensures
        wf_world(gs, settle(x)),
{
    let sx = settle(x);
    assert forall|i: int| 0 <= i < sx.len() implies wf_pool(#[trigger] sx[i]) by {
        assert(sx[i] == settle_pool(x[i]));
        lemma_settle_pool_facts(x[i]);
        assert(wf_pool(x[i]));
    }
    assert forall|i: int, j: int| 0 <= i < j < sx.len() implies sx[i].name != sx[j].name by {
        assert(sx[i] == settle_pool(x[i]));
        assert(sx[j] == settle_pool(x[j]));
        lemma_settle_pool_facts(x[i]);
        lemma_settle_pool_facts(x[j]);
    }
    let h = desired_hash_of(gs);
    assert forall|i: int, j: int|
        0 <= i < sx.len() && 0 <= j < sx.len() && pool_hash(#[trigger] sx[i]) == h && pool_hash(
            #[trigger] sx[j],
        ) == h implies i == j by {
        assert(sx[i] == settle_pool(x[i]));
        assert(sx[j] == settle_pool(x[j]));
        lemma_settle_pool_facts(x[i]);
        lemma_settle_pool_facts(x[j]);
        assert(pool_hash(x[i]) == h && pool_hash(x[j]) == h);
    }
    assert forall|i: int|
        0 <= i < sx.len() && (#[trigger] sx[i]).name == spec_pool_name(gs.spec) implies pool_hash(
        sx[i],
    ) == h by {
        assert(sx[i] == settle_pool(x[i]));
        lemma_settle_pool_facts(x[i]);
        assert(x[i].name == spec_pool_name(gs.spec));
    }
}

/// Replacing a pool by one of the same name, the same revision side
/// (desired or foreign) and a sound replica count preserves
/// well-formedness.
proof fn lemma_wf_update(
    gs: GratefulSetView,
    pools: Seq<GratefulSetPoolView>,
    k: int,
    p: GratefulSetPoolView,
)
    requires
        wf_world(gs, pools),
        0 <= k < pools.len(),
        p.name == pools[k].name,
        wf_pool(p),
        (pool_hash(p) == desired_hash_of(gs)) == (pool_hash(pools[k]) == desired_hash_of(gs)),
    ensures
        wf_world(gs, pools.update(k, p)),
{
    let upd = pools.update(k, p);
    let h = desired_hash_of(gs);
    assert forall|i: int, j: int| 0 <= i < j < upd.len() implies upd[i].name != upd[j].name by {
        assert(pools[i].name != pools[j].name);
    }
    assert forall|i: int, j: int|
        0 <= i < upd.len() && 0 <= j < upd.len() && pool_hash(#[trigger] upd[i]) == h && pool_hash(
            #[trigger] upd[j],
        ) == h implies i == j by {
        assert(pool_hash(pools[i]) == h && pool_hash(pools[j]) == h);
    }
    assert forall|i: int|
        0 <= i < upd.len() && (#[trigger] upd[i]).name == spec_pool_name(gs.spec) implies pool_hash(
        upd[i],
    ) == h by {
        assert(pools[i].name == spec_pool_name(gs.spec));
        assert(pool_hash(pools[i]) == h);
    }
    assert forall|i: int| 0 <= i < upd.len() implies wf_pool(#[trigger] upd[i]) by {
        if i != k {
            assert(wf_pool(pools[i]));
        }
    }
}

/// Creating the wanted pool while none of its revision exists
/// preserves well-formedness.
proof fn lemma_wf_push(gs: GratefulSetView, pools: Seq<GratefulSetPoolView>)
    requires
        wf_world(gs, pools),
        !cur_observed(pools, desired_hash_of(gs)),
    ensures
        wf_world(gs, pools.push(spec_want(gs.spec))),
{
    let w = spec_want(gs.spec);
    let h = desired_hash_of(gs);
    let ext = pools.push(w);
    assert(w.name == spec_pool_name(gs.spec));
    assert(pool_hash(w) == h);
    assert(forall|i: int| 0 <= i < pools.len() ==> pool_hash(#[trigger] pools[i]) != h) by {
        assert forall|i: int| 0 <= i < pools.len() implies pool_hash(#[trigger] pools[i]) != h by {
            if pool_hash(pools[i]) == h {
                assert(cur_observed(pools, h));
            }
        }
    }
    assert forall|i: int, j: int| 0 <= i < j < ext.len() implies ext[i].name != ext[j].name by {
        if j < pools.len() {
            assert(ext[i] == pools[i] && ext[j] == pools[j]);
        } else {
            assert(ext[i] == pools[i] && ext[j] == w);
            if pools[i].name == w.name {
                assert(pool_hash(pools[i]) == h);
            }
        }
    }
    assert forall|i: int, j: int|
        0 <= i < ext.len() && 0 <= j < ext.len() && pool_hash(#[trigger] ext[i]) == h && pool_hash(
            #[trigger] ext[j],
        ) == h implies i == j by {
        if i < pools.len() {
            assert(ext[i] == pools[i]);
        }
        if j < pools.len() {
            assert(ext[j] == pools[j]);
        }
    }
    assert forall|i: int|
        0 <= i < ext.len() && (#[trigger] ext[i]).name == spec_pool_name(gs.spec) implies pool_hash(
        ext[i],
    ) == h by {
        if i < pools.len() {
            assert(ext[i] == pools[i]);
            assert(pool_hash(pools[i]) == h);
        }
    }
    assert forall|i: int| 0 <= i < ext.len() implies wf_pool(#[trigger] ext[i]) by {
        if i < pools.len() {
            assert(ext[i] == pools[i]);
            assert(wf_pool(pools[i]));
        }
    }
}


// --- what each row of the decision does ----------------------------------------

/// Deleting the old pools when the current pool already carries the
/// whole template leaves exactly the current pool (or, when the
/// template asks for zero replicas of a pool never created, nothing).
proof fn lemma_row_delete(gs: GratefulSetView, pools: Seq<GratefulSetPoolView>)
    requires
        wf_world(gs, pools),
        settled(pools),
        cur_pool_of(pools, desired_hash_of(gs), spec_want(gs.spec)).spec.sts_spec
            == gs.spec.sts_spec,
    ensures
        ({
            let h = desired_hash_of(gs);
            let after = settle(
                remove_named(pools, names_of(old_pools_of(pools, h))),
            );
            &&& wf_world(gs, after)
            &&& settled(after)
            &&& (cur_observed(pools, h) ==> total_rep(after) == spec_desired(gs.spec)
                && converged(gs, after))
            &&& (!cur_observed(pools, h) ==> total_rep(after) == 0 && spec_desired(gs.spec) == 0)
        }),
{
    let h = desired_hash_of(gs);
    let want = spec_want(gs.spec);
    let olds = old_pools_of(pools, h);
    let cur = cur_pool_of(pools, h, want);
    let names = names_of(olds);
    lemma_old_names_complete(pools, h);
    if cur_observed(pools, h) {
        lemma_cur_is_member(pools, h, want);
        let k = choose|k: int|
            0 <= k < pools.len() && cur == #[trigger] pools[k] && pool_hash(pools[k]) == h;
        lemma_cur_name_not_old(pools, h, k);
        assert forall|i: int|
            0 <= i < pools.len() && pool_hash(#[trigger] pools[i]) == h implies !names.contains(
            pools[i].name,
        ) by {
            assert(i == k);
        }
        lemma_remove_keeps_current(pools, h, want, names);
        let kept = seq![cur];
        assert(wf_world(gs, kept)) by {
            assert(wf_pool(pools[k]));
            assert forall|i: int| 0 <= i < kept.len() implies wf_pool(#[trigger] kept[i]) by {
                assert(kept[i] == cur);
            }
            assert forall|i: int|
                0 <= i < kept.len() && (#[trigger] kept[i]).name == spec_pool_name(gs.spec)
                implies pool_hash(kept[i]) == h by {
                assert(kept[i] == cur);
            }
        }
        lemma_wf_settle(gs, kept);
        lemma_settle_settles(kept);
        assert(total_rep(kept) == pool_replicas_or_one(cur)) by {
            assert(kept.len() == 1);
            assert(kept.drop_last() =~= Seq::<GratefulSetPoolView>::empty());
            assert(total_rep(kept.drop_last()) == 0);
            assert(kept.last() == cur);
        }
        assert(pool_replicas_or_one(cur) == spec_desired(gs.spec));
        assert(converged(gs, settle(kept))) by {
            assert(settle(kept).len() == 1);
            assert(settle(kept)[0] == settle_pool(kept[0]));
            lemma_settle_pool_facts(cur);
        }
    } else {
        lemma_split_sums(pools, h, want);
        lemma_cur_is_member(pools, h, want);
        assert(olds == pools);
        assert forall|i: int| 0 <= i < pools.len() implies names.contains(
            (#[trigger] pools[i]).name,
        ) by {
            if pool_hash(pools[i]) == h {
                assert(cur_observed(pools, h));
            }
        }
        lemma_remove_all(pools, names);
        let kept = Seq::<GratefulSetPoolView>::empty();
        assert(settle(kept) =~= kept);
        assert(wf_world(gs, kept));
        lemma_settle_settles(kept);
        assert(cur == want);
        assert(gs.spec.sts_spec.replicas == Some(0i32));
    }
}

/// Applying a pool of the current revision under the current pool's
/// name swaps the current pool and touches nothing else.
proof fn lemma_row_replace_cur(
    gs: GratefulSetView,
    pools: Seq<GratefulSetPoolView>,
    p: GratefulSetPoolView,
)
    requires
        wf_world(gs, pools),
        settled(pools),
        cur_observed(pools, desired_hash_of(gs)),
        pool_hash(p) == desired_hash_of(gs),
        p.name == cur_pool_of(pools, desired_hash_of(gs), spec_want(gs.spec)).name,
        wf_pool(p),
    ensures
        ({
            let h = desired_hash_of(gs);
            let want = spec_want(gs.spec);
            let cur = cur_pool_of(pools, h, want);
            let after = settle(replace_named(pools, p));
            &&& wf_world(gs, after)
            &&& settled(after)
            &&& total_rep(after) == total_rep(pools) - pool_replicas_or_one(cur)
                + pool_replicas_or_one(p)
            &&& cur_observed(after, h)
            &&& cur_pool_of(after, h, want) == settle_pool(p)
            &&& total_rep(old_pools_of(after, h)) == total_rep(old_pools_of(pools, h))
        }),
{
    let h = desired_hash_of(gs);
    let want = spec_want(gs.spec);
    let cur = cur_pool_of(pools, h, want);
    lemma_cur_is_member(pools, h, want);
    let k = choose|k: int|
        0 <= k < pools.len() && cur == #[trigger] pools[k] && pool_hash(pools[k]) == h;
    lemma_replace_is_update(pools, k, p);
    let upd = pools.update(k, p);
    lemma_total_update(pools, k, p);
    lemma_classify_update_cur(pools, h, want, k, p);
    lemma_wf_update(gs, pools, k, p);
    lemma_wf_settle(gs, upd);
    lemma_settle_settles(upd);
    lemma_settle_classify(upd, h, want);
    lemma_settle_settles(old_pools_of(upd, h));
}

/// Applying a drained copy of an old pool removes one replica from the
/// old side and leaves the current pool alone.
proof fn lemma_row_replace_old(
    gs: GratefulSetView,
    pools: Seq<GratefulSetPoolView>,
    j: int,
)
    requires
        wf_world(gs, pools),
        settled(pools),
        cur_observed(pools, desired_hash_of(gs)),
        0 <= j < old_pools_of(pools, desired_hash_of(gs)).len(),
        crate::set_reconcile::pool_scalable(old_pools_of(pools, desired_hash_of(gs))[j]),
    ensures
        ({
            let h = desired_hash_of(gs);
            let want = spec_want(gs.spec);
            let target = old_pools_of(pools, h)[j];
            let after = settle(
                replace_named(pools, crate::set_reconcile::drained_pool(target)),
            );
            &&& wf_world(gs, after)
            &&& settled(after)
            &&& total_rep(after) == total_rep(pools) - 1
            &&& cur_observed(after, h)
            &&& cur_pool_of(after, h, want) == settle_pool(cur_pool_of(pools, h, want))
            &&& total_rep(old_pools_of(after, h)) == total_rep(old_pools_of(pools, h)) - 1
        }),
{
    let h = desired_hash_of(gs);
    let want = spec_want(gs.spec);
    let olds = old_pools_of(pools, h);
    let target = olds[j];
    let p = crate::set_reconcile::drained_pool(target);
    lemma_olds_are_members(pools, h);
    let m = choose|m: int|
        0 <= m < pools.len() && #[trigger] olds[j] == pools[m] && pool_hash(pools[m]) != h;
    assert(wf_pool(target));
    let x = target.spec.sts_spec.replicas.unwrap();
    assert(x >= 1);
    assert(p.spec.sts_spec.replicas == Some((x - 1) as i32));
    assert(wf_pool(p));
    assert(pool_hash(p) == pool_hash(target)) by {
        crate::revision::lemma_checksum_ignores_mutable(
            target.spec.sts_spec,
            p.spec.sts_spec.replicas,
            target.spec.sts_spec.template,
            target.spec.sts_spec.update_strategy,
        );
        assert(p.spec.sts_spec =~= (crate::sts::StatefulSetSpecView {
            replicas: p.spec.sts_spec.replicas,
            template: target.spec.sts_spec.template,
            update_strategy: target.spec.sts_spec.update_strategy,
            ..target.spec.sts_spec
        }));
    }
    lemma_replace_is_update(pools, m, p);
    let upd = pools.update(m, p);
    lemma_total_update(pools, m, p);
    lemma_classify_update_old(pools, h, want, m, p);
    lemma_wf_update(gs, pools, m, p);
    lemma_wf_settle(gs, upd);
    lemma_settle_settles(upd);
    lemma_settle_classify(upd, h, want);
    lemma_settle_settles(old_pools_of(upd, h));
}

/// Creating the wanted pool makes it current at zero replicas and
/// leaves everything else alone.
proof fn lemma_row_create(gs: GratefulSetView, pools: Seq<GratefulSetPoolView>)
    requires
        wf_world(gs, pools),
        settled(pools),
        !cur_observed(pools, desired_hash_of(gs)),
    ensures
        ({
            let h = desired_hash_of(gs);
            let want = spec_want(gs.spec);
            let after = settle(pools.push(want));
            &&& wf_world(gs, after)
            &&& settled(after)
            &&& total_rep(after) == total_rep(pools)
            &&& cur_observed(after, h)
            &&& cur_pool_of(after, h, want) == settle_pool(want)
            &&& total_rep(old_pools_of(after, h)) == total_rep(old_pools_of(pools, h))
        }),
{
    let h = desired_hash_of(gs);
    let want = spec_want(gs.spec);
    let ext = pools.push(want);
    lemma_classify_push(pools, h, want, want);
    lemma_wf_push(gs, pools);
    lemma_wf_settle(gs, ext);
    lemma_settle_settles(ext);
    lemma_settle_classify(ext, h, want);
    lemma_settle_settles(old_pools_of(ext, h));
    assert(total_rep(ext) == total_rep(pools) + pool_replicas_or_one(want)) by {
        assert(ext.drop_last() =~= pools);
        assert(ext.last() == want);
    }
    assert(pool_replicas_or_one(want) == 0);
}


// --- one full step -------------------------------------------------------------

/// Old pools inherit well-formedness from the pool list.
proof fn lemma_olds_wf(gs: GratefulSetView, pools: Seq<GratefulSetPoolView>)
    requires
        wf_world(gs, pools),
    ensures
        forall|j: int|
            0 <= j < old_pools_of(pools, desired_hash_of(gs)).len() ==> wf_pool(
                #[trigger] old_pools_of(pools, desired_hash_of(gs))[j],
            ),
        total_rep(old_pools_of(pools, desired_hash_of(gs))) >= 0,
        total_rep(pools) >= 0,
{
    let h = desired_hash_of(gs);
    let olds = old_pools_of(pools, h);
    lemma_olds_are_members(pools, h);
    assert forall|j: int| 0 <= j < olds.len() implies wf_pool(#[trigger] olds[j]) by {
        let i = choose|i: int|
            0 <= i < pools.len() && #[trigger] olds[j] == pools[i] && pool_hash(pools[i]) != h;
        assert(wf_pool(pools[i]));
    }
    assert forall|j: int| 0 <= j < olds.len() implies pool_replicas_or_one(#[trigger] olds[j])
        >= 0 by {
        assert(wf_pool(olds[j]));
    }
    lemma_total_rep_nonneg(olds);
    assert forall|i: int| 0 <= i < pools.len() implies pool_replicas_or_one(#[trigger] pools[i])
        >= 0 by {
        assert(wf_pool(pools[i]));
    }
    lemma_total_rep_nonneg(pools);
}

/// Two specifications that agree outside the replica count and on the
/// replica count are equal.
proof fn lemma_sans_and_replicas(a: crate::sts::StatefulSetSpecView, b: crate::sts::StatefulSetSpecView)
    requires
        spec_without_replicas(a) == spec_without_replicas(b),
        a.replicas == b.replicas,
    ensures
        a == b,
{
    assert(spec_without_replicas(a).service_name == spec_without_replicas(b).service_name);
    assert(a =~= b);
}

/// What one observe-decide-apply-settle round guarantees: the world
/// stays well formed and settled; the declared total moves by at most
/// one replica and never climbs past the desired count; and an
/// unconverged world either converges outright or comes strictly
/// closer to convergence (in the order: current pool created, template
/// drift patched, scale distance, replicas left on old pools).
#[verifier::rlimit(100)]
proof fn lemma_step_analysis(gs: GratefulSetView, pools: Seq<GratefulSetPoolView>)
    requires
        wf_world(gs, pools),
        settled(pools),
    ensures
        wf_world(gs, step(gs, pools)),
        settled(step(gs, pools)),
        total_rep(step(gs, pools)) <= total_rep(pools) || total_rep(step(gs, pools))
            <= spec_desired(gs.spec),
        total_rep(step(gs, pools)) >= total_rep(pools) - 1 || total_rep(step(gs, pools))
            >= spec_desired(gs.spec),
        (gs.spec.sts_spec.replicas matches Some(d0) && d0 >= 1 && !converged(gs, pools)) ==> {
            ||| converged(gs, step(gs, pools))
            ||| measure_create(gs, step(gs, pools)) < measure_create(gs, pools)
            ||| (measure_create(gs, step(gs, pools)) == measure_create(gs, pools)
                && measure_drift(gs, step(gs, pools)) < measure_drift(gs, pools))
            ||| (measure_create(gs, step(gs, pools)) == measure_create(gs, pools)
                && measure_drift(gs, step(gs, pools)) == measure_drift(gs, pools)
                && measure_scale(gs, step(gs, pools)) < measure_scale(gs, pools))
            ||| (measure_create(gs, step(gs, pools)) == measure_create(gs, pools)
                && measure_drift(gs, step(gs, pools)) == measure_drift(gs, pools)
                && measure_scale(gs, step(gs, pools)) == measure_scale(gs, pools)
                && measure_drain(gs, step(gs, pools)) < measure_drain(gs, pools))
        },
{
    let h = desired_hash_of(gs);
    let want = spec_want(gs.spec);
    let olds = old_pools_of(pools, h);
    let cur = cur_pool_of(pools, h, want);
    let d = spec_desired(gs.spec);
    let a = spec_decide(gs, pools);
    let after = step(gs, pools);
    lemma_split_sums(pools, h, want);
    lemma_cur_is_member(pools, h, want);
    lemma_sum_ready_eq_total(pools);
    lemma_olds_wf(gs, pools);
    let premise = gs.spec.sts_spec.replicas matches Some(d0) && d0 >= 1 && !converged(gs, pools);

    if cur.spec.sts_spec == gs.spec.sts_spec {
        if olds.len() == 0 {
            assert(a == SetActionView::Noop);
            assert(after == settle(pools));
            lemma_wf_settle(gs, pools);
            lemma_settle_settles(pools);
            if premise {
                if cur_observed(pools, h) {
                    lemma_olds_empty(pools, h);
                    let i = choose|i: int| 0 <= i < pools.len() && pool_hash(#[trigger] pools[i]) == h;
                    assert forall|j: int| 0 <= j < pools.len() implies #[trigger] pools[j]
                        == pools[i] && j == i by {
                        assert(pool_hash(pools[j]) == h);
                    }
                    if pools.len() >= 2 {
                        let e0 = pools[0];
                        let e1 = pools[pools.len() - 1];
                        assert(0 == i && pools.len() - 1 == i);
                    }
                    assert(pools.len() == 1);
                    let k = choose|k: int|
                        0 <= k < pools.len() && cur == #[trigger] pools[k] && pool_hash(pools[k]) == h;
                    assert(pools[0] == cur);
                    assert(converged(gs, pools));
                } else {
                    assert(cur == want);
                    assert(gs.spec.sts_spec.replicas == Some(0i32));
                }
            }
        } else {
            assert(a == SetActionView::DeleteOldPools { names: names_of(olds) });
            assert(after == settle(remove_named(pools, names_of(olds))));
            lemma_row_delete(gs, pools);
            if premise {
                if !cur_observed(pools, h) {
                    assert(cur == want);
                    assert(gs.spec.sts_spec.replicas == Some(0i32));
                }
            }
            if !cur_observed(pools, h) {
                assert(total_rep(after) == 0 && d == 0);
            }
        }
    } else {
        let live = match cur.spec.sts_spec.replicas {
            Some(x) => x > 0,
            None => false,
        };
        if cur_observed(pools, h) && live && spec_without_replicas(want.spec.sts_spec)
            != spec_without_replicas(cur.spec.sts_spec) {
            let p = crate::set_reconcile::patched_pool(cur, want);
            assert(a == SetActionView::PatchTemplate { pool: p });
            assert(after == settle(replace_named(pools, p)));
            assert(pool_hash(p) == h) by {
                crate::revision::lemma_checksum_ignores_mutable(
                    want.spec.sts_spec,
                    cur.spec.sts_spec.replicas,
                    want.spec.sts_spec.template,
                    want.spec.sts_spec.update_strategy,
                );
                assert(p.spec.sts_spec =~= (crate::sts::StatefulSetSpecView {
                    replicas: cur.spec.sts_spec.replicas,
                    template: want.spec.sts_spec.template,
                    update_strategy: want.spec.sts_spec.update_strategy,
                    ..want.spec.sts_spec
                }));
            }
            assert(wf_pool(p)) by {
                let k = choose|k: int|
                    0 <= k < pools.len() && cur == #[trigger] pools[k] && pool_hash(pools[k]) == h;
                assert(wf_pool(pools[k]));
            }
            lemma_row_replace_cur(gs, pools, p);
            assert(pool_replicas_or_one(p) == pool_replicas_or_one(cur));
            lemma_settle_pool_facts(p);
            assert(measure_drift(gs, after) == 0) by {
                assert(cur_pool_of(after, h, want) == settle_pool(p));
                assert(spec_without_replicas(settle_pool(p).spec.sts_spec) =~= spec_without_replicas(
                    want.spec.sts_spec,
                ));
            }
            assert(measure_drift(gs, pools) == 1);
            assert(measure_create(gs, after) == 0 && measure_create(gs, pools) == 0);
        } else if !cur_observed(pools, h) {
            assert(a == SetActionView::CreateCurrent { pool: want });
            assert(after == settle(pools.push(want)));
            lemma_row_create(gs, pools);
            assert(measure_create(gs, pools) == 1);
            assert(measure_create(gs, after) == 0);
        } else {
            // Only scale is left. The observed ready total is the
            // declared total.
            assert(pool_ready(cur) == pool_replicas_or_one(cur)) by {
                let k = choose|k: int|
                    0 <= k < pools.len() && cur == #[trigger] pools[k] && pool_hash(pools[k]) == h;
                assert(pool_ready(pools[k]) == pool_replicas_or_one(pools[k]));
            }
            lemma_olds_are_members(pools, h);
            assert forall|j: int| 0 <= j < olds.len() implies pool_ready(#[trigger] olds[j])
                == pool_replicas_or_one(olds[j]) by {
                let i = choose|i: int|
                    0 <= i < pools.len() && #[trigger] olds[j] == pools[i] && pool_hash(
                        pools[i],
                    ) != h;
                assert(pool_ready(pools[i]) == pool_replicas_or_one(pools[i]));
            }
            lemma_sum_ready_eq_total(olds);
            assert(sum_ready(olds) + pool_ready(cur) == total_rep(pools));
            let x = cur.spec.sts_spec.replicas.unwrap();
            assert(wf_pool(cur)) by {
                let k = choose|k: int|
                    0 <= k < pools.len() && cur == #[trigger] pools[k] && pool_hash(pools[k]) == h;
                assert(wf_pool(pools[k]));
            }
            assert(pool_replicas_or_one(cur) == x);
            if sum_ready(olds) + pool_ready(cur) >= d {
                match crate::set_reconcile::oldest_scalable(olds) {
                    Some(target) => {
                        assert(a == SetActionView::ScaleDown {
                            pool: crate::set_reconcile::drained_pool(target),
                        });
                        crate::set_reconcile::lemma_oldest_scalable_member(olds);
                        let j = choose|j: int| 0 <= j < olds.len() && #[trigger] olds[j] == target;
                        lemma_row_replace_old(gs, pools, j);
                        let after2 = settle(
                            replace_named(pools, crate::set_reconcile::drained_pool(olds[j])),
                        );
                        assert(after == after2);
                        lemma_settle_pool_facts(cur);
                        assert(measure_create(gs, after) == 0 && measure_create(gs, pools) == 0);
                        assert(measure_drift(gs, after) == measure_drift(gs, pools)) by {
                            assert(cur_pool_of(after, h, want) == settle_pool(cur));
                        }
                        assert(measure_scale(gs, after) == measure_scale(gs, pools)) by {
                            assert(cur_pool_of(after, h, want) == settle_pool(cur));
                        }
                        assert(measure_drain(gs, after) == measure_drain(gs, pools) - 1);
                    },
                    None => {
                        let p = crate::set_reconcile::shifted_pool(cur, -1);
                        assert(a == SetActionView::ScaleDown { pool: p });
                        assert(pool_hash(p) == h) by {
                            crate::revision::lemma_checksum_ignores_mutable(
                                cur.spec.sts_spec,
                                p.spec.sts_spec.replicas,
                                cur.spec.sts_spec.template,
                                cur.spec.sts_spec.update_strategy,
                            );
                            assert(p.spec.sts_spec =~= (crate::sts::StatefulSetSpecView {
                                replicas: p.spec.sts_spec.replicas,
                                template: cur.spec.sts_spec.template,
                                update_strategy: cur.spec.sts_spec.update_strategy,
                                ..cur.spec.sts_spec
                            }));
                        }
                        assert(wf_pool(p));
                        lemma_row_replace_cur(gs, pools, p);
                        lemma_settle_pool_facts(p);
                        // With no old pool scalable, every old pool is
                        // empty, so the whole total sits on the
                        // current pool.
                        lemma_oldest_none(olds);
                        assert forall|jj: int| 0 <= jj < olds.len() implies pool_replicas_or_one(
                            #[trigger] olds[jj],
                        ) == 0 by {
                            assert(!crate::set_reconcile::pool_scalable(olds[jj]));
                            assert(wf_pool(olds[jj]));
                        }
                        lemma_total_zero(olds);
                        assert(total_rep(pools) == x);
                        assert(x >= d);
                        if premise {
                            let d0 = gs.spec.sts_spec.replicas.unwrap();
                            assert(d == d0);
                            if x == d0 {
                                // Then the current pool would already
                                // match the whole template.
                                assert(live);
                                assert(spec_without_replicas(want.spec.sts_spec)
                                    == spec_without_replicas(cur.spec.sts_spec));
                                assert(spec_without_replicas(want.spec.sts_spec)
                                    =~= spec_without_replicas(gs.spec.sts_spec));
                                lemma_sans_and_replicas(cur.spec.sts_spec, gs.spec.sts_spec);
                                assert(false);
                            }
                            assert(x > d);
                            assert(pool_replicas_or_one(p) == x - 1);
                            assert(measure_scale(gs, after) == measure_scale(gs, pools) - 1) by {
                                assert(cur_pool_of(after, h, want) == settle_pool(p));
                            }
                            assert(measure_create(gs, after) == 0 && measure_create(gs, pools) == 0);
                            assert(measure_drift(gs, after) == measure_drift(gs, pools)) by {
                                assert(cur_pool_of(after, h, want) == settle_pool(p));
                                assert(spec_without_replicas(p.spec.sts_spec) =~= spec_without_replicas(
                                    cur.spec.sts_spec,
                                ));
                            }
                        }
                    },
                }
            } else {
                let p = crate::set_reconcile::shifted_pool(cur, 1);
                assert(a == SetActionView::ScaleUp { pool: p });
                assert(total_rep(pools) < d);
                assert(x < d);
                assert(pool_hash(p) == h) by {
                    crate::revision::lemma_checksum_ignores_mutable(
                        cur.spec.sts_spec,
                        p.spec.sts_spec.replicas,
                        cur.spec.sts_spec.template,
                        cur.spec.sts_spec.update_strategy,
                    );
                    assert(p.spec.sts_spec =~= (crate::sts::StatefulSetSpecView {
                        replicas: p.spec.sts_spec.replicas,
                        template: cur.spec.sts_spec.template,
                        update_strategy: cur.spec.sts_spec.update_strategy,
                        ..cur.spec.sts_spec
                    }));
                }
                assert(x <= total_rep(pools));
                assert(wf_pool(p)) by {
                    assert(x + 1 < i32::MAX);
                }
                lemma_row_replace_cur(gs, pools, p);
                lemma_settle_pool_facts(p);
                assert(pool_replicas_or_one(p) == x + 1);
                assert(total_rep(after) == total_rep(pools) + 1);
                assert(measure_scale(gs, after) == measure_scale(gs, pools) - 1) by {
                    assert(cur_pool_of(after, h, want) == settle_pool(p));
                }
                assert(measure_create(gs, after) == 0 && measure_create(gs, pools) == 0);
                assert(measure_drift(gs, after) == measure_drift(gs, pools)) by {
                    assert(cur_pool_of(after, h, want) == settle_pool(p));
                    assert(spec_without_replicas(p.spec.sts_spec) =~= spec_without_replicas(
                        cur.spec.sts_spec,
                    ));
                }
            }
        }
    }
}


// --- the capacity bound ---------------------------------------------------------

/// One reconcile round never overshoots: starting from a settled
/// observation point whose ready total is within one replica of the
/// desired count, the next settled point is as well, and the ready
/// total never falls below the desired count or the previous total
/// less one, whichever is smaller.
pub proof fn lemma_capacity_step(gs: GratefulSetView, pools: Seq<GratefulSetPoolView>)
    requires
        wf_world(gs, pools),
        settled(pools),
        sum_ready(pools) <= spec_desired(gs.spec) + 1,
    ensures
        wf_world(gs, step(gs, pools)),
        settled(step(gs, pools)),
        sum_ready(step(gs, pools)) <= spec_desired(gs.spec) + 1,
        sum_ready(step(gs, pools)) >= if spec_desired(gs.spec) <= sum_ready(pools) - 1 {
            spec_desired(gs.spec)
        } else {
            sum_ready(pools) - 1
        },
{
    lemma_step_analysis(gs, pools);
    lemma_sum_ready_eq_total(pools);
    lemma_sum_ready_eq_total(step(gs, pools));
}

/// Over any number of rounds from a settled point within the bound,
/// the ready total observed at every settled point stays at most one
/// above the desired count.
pub proof fn lemma_capacity_run(gs: GratefulSetView, pools: Seq<GratefulSetPoolView>, n: nat)
    requires
        wf_world(gs, pools),
        settled(pools),
        sum_ready(pools) <= spec_desired(gs.spec) + 1,
    ensures
        wf_world(gs, run(gs, pools, n)),
        settled(run(gs, pools, n)),
        sum_ready(run(gs, pools, n)) <= spec_desired(gs.spec) + 1,
    decreases n,
{
    if n > 0 {
        lemma_capacity_run(gs, pools, (n - 1) as nat);
        lemma_capacity_step(gs, run(gs, pools, (n - 1) as nat));
    }
}

// --- eventual convergence --------------------------------------------------------

/// Running one more round from the start is running from the first
/// round's outcome.
proof fn lemma_run_shift(gs: GratefulSetView, pools: Seq<GratefulSetPoolView>, n: nat)
    ensures
        run(gs, pools, n + 1) == run(gs, step(gs, pools), n),
    decreases n,
{
    if n == 0 {
        assert(run(gs, pools, 0) == pools);
        assert(run(gs, pools, 1) == step(gs, run(gs, pools, 0)));
        assert(run(gs, step(gs, pools), 0) == step(gs, pools));
    } else {
        lemma_run_shift(gs, pools, (n - 1) as nat);
        assert(run(gs, pools, n + 1) == step(gs, run(gs, pools, n)));
        assert(run(gs, step(gs, pools), n) == step(gs, run(gs, step(gs, pools), (n - 1) as nat)));
    }
}

/// Eventual convergence: with a cooperating platform (every applied
/// action is honored and pools settle between rounds), a well-formed
/// world reaches, in finitely many rounds, the state with exactly one
/// pool whose template — replica count included — is the set's. The
/// desired replica count must be declared and positive: a template
/// asking for no replicas of a pool never created converges to no
/// pools at all, and an absent count leaves the set and its pool
/// permanently one replica apart.
pub proof fn lemma_eventual_convergence(gs: GratefulSetView, pools: Seq<GratefulSetPoolView>)
    requires
        wf_world(gs, pools),
        settled(pools),
        gs.spec.sts_spec.replicas matches Some(d0) && d0 >= 1,
    ensures
        exists|n: nat| converged(gs, #[trigger] run(gs, pools, n)),
    decreases measure_create(gs, pools), measure_drift(gs, pools), measure_scale(gs, pools),
        measure_drain(gs, pools),
{
    lemma_olds_wf(gs, pools);
    if converged(gs, pools) {
        assert(converged(gs, run(gs, pools, 0)));
    } else {
        lemma_step_analysis(gs, pools);
        let next = step(gs, pools);
        if converged(gs, next) {
            assert(run(gs, pools, 1) == next) by {
                assert(run(gs, pools, 0) == pools);
            }
            assert(converged(gs, run(gs, pools, 1)));
        } else {
            lemma_olds_wf(gs, next);
            lemma_eventual_convergence(gs, next);
            let n1 = choose|n: nat| converged(gs, #[trigger] run(gs, next, n));
            lemma_run_shift(gs, pools, n1);
            assert(converged(gs, run(gs, pools, n1 + 1)));
        }
    }
}

} // verus!
