//! The ledger's stated laws, proved from the invariant and from what the
//! operations' contracts say — they hold of every ledger the operations can
//! reach.

use crate::counting::{
    lemma_occurrences_contains, lemma_remove_all, n_active, n_completed, n_disputed, occurrences,
    remove_all,
};
use crate::ledger::{completion_penalty, AssetLeasingContract};
use crate::types::{LeaseStatus, LeaseView};
use vstd::prelude::*;

verus! {

/// Asset identifiers are unique and grow by exactly one per registration:
/// the asset stored at index `i` carries identifier `i + 1`, so no two
/// assets share an identifier.
pub proof fn lemma_asset_ids_dense(c: AssetLeasingContract)
    requires
        c.wf(),
    ensures
        forall|i: int|
            0 <= i < c.assets_sq().len() ==> (#[trigger] c.assets_sq()[i]).asset_id == i + 1,
        forall|i: int, j: int|
            0 <= i < j < c.assets_sq().len() ==> c.assets_sq()[i].asset_id
                != c.assets_sq()[j].asset_id,
{
}

/// The global statistics record never drifts from the registries: its
/// counters equal what recounting would give — `total_assets` counts the
/// registered assets, and the three lease counters count the leases that
/// are `Active`, `Completed`, and disputed.
pub proof fn lemma_stats_recount(c: AssetLeasingContract)
    requires
        c.wf(),
    ensures
        c.stats.total_assets == c.assets_sq().len(),
        c.stats.active_leases == n_active(c.leases_sq()),
        c.stats.completed_leases == n_completed(c.leases_sq()),
        c.stats.disputed_leases == n_disputed(c.leases_sq()),
{
}

/// Approval is exclusive: what a successful `approve_lease` leaves behind —
/// the lease turned `Active` — is exactly the state in which its contract
/// reports `StateError`, so a second approval of the same lease fails.
pub proof fn lemma_approve_exclusive(
    pre: AssetLeasingContract,
    post: AssetLeasingContract,
    lease_id: u64,
    now: u64,
)
    requires
        pre.wf(),
        1 <= lease_id <= pre.leases@.len(),
        pre.leases_sq()[lease_id - 1].status == LeaseStatus::Pending,
        post.leases_sq() == pre.leases_sq().update(
            lease_id - 1,
            LeaseView {
                status: LeaseStatus::Active,
                last_payment: now,
                ..pre.leases_sq()[lease_id - 1]
            },
        ),
    ensures
        post.leases_sq()[lease_id - 1].status != LeaseStatus::Pending,
        post.leases_sq()[lease_id - 1].status == LeaseStatus::Active,
{
}

/// A timely, undamaged return carries no penalty.
pub proof fn lemma_timely_return_penalty_zero(l: LeaseView, now: u64)
    requires
        now <= l.end_time,
    ensures
        completion_penalty(l, now, false) == 0,
{
    assert(crate::ledger::late_days(now, l.end_time) == 0);
    assert(crate::ledger::div_trunc_by(l.daily_rate as int, 10) * 0 == 0);
}

/// Ending a lease relocates its identifier exactly once: while a lease is
/// not completed, its identifier stands exactly once in its lessee's and
/// once in its lessor's active list, so the exact-match removal that
/// `complete_lease` and `resolve_dispute` perform drops exactly one entry
/// from each list.
pub proof fn lemma_completion_relocates_once(c: AssetLeasingContract, lease_id: u64)
    requires
        c.wf(),
        1 <= lease_id <= c.leases@.len(),
        c.leases_sq()[lease_id - 1].status != LeaseStatus::Completed,
    ensures
        ({
            let l = c.leases_sq()[lease_id - 1];
            &&& occurrences(c.pf(l.lessee).active_leases_as_lessee, lease_id) == 1
            &&& occurrences(c.pf(l.lessor).active_leases_as_lessor, lease_id) == 1
            &&& remove_all(c.pf(l.lessee).active_leases_as_lessee, lease_id).len() == c.pf(
                l.lessee,
            ).active_leases_as_lessee.len() - 1
            &&& remove_all(c.pf(l.lessor).active_leases_as_lessor, lease_id).len() == c.pf(
                l.lessor,
            ).active_leases_as_lessor.len() - 1
        }),
{
    let l = c.leases_sq()[lease_id - 1];
    assert(c.lease_entry_wf(lease_id - 1));
    assert(c.lease_listed_wf(lease_id - 1));
    assert(c.portfolio_entry_wf(l.lessee));
    assert(c.portfolio_entry_wf(l.lessor));
    lemma_occurrences_contains(c.pf(l.lessee).active_leases_as_lessee, lease_id);
    lemma_occurrences_contains(c.pf(l.lessor).active_leases_as_lessor, lease_id);
    assert(occurrences(c.pf(l.lessee).active_leases_as_lessee, lease_id) <= 1);
    assert(occurrences(c.pf(l.lessor).active_leases_as_lessor, lease_id) <= 1);
    lemma_remove_all(c.pf(l.lessee).active_leases_as_lessee, lease_id);
    lemma_remove_all(c.pf(l.lessor).active_leases_as_lessor, lease_id);
}

/// A reserved asset stays reserved across an operation that leaves the
/// asset registry untouched — as `approve_lease` and `file_dispute` promise
/// of every asset record.
pub proof fn lemma_reservation_preserved(
    pre: AssetLeasingContract,
    post: AssetLeasingContract,
    asset_id: u64,
)
    requires
        1 <= asset_id <= pre.assets@.len(),
        post.assets@ == pre.assets@,
        !pre.assets_sq()[asset_id - 1].available,
    ensures
        !post.assets_sq()[asset_id - 1].available,
{
}

} // verus!
