//! The leasing ledger and its lifecycle operations.
//!
//! [`AssetLeasingContract`] holds the four coupled registries — assets,
//! leases, per-user portfolios and the global statistics record — and every
//! public operation either performs all of its writes or none: a refused
//! call returns an [`Error`] and leaves the ledger untouched.
//!
//! Caller authentication, the clock and persistence are the hosting
//! environment's business: callers pass already-authenticated addresses and
//! the current ledger timestamp where an operation needs them.

use crate::counting::{
    lemma_contains_push, lemma_count_member, lemma_count_witness, lemma_counts_bounded,
    lemma_counts_push,
    lemma_counts_update, lemma_occurrences_contains, lemma_occurrences_push, lemma_remove_all,
    n_active, n_completed, n_disputed, occurrences, remove_all,
};
use crate::types::{
    Asset, AssetStats, AssetView, Error, Lease, LeaseStatus, LeaseView, PortfolioView,
    UserPortfolio,
};
use std::collections::HashMap;
use vstd::pervasive::VecAdditionalExecFns;
use vstd::prelude::*;

verus! {

broadcast use vstd::std_specs::hash::group_hash_axioms;

/// Whether a mathematical integer fits the 128-bit signed amounts the ledger
/// stores.
pub open spec fn in_i128(x: int) -> bool {
    i128::MIN <= x <= i128::MAX
}

/// `x / d` with the machine's rounding toward zero (`d > 0`); it agrees with
/// the mathematical quotient for non-negative `x`.
pub open spec fn div_trunc_by(x: int, d: int) -> int
    recommends
        d > 0,
{
    if x >= 0 {
        x / d
    } else {
        -((-x) / d)
    }
}

/// How many whole days a return at `now` is past `end_time`.
pub open spec fn late_days(now: u64, end_time: u64) -> int {
    if now > end_time {
        (now - end_time) / 86400
    } else {
        0
    }
}

/// The penalty a regular completion carries: a quarter of the security
/// deposit when damages are reported, otherwise a tenth of the daily rate —
/// the rate is divided first, then multiplied — for every whole day the
/// return is late, and nothing for a timely, undamaged return.
pub open spec fn completion_penalty(l: LeaseView, now: u64, has_damages: bool) -> int {
    if has_damages {
        div_trunc_by(l.security_deposit as int, 4)
    } else {
        div_trunc_by(l.daily_rate as int, 10) * late_days(now, l.end_time)
    }
}

/// The penalty a dispute resolution carries: `penalty_percentage` percent of
/// the security deposit.  The percentage is deliberately not clamped, so
/// values above 100 yield a penalty above the deposit.
pub open spec fn resolution_penalty(l: LeaseView, penalty_percentage: u64) -> int {
    (l.security_deposit * penalty_percentage) / 100
}

/// `acc` extended by the elements of `rest` in order, each appended only if
/// the list gathered so far does not hold it yet.
pub open spec fn dedup_extend(acc: Seq<u64>, rest: Seq<u64>) -> Seq<u64>
    decreases rest.len(),
{
    if rest.len() == 0 {
        acc
    } else {
        let prev = dedup_extend(acc, rest.drop_last());
        if prev.contains(rest.last()) {
            prev
        } else {
            prev.push(rest.last())
        }
    }
}

/// The lease identifiers carried by a list of leases, in order.
pub open spec fn ids_of(s: Seq<Lease>) -> Seq<u64> {
    s.map_values(|l: Lease| l.lease_id)
}

/// The ledger: every registered asset and lease, the per-address portfolio
/// index, and the global rollup record.
///
/// The asset with identifier `n` is stored at `assets[n - 1]`, so the
/// identifiers are exactly `1 ..= assets.len()`, assigned in registration
/// order and never reused; leases likewise.
pub struct AssetLeasingContract {
    pub assets: Vec<Asset>,
    pub leases: Vec<Lease>,
    pub portfolios: HashMap<u64, UserPortfolio>,
    pub stats: AssetStats,
}

impl AssetLeasingContract {
    /// The registered assets as mathematical values, in identifier order.
    pub open spec fn assets_sq(self) -> Seq<AssetView> {
        self.assets@.map_values(|a: Asset| a@)
    }

    /// The leases as mathematical values, in identifier order.
    pub open spec fn leases_sq(self) -> Seq<LeaseView> {
        self.leases@.map_values(|l: Lease| l@)
    }

    /// The portfolio of `user`; an address never written reads as empty.
    pub open spec fn pf(self, user: u64) -> PortfolioView {
        if self.portfolios@.contains_key(user) {
            self.portfolios@[user]@
        } else {
            PortfolioView::empty()
        }
    }

    /// Asset identifiers are dense (`assets[i]` carries identifier `i + 1`),
    /// and the immutable numeric fields keep the registration-time checks:
    /// a positive value and a non-negative deposit.
    pub open spec fn assets_wf(self) -> bool {
        &&& self.assets@.len() <= u64::MAX
        &&& forall|i: int|
            0 <= i < self.assets@.len() ==> {
                let a = #[trigger] self.assets_sq()[i];
                &&& a.asset_id == i + 1
                &&& a.asset_value > 0
                &&& a.security_deposit >= 0
            }
    }

    /// What holds of the lease stored at index `i`: a dense identifier, a
    /// registered asset, a non-negative deposit, a reachable state, and the
    /// dispute overlay only while `Active`.
    pub open spec fn lease_entry_wf(self, i: int) -> bool {
        let l = self.leases_sq()[i];
        &&& l.lease_id == i + 1
        &&& 1 <= l.asset_id <= self.assets@.len()
        &&& l.security_deposit >= 0
        &&& (l.status == LeaseStatus::Pending || l.status == LeaseStatus::Active || l.status
            == LeaseStatus::Completed)
        &&& (l.is_disputed ==> l.status == LeaseStatus::Active)
    }

    pub open spec fn leases_wf(self) -> bool {
        &&& self.leases@.len() <= u64::MAX
        &&& forall|i: int| 0 <= i < self.leases@.len() ==> #[trigger] self.lease_entry_wf(i)
    }

    /// The global record equals what recounting the registries would give:
    /// `total_assets` counts the assets and the three lease counters count
    /// the leases in the respective state.
    pub open spec fn stats_wf(self) -> bool {
        &&& self.stats.total_assets == self.assets@.len()
        &&& self.stats.active_leases == n_active(self.leases_sq())
        &&& self.stats.completed_leases == n_completed(self.leases_sq())
        &&& self.stats.disputed_leases == n_disputed(self.leases_sq())
    }

    /// What holds of one address's portfolio: every listed identifier is
    /// registered; the owned-assets list names assets owned by this address;
    /// the two active lists name this address's not-yet-completed leases, in
    /// the right role, each at most once.
    pub open spec fn portfolio_entry_wf(self, user: u64) -> bool {
        let p = self.pf(user);
        &&& forall|id: u64| #[trigger]
            p.owned_assets.contains(id) ==> 1 <= id <= self.assets@.len() && self.assets_sq()[id
                - 1].owner == user
        &&& forall|id: u64| #[trigger]
            p.active_leases_as_lessee.contains(id) ==> 1 <= id <= self.leases@.len()
                && self.leases_sq()[id - 1].lessee == user && self.leases_sq()[id - 1].status
                != LeaseStatus::Completed
        &&& forall|id: u64| #[trigger]
            p.active_leases_as_lessor.contains(id) ==> 1 <= id <= self.leases@.len()
                && self.leases_sq()[id - 1].lessor == user && self.leases_sq()[id - 1].status
                != LeaseStatus::Completed
        &&& forall|id: u64| #[trigger] p.completed_leases.contains(id) ==> 1 <= id
            <= self.leases@.len()
        &&& forall|id: u64| #[trigger] occurrences(p.owned_assets, id) <= 1
        &&& forall|id: u64| #[trigger] occurrences(p.active_leases_as_lessee, id) <= 1
        &&& forall|id: u64| #[trigger] occurrences(p.active_leases_as_lessor, id) <= 1
    }

    /// Every not-yet-completed lease is listed in its lessee's and its
    /// lessor's active list.
    pub open spec fn lease_listed_wf(self, i: int) -> bool {
        let l = self.leases_sq()[i];
        l.status != LeaseStatus::Completed ==> {
            &&& self.pf(l.lessee).active_leases_as_lessee.contains(l.lease_id)
            &&& self.pf(l.lessor).active_leases_as_lessor.contains(l.lease_id)
        }
    }

    pub open spec fn portfolios_wf(self) -> bool {
        &&& forall|user: u64| #[trigger] self.portfolio_entry_wf(user)
        &&& forall|i: int| 0 <= i < self.leases@.len() ==> #[trigger] self.lease_listed_wf(i)
    }

    /// The ledger's cross-registry invariant.  Every operation requires it
    /// and re-establishes it.
    pub open spec fn wf(self) -> bool {
        &&& self.assets_wf()
        &&& self.leases_wf()
        &&& self.stats_wf()
        &&& self.portfolios_wf()
    }

    /// A fresh ledger: no assets, no leases, no portfolios, all counters and
    /// totals zero.
    pub fn new() -> (c: AssetLeasingContract)
        ensures
            c.wf(),
            c.assets@.len() == 0,
            c.leases@.len() == 0,
            forall|user: u64| #[trigger] c.pf(user) == PortfolioView::empty(),
            c.stats == (AssetStats {
                total_assets: 0,
                active_leases: 0,
                completed_leases: 0,
                disputed_leases: 0,
                total_value_locked: 0,
                total_earnings: 0,
            }),
    {
        let c = AssetLeasingContract {
            assets: Vec::new(),
            leases: Vec::new(),
            portfolios: HashMap::new(),
            stats: AssetStats {
                total_assets: 0,
                active_leases: 0,
                completed_leases: 0,
                disputed_leases: 0,
                total_value_locked: 0,
                total_earnings: 0,
            },
        };
        proof {
            assert(c.assets_sq() =~= Seq::<AssetView>::empty());
            assert(c.leases_sq() =~= Seq::<LeaseView>::empty());
            assert forall|user: u64| #[trigger] c.pf(user) == PortfolioView::empty() by {}
            assert forall|user: u64| #[trigger] c.portfolio_entry_wf(user) by {
                assert(c.pf(user) == PortfolioView::empty());
            }
        }
        c
    }

    /// Look an asset up by identifier; `NotFoundError` for an identifier
    /// never assigned.
    pub fn get_asset(&self, asset_id: u64) -> (r: Result<Asset, Error>)
        ensures
            r is Ok <==> 1 <= asset_id <= self.assets@.len(),
            r is Err <==> r == Result::<Asset, Error>::Err(Error::NotFoundError),
            r matches Ok(a) ==> a@ == self.assets_sq()[asset_id - 1],
    {
        if asset_id >= 1 && asset_id <= self.assets.len() as u64 {
            Ok(self.assets[(asset_id - 1) as usize].clone())
        } else {
            Err(Error::NotFoundError)
        }
    }

    /// Look a lease up by identifier; `NotFoundError` for an identifier
    /// never assigned.
    pub fn get_lease(&self, lease_id: u64) -> (r: Result<Lease, Error>)
        ensures
            r is Ok <==> 1 <= lease_id <= self.leases@.len(),
            r is Err <==> r == Result::<Lease, Error>::Err(Error::NotFoundError),
            r matches Ok(l) ==> l@ == self.leases_sq()[lease_id - 1],
    {
        if lease_id >= 1 && lease_id <= self.leases.len() as u64 {
            Ok(self.leases[(lease_id - 1) as usize].clone())
        } else {
            Err(Error::NotFoundError)
        }
    }

    /// The portfolio of `user`; an address never written gets four empty
    /// lists.
    pub fn get_user_portfolio(&self, user: u64) -> (p: UserPortfolio)
        ensures
            p@ == self.pf(user),
    {
        match self.portfolios.get(&user) {
            Some(p) => p.clone(),
            None => UserPortfolio::new_empty(),
        }
    }

    /// The global statistics record.
    pub fn get_asset_stats(&self) -> (s: AssetStats)
        ensures
            s == self.stats,
    {
        self.stats
    }

    /// Register a new asset for `owner` and hand out its identifier.
    ///
    /// `ValidationError` exactly when `daily_rate <= 0`, `asset_value <= 0`
    /// or `security_deposit < 0`.  On success the asset is stored available,
    /// stamped `created_at = now`, the identifier is appended to the owner's
    /// owned-assets list and `total_assets` grows by one; nothing else moves.
    ///
    /// The caller has authenticated `owner` and supplies the ledger
    /// timestamp `now`.
    pub fn register_asset(
        &mut self,
        owner: u64,
        title: String,
        description: String,
        asset_value: i128,
        daily_rate: i128,
        min_lease_days: u64,
        max_lease_days: u64,
        security_deposit: i128,
        now: u64,
    ) -> (r: Result<u64, Error>)
        requires
            old(self).wf(),
            old(self).assets@.len() < u64::MAX,
        ensures
            final(self).wf(),
            r is Err <==> (daily_rate <= 0 || asset_value <= 0 || security_deposit < 0),
            r is Err ==> r == Result::<u64, Error>::Err(Error::ValidationError) && *final(self)
                == *old(self),
            r matches Ok(id) ==> {
                &&& id == old(self).assets@.len() + 1
                &&& final(self).assets_sq() == old(self).assets_sq().push(
                    AssetView {
                        asset_id: id,
                        owner,
                        title: title@,
                        description: description@,
                        asset_value,
                        daily_rate,
                        available: true,
                        min_lease_days,
                        max_lease_days,
                        security_deposit,
                        created_at: now,
                    },
                )
                &&& final(self).leases@ == old(self).leases@
                &&& final(self).stats == (AssetStats {
                    total_assets: (old(self).stats.total_assets + 1) as u64,
                    ..old(self).stats
                })
                &&& final(self).pf(owner) == (PortfolioView {
                    owned_assets: old(self).pf(owner).owned_assets.push(id),
                    ..old(self).pf(owner)
                })
                &&& forall|u: u64| u != owner ==> final(self).pf(u) == old(self).pf(u)
            },
    {
        if daily_rate <= 0 || asset_value <= 0 || security_deposit < 0 {
            return Err(Error::ValidationError);
        }
        let ghost pre = *old(self);
        let asset_id: u64 = (self.assets.len() as u64) + 1;
        let asset = Asset {
            asset_id,
            owner,
            title,
            description,
            asset_value,
            daily_rate,
            available: true,
            min_lease_days,
            max_lease_days,
            security_deposit,
            created_at: now,
        };
        let ghost av = asset@;
        self.assets.push(asset);
        self.stats.total_assets = self.stats.total_assets + 1;
        let mut p = self.get_user_portfolio(owner);
        p.owned_assets.push(asset_id);
        self.portfolios.insert(owner, p);
        proof {
            let post = *self;
            assert(post.assets_sq() =~= pre.assets_sq().push(av));
            assert(post.leases_sq() == pre.leases_sq());
            assert(post.pf(owner) =~= (PortfolioView {
                owned_assets: pre.pf(owner).owned_assets.push(asset_id),
                ..pre.pf(owner)
            }));
            assert forall|u: u64| u != owner implies post.pf(u) == pre.pf(u) by {}
            assert forall|i: int|
                0 <= i < post.assets@.len() implies {
                    let a = #[trigger] post.assets_sq()[i];
                    &&& a.asset_id == i + 1
                    &&& a.asset_value > 0
                    &&& a.security_deposit >= 0
                } by {
                if i < pre.assets@.len() {
                    assert(post.assets_sq()[i] == pre.assets_sq()[i]);
                }
            }
            assert forall|i: int|
                0 <= i < post.leases@.len() implies #[trigger] post.lease_entry_wf(i) by {
                assert(pre.lease_entry_wf(i));
            }
            assert forall|u: u64| #[trigger] post.portfolio_entry_wf(u) by {
                assert(pre.portfolio_entry_wf(u));
                let p0 = pre.pf(u);
                let p1 = post.pf(u);
                assert forall|id: u64| #[trigger] p1.owned_assets.contains(id) implies 1 <= id
                    <= post.assets@.len() && post.assets_sq()[id - 1].owner == u by {
                    if u == owner {
                        lemma_contains_push(p0.owned_assets, asset_id, id);
                    }
                    if p0.owned_assets.contains(id) {
                        assert(post.assets_sq()[id - 1] == pre.assets_sq()[id - 1]);
                    }
                }
                assert forall|id: u64| #[trigger]
                    p1.active_leases_as_lessee.contains(id) implies 1 <= id <= post.leases@.len()
                    && post.leases_sq()[id - 1].lessee == u && post.leases_sq()[id - 1].status
                    != LeaseStatus::Completed by {
                    assert(p1.active_leases_as_lessee == p0.active_leases_as_lessee);
                }
                assert forall|id: u64| #[trigger]
                    p1.active_leases_as_lessor.contains(id) implies 1 <= id <= post.leases@.len()
                    && post.leases_sq()[id - 1].lessor == u && post.leases_sq()[id - 1].status
                    != LeaseStatus::Completed by {
                    assert(p1.active_leases_as_lessor == p0.active_leases_as_lessor);
                }
                assert forall|id: u64| #[trigger] occurrences(p1.owned_assets, id) <= 1 by {
                    assert(occurrences(p0.owned_assets, id) <= 1);
                    if u == owner {
                        lemma_occurrences_push(p0.owned_assets, asset_id, id);
                        if id == asset_id {
                            lemma_occurrences_contains(p0.owned_assets, id);
                        }
                    }
                }
                assert forall|id: u64| #[trigger] occurrences(p1.active_leases_as_lessee, id)
                    <= 1 by {
                    assert(occurrences(p0.active_leases_as_lessee, id) <= 1);
                }
                assert forall|id: u64| #[trigger] occurrences(p1.active_leases_as_lessor, id)
                    <= 1 by {
                    assert(occurrences(p0.active_leases_as_lessor, id) <= 1);
                }
            }
            assert forall|i: int|
                0 <= i < post.leases@.len() implies #[trigger] post.lease_listed_wf(i) by {
                assert(pre.lease_listed_wf(i));
                let l = pre.leases_sq()[i];
                assert(post.pf(l.lessee).active_leases_as_lessee
                    == pre.pf(l.lessee).active_leases_as_lessee);
                assert(post.pf(l.lessor).active_leases_as_lessor
                    == pre.pf(l.lessor).active_leases_as_lessor);
            }
        }
        Ok(asset_id)
    }

    /// Propose a lease of `days` days on `asset_id` for `lessee` and hand
    /// out the lease identifier.
    ///
    /// `NotFoundError` for an unknown asset; `StateError` when the asset is
    /// not available; `ValidationError` when `days` is outside the asset's
    /// `min_lease_days ..= max_lease_days`.  On success the lease is stored
    /// `Pending` with `total_amount = daily_rate * days` and the deposit and
    /// rate copied from the asset, the asset is reserved (`available` turns
    /// false) at proposal time — before any approval — and the identifier is
    /// appended to the lessee's and the lessor's active lists.  The global
    /// statistics do not move at this stage.
    ///
    /// The caller has authenticated `lessee` and supplies the ledger
    /// timestamp `now`.
    pub fn create_lease(&mut self, asset_id: u64, lessee: u64, days: u64, now: u64) -> (r: Result<
        u64,
        Error,
    >)
        requires
            old(self).wf(),
            old(self).leases@.len() < u64::MAX,
            now + days * 86400 <= u64::MAX,
            1 <= asset_id <= old(self).assets@.len() ==> in_i128(
                old(self).assets_sq()[asset_id - 1].daily_rate * days,
            ),
        ensures
            final(self).wf(),
            r is Err ==> *final(self) == *old(self),
            !(1 <= asset_id <= old(self).assets@.len()) ==> r == Result::<u64, Error>::Err(
                Error::NotFoundError,
            ),
            1 <= asset_id <= old(self).assets@.len() ==> {
                let a = old(self).assets_sq()[asset_id - 1];
                &&& (!a.available ==> r == Result::<u64, Error>::Err(Error::StateError))
                &&& (a.available && (days < a.min_lease_days || days > a.max_lease_days) ==> r
                    == Result::<u64, Error>::Err(Error::ValidationError))
                &&& (a.available && a.min_lease_days <= days && days <= a.max_lease_days ==> r
                    is Ok)
            },
            r matches Ok(id) ==> {
                let a = old(self).assets_sq()[asset_id - 1];
                &&& id == old(self).leases@.len() + 1
                &&& final(self).leases_sq() == old(self).leases_sq().push(
                    LeaseView {
                        lease_id: id,
                        asset_id,
                        lessor: a.owner,
                        lessee,
                        start_time: now,
                        end_time: (now + days * 86400) as u64,
                        total_amount: (a.daily_rate * days) as i128,
                        security_deposit: a.security_deposit,
                        status: LeaseStatus::Pending,
                        is_disputed: false,
                        last_payment: 0,
                        return_condition: Seq::empty(),
                        penalty_amount: 0,
                        daily_rate: a.daily_rate,
                    },
                )
                &&& final(self).assets_sq() == old(self).assets_sq().update(
                    asset_id - 1,
                    AssetView { available: false, ..a },
                )
                &&& final(self).stats == old(self).stats
                &&& final(self).pf(lessee).active_leases_as_lessee == old(self).pf(
                    lessee,
                ).active_leases_as_lessee.push(id)
                &&& final(self).pf(a.owner).active_leases_as_lessor == old(self).pf(
                    a.owner,
                ).active_leases_as_lessor.push(id)
                &&& final(self).pf(lessee).owned_assets == old(self).pf(lessee).owned_assets
                &&& final(self).pf(lessee).completed_leases == old(self).pf(
                    lessee,
                ).completed_leases
                &&& final(self).pf(a.owner).owned_assets == old(self).pf(a.owner).owned_assets
                &&& final(self).pf(a.owner).completed_leases == old(self).pf(
                    a.owner,
                ).completed_leases
                &&& (lessee != a.owner ==> final(self).pf(lessee).active_leases_as_lessor == old(
                    self,
                ).pf(lessee).active_leases_as_lessor && final(self).pf(a.owner).active_leases_as_lessee
                    == old(self).pf(a.owner).active_leases_as_lessee)
                &&& forall|u: u64|
                    u != lessee && u != a.owner ==> final(self).pf(u) == old(self).pf(u)
            },
    {
        if !(asset_id >= 1 && asset_id <= self.assets.len() as u64) {
            return Err(Error::NotFoundError);
        }
        let aidx: usize = (asset_id - 1) as usize;
        if !self.assets[aidx].available {
            return Err(Error::StateError);
        }
        if days < self.assets[aidx].min_lease_days || days > self.assets[aidx].max_lease_days {
            return Err(Error::ValidationError);
        }
        let ghost pre = *old(self);
        let daily_rate = self.assets[aidx].daily_rate;
        let total_amount = daily_rate * (days as i128);
        let security_deposit = self.assets[aidx].security_deposit;
        let lessor = self.assets[aidx].owner;
        let lease_id: u64 = (self.leases.len() as u64) + 1;
        let end_time: u64 = now + days * 86400;
        let lease = Lease {
            lease_id,
            asset_id,
            lessor,
            lessee,
            start_time: now,
            end_time,
            total_amount,
            security_deposit,
            status: LeaseStatus::Pending,
            is_disputed: false,
            last_payment: 0,
            return_condition: String::new(),
            penalty_amount: 0,
            daily_rate,
        };
        let ghost lv = lease@;
        self.leases.push(lease);
        let mut reserved = self.assets[aidx].clone();
        reserved.available = false;
        self.assets.set(aidx, reserved);
        let mut lp = self.get_user_portfolio(lessee);
        lp.active_leases_as_lessee.push(lease_id);
        self.portfolios.insert(lessee, lp);
        let mut op = self.get_user_portfolio(lessor);
        op.active_leases_as_lessor.push(lease_id);
        self.portfolios.insert(lessor, op);
        proof {
            let post = *self;
            let a = pre.assets_sq()[asset_id - 1];
            assert(post.leases_sq() =~= pre.leases_sq().push(lv));
            assert(lv == (LeaseView {
                lease_id,
                asset_id,
                lessor: a.owner,
                lessee,
                start_time: now,
                end_time,
                total_amount,
                security_deposit: a.security_deposit,
                status: LeaseStatus::Pending,
                is_disputed: false,
                last_payment: 0,
                return_condition: Seq::<char>::empty(),
                penalty_amount: 0,
                daily_rate: a.daily_rate,
            }));
            assert(post.assets_sq() =~= pre.assets_sq().update(
                asset_id - 1,
                AssetView { available: false, ..a },
            ));
            lemma_counts_push(pre.leases_sq(), lv);
            if lessee != lessor {
                assert(post.pf(lessee) =~= (PortfolioView {
                    active_leases_as_lessee: pre.pf(lessee).active_leases_as_lessee.push(lease_id),
                    ..pre.pf(lessee)
                }));
                assert(post.pf(lessor) =~= (PortfolioView {
                    active_leases_as_lessor: pre.pf(lessor).active_leases_as_lessor.push(lease_id),
                    ..pre.pf(lessor)
                }));
            } else {
                assert(post.pf(lessee) =~= (PortfolioView {
                    active_leases_as_lessee: pre.pf(lessee).active_leases_as_lessee.push(lease_id),
                    active_leases_as_lessor: pre.pf(lessee).active_leases_as_lessor.push(lease_id),
                    ..pre.pf(lessee)
                }));
            }
            assert forall|i: int|
                0 <= i < post.assets@.len() implies {
                    let av = #[trigger] post.assets_sq()[i];
                    &&& av.asset_id == i + 1
                    &&& av.asset_value > 0
                    &&& av.security_deposit >= 0
                } by {
                assert(pre.assets_sq()[i].asset_id == i + 1);
            }
            assert forall|i: int|
                0 <= i < post.leases@.len() implies #[trigger] post.lease_entry_wf(i) by {
                if i < pre.leases@.len() {
                    assert(pre.lease_entry_wf(i));
                }
            }
            assert forall|u: u64| #[trigger] post.portfolio_entry_wf(u) by {
                assert(pre.portfolio_entry_wf(u));
                let p0 = pre.pf(u);
                let p1 = post.pf(u);
                assert forall|id: u64| #[trigger] p1.owned_assets.contains(id) implies 1 <= id
                    <= post.assets@.len() && post.assets_sq()[id - 1].owner == u by {
                    assert(p1.owned_assets == p0.owned_assets);
                    assert(post.assets_sq()[id - 1].owner == pre.assets_sq()[id - 1].owner);
                }
                assert forall|id: u64| #[trigger]
                    p1.active_leases_as_lessee.contains(id) implies 1 <= id <= post.leases@.len()
                    && post.leases_sq()[id - 1].lessee == u && post.leases_sq()[id - 1].status
                    != LeaseStatus::Completed by {
                    if u == lessee {
                        lemma_contains_push(p0.active_leases_as_lessee, lease_id, id);
                    }
                    if p0.active_leases_as_lessee.contains(id) {
                        assert(post.leases_sq()[id - 1] == pre.leases_sq()[id - 1]);
                    } else {
                        assert(post.leases_sq()[id - 1] == lv);
                    }
                }
                assert forall|id: u64| #[trigger]
                    p1.active_leases_as_lessor.contains(id) implies 1 <= id <= post.leases@.len()
                    && post.leases_sq()[id - 1].lessor == u && post.leases_sq()[id - 1].status
                    != LeaseStatus::Completed by {
                    if u == lessor {
                        lemma_contains_push(p0.active_leases_as_lessor, lease_id, id);
                    }
                    if p0.active_leases_as_lessor.contains(id) {
                        assert(post.leases_sq()[id - 1] == pre.leases_sq()[id - 1]);
                    } else {
                        assert(post.leases_sq()[id - 1] == lv);
                    }
                }
                assert forall|id: u64| #[trigger] p1.completed_leases.contains(id) implies 1 <= id
                    <= post.leases@.len() by {
                    assert(p1.completed_leases == p0.completed_leases);
                }
                assert forall|id: u64| #[trigger] occurrences(p1.active_leases_as_lessee, id)
                    <= 1 by {
                    assert(occurrences(p0.active_leases_as_lessee, id) <= 1);
                    if u == lessee {
                        lemma_occurrences_push(p0.active_leases_as_lessee, lease_id, id);
                        if id == lease_id {
                            lemma_occurrences_contains(p0.active_leases_as_lessee, id);
                        }
                    }
                }
                assert forall|id: u64| #[trigger] occurrences(p1.active_leases_as_lessor, id)
                    <= 1 by {
                    assert(occurrences(p0.active_leases_as_lessor, id) <= 1);
                    if u == lessor {
                        lemma_occurrences_push(p0.active_leases_as_lessor, lease_id, id);
                        if id == lease_id {
                            lemma_occurrences_contains(p0.active_leases_as_lessor, id);
                        }
                    }
                }
                assert forall|id: u64| #[trigger] occurrences(p1.owned_assets, id) <= 1 by {
                    assert(occurrences(p0.owned_assets, id) <= 1);
                }
            }
            assert forall|i: int|
                0 <= i < post.leases@.len() implies #[trigger] post.lease_listed_wf(i) by {
                let l = post.leases_sq()[i];
                if i < pre.leases@.len() {
                    assert(pre.lease_listed_wf(i));
                    if l.status != LeaseStatus::Completed {
                        lemma_contains_push(
                            pre.pf(l.lessee).active_leases_as_lessee,
                            lease_id,
                            l.lease_id,
                        );
                        lemma_contains_push(
                            pre.pf(l.lessor).active_leases_as_lessor,
                            lease_id,
                            l.lease_id,
                        );
                    }
                } else {
                    assert(l == lv);
                    lemma_contains_push(pre.pf(lessee).active_leases_as_lessee, lease_id, lease_id);
                    lemma_contains_push(pre.pf(lessor).active_leases_as_lessor, lease_id, lease_id);
                }
            }
        }
        Ok(lease_id)
    }

    /// Approve a pending lease: only the stored lessor may, and only once.
    ///
    /// `NotFoundError` for an unknown lease; `AuthorizationError` when
    /// `lessor` is not the lease's lessor; `StateError` when the lease is
    /// not `Pending` (an already-active lease cannot be approved again, and
    /// `Completed` is terminal).  On success the lease turns `Active`,
    /// `last_payment` is stamped `now`, `active_leases` grows by one and
    /// `total_value_locked` grows by `total_amount + security_deposit`.
    ///
    /// The caller has authenticated `lessor` and supplies the ledger
    /// timestamp `now`.
    pub fn approve_lease(&mut self, lease_id: u64, lessor: u64, now: u64) -> (r: Result<
        bool,
        Error,
    >)
        requires
            old(self).wf(),
            1 <= lease_id <= old(self).leases@.len() ==> in_i128(
                old(self).leases_sq()[lease_id - 1].total_amount + old(self).leases_sq()[lease_id
                    - 1].security_deposit,
            ) && in_i128(
                old(self).stats.total_value_locked + old(self).leases_sq()[lease_id
                    - 1].total_amount + old(self).leases_sq()[lease_id - 1].security_deposit,
            ),
        ensures
            final(self).wf(),
            r is Err ==> *final(self) == *old(self),
            !(1 <= lease_id <= old(self).leases@.len()) ==> r == Result::<bool, Error>::Err(
                Error::NotFoundError,
            ),
            1 <= lease_id <= old(self).leases@.len() ==> {
                let l = old(self).leases_sq()[lease_id - 1];
                &&& (l.lessor != lessor ==> r == Result::<bool, Error>::Err(
                    Error::AuthorizationError,
                ))
                &&& (l.lessor == lessor && l.status != LeaseStatus::Pending ==> r == Result::<
                    bool,
                    Error,
                >::Err(Error::StateError))
                &&& (l.lessor == lessor && l.status == LeaseStatus::Pending ==> r == Result::<
                    bool,
                    Error,
                >::Ok(true))
            },
            r is Ok ==> {
                let l = old(self).leases_sq()[lease_id - 1];
                &&& final(self).leases_sq() == old(self).leases_sq().update(
                    lease_id - 1,
                    LeaseView { status: LeaseStatus::Active, last_payment: now, ..l },
                )
                &&& final(self).assets@ == old(self).assets@
                &&& final(self).stats == (AssetStats {
                    active_leases: (old(self).stats.active_leases + 1) as u64,
                    total_value_locked: (old(self).stats.total_value_locked + l.total_amount
                        + l.security_deposit) as i128,
                    ..old(self).stats
                })
                &&& forall|u: u64| final(self).pf(u) == old(self).pf(u)
            },
    {
        if !(lease_id >= 1 && lease_id <= self.leases.len() as u64) {
            return Err(Error::NotFoundError);
        }
        let lidx: usize = (lease_id - 1) as usize;
        if self.leases[lidx].lessor != lessor {
            return Err(Error::AuthorizationError);
        }
        match self.leases[lidx].status {
            LeaseStatus::Pending => {},
            _ => {
                return Err(Error::StateError);
            },
        }
        let ghost pre = *old(self);
        proof {
            assert(pre.lease_entry_wf(lease_id - 1));
            lemma_counts_bounded(pre.leases_sq());
            lemma_count_witness(pre.leases_sq(), lease_id - 1);
        }
        let mut nl = self.leases[lidx].clone();
        nl.status = LeaseStatus::Active;
        nl.last_payment = now;
        let ghost lv = nl@;
        let total_amount = nl.total_amount;
        let security_deposit = nl.security_deposit;
        self.leases.set(lidx, nl);
        self.stats.active_leases = self.stats.active_leases + 1;
        let locked = total_amount + security_deposit;
        self.stats.total_value_locked = self.stats.total_value_locked + locked;
        proof {
            let post = *self;
            let l = pre.leases_sq()[lease_id - 1];
            assert(post.leases_sq() =~= pre.leases_sq().update(lease_id - 1, lv));
            assert(lv == (LeaseView { status: LeaseStatus::Active, last_payment: now, ..l }));
            lemma_counts_update(pre.leases_sq(), lease_id - 1, lv);
            assert forall|u: u64| post.pf(u) == pre.pf(u) by {}
            assert forall|i: int|
                0 <= i < post.leases@.len() implies #[trigger] post.lease_entry_wf(i) by {
                assert(pre.lease_entry_wf(i));
            }
            assert forall|u: u64| #[trigger] post.portfolio_entry_wf(u) by {
                assert(pre.portfolio_entry_wf(u));
                let p0 = pre.pf(u);
                assert(post.pf(u) == p0);
                assert forall|id: u64| #[trigger]
                    p0.active_leases_as_lessee.contains(id) implies 1 <= id <= post.leases@.len()
                    && post.leases_sq()[id - 1].lessee == u && post.leases_sq()[id - 1].status
                    != LeaseStatus::Completed by {
                    if id - 1 != lease_id - 1 {
                        assert(post.leases_sq()[id - 1] == pre.leases_sq()[id - 1]);
                    }
                }
                assert forall|id: u64| #[trigger]
                    p0.active_leases_as_lessor.contains(id) implies 1 <= id <= post.leases@.len()
                    && post.leases_sq()[id - 1].lessor == u && post.leases_sq()[id - 1].status
                    != LeaseStatus::Completed by {
                    if id - 1 != lease_id - 1 {
                        assert(post.leases_sq()[id - 1] == pre.leases_sq()[id - 1]);
                    }
                }
            }
            assert forall|i: int|
                0 <= i < post.leases@.len() implies #[trigger] post.lease_listed_wf(i) by {
                assert(pre.lease_listed_wf(i));
            }
            assert(post.assets_sq() == pre.assets_sq());
            assert(post.assets_wf());
            assert(post.leases_wf());
            assert(post.stats_wf());
            assert(post.portfolios_wf());
        }
        Ok(true)
    }

    /// Relocate `lease_id` in both parties' portfolios when a lease ends:
    /// every occurrence leaves the lessee's and the lessor's active list (the
    /// relative order of the rest preserved) and the identifier is appended
    /// to each party's completed list — to the shared list twice when one
    /// address plays both roles, mirroring the two appends.
    fn update_portfolios_on_completion(&mut self, lease_id: u64, lessee: u64, lessor: u64)
        ensures
            final(self).assets@ == old(self).assets@,
            final(self).leases@ == old(self).leases@,
            final(self).stats == old(self).stats,
            forall|u: u64| u != lessee && u != lessor ==> final(self).pf(u) == old(self).pf(u),
            lessee != lessor ==> final(self).pf(lessee) == (PortfolioView {
                active_leases_as_lessee: remove_all(
                    old(self).pf(lessee).active_leases_as_lessee,
                    lease_id,
                ),
                completed_leases: old(self).pf(lessee).completed_leases.push(lease_id),
                ..old(self).pf(lessee)
            }) && final(self).pf(lessor) == (PortfolioView {
                active_leases_as_lessor: remove_all(
                    old(self).pf(lessor).active_leases_as_lessor,
                    lease_id,
                ),
                completed_leases: old(self).pf(lessor).completed_leases.push(lease_id),
                ..old(self).pf(lessor)
            }),
            lessee == lessor ==> final(self).pf(lessee) == (PortfolioView {
                active_leases_as_lessee: remove_all(
                    old(self).pf(lessee).active_leases_as_lessee,
                    lease_id,
                ),
                active_leases_as_lessor: remove_all(
                    old(self).pf(lessee).active_leases_as_lessor,
                    lease_id,
                ),
                completed_leases: old(self).pf(lessee).completed_leases.push(lease_id).push(
                    lease_id,
                ),
                ..old(self).pf(lessee)
            }),
    {
        let ghost pre = *old(self);
        let mut lp = self.get_user_portfolio(lessee);
        let lessee_active = Self::remove_matches(&lp.active_leases_as_lessee, lease_id);
        lp.active_leases_as_lessee = lessee_active;
        lp.completed_leases.push(lease_id);
        self.portfolios.insert(lessee, lp);
        let mut op = self.get_user_portfolio(lessor);
        let lessor_active = Self::remove_matches(&op.active_leases_as_lessor, lease_id);
        op.active_leases_as_lessor = lessor_active;
        op.completed_leases.push(lease_id);
        self.portfolios.insert(lessor, op);
        proof {
            let post = *self;
            if lessee != lessor {
                assert(post.pf(lessee) =~= (PortfolioView {
                    active_leases_as_lessee: remove_all(
                        pre.pf(lessee).active_leases_as_lessee,
                        lease_id,
                    ),
                    completed_leases: pre.pf(lessee).completed_leases.push(lease_id),
                    ..pre.pf(lessee)
                }));
                assert(post.pf(lessor) =~= (PortfolioView {
                    active_leases_as_lessor: remove_all(
                        pre.pf(lessor).active_leases_as_lessor,
                        lease_id,
                    ),
                    completed_leases: pre.pf(lessor).completed_leases.push(lease_id),
                    ..pre.pf(lessor)
                }));
            } else {
                assert(post.pf(lessee) =~= (PortfolioView {
                    active_leases_as_lessee: remove_all(
                        pre.pf(lessee).active_leases_as_lessee,
                        lease_id,
                    ),
                    active_leases_as_lessor: remove_all(
                        pre.pf(lessee).active_leases_as_lessor,
                        lease_id,
                    ),
                    completed_leases: pre.pf(lessee).completed_leases.push(lease_id).push(
                        lease_id,
                    ),
                    ..pre.pf(lessee)
                }));
            }
        }
    }

    /// Complete an active lease: only the stored lessee may return the asset.
    ///
    /// `NotFoundError` for an unknown lease; `AuthorizationError` when
    /// `lessee` is not the lease's lessee; `StateError` when the lease is not
    /// `Active` or is under an open dispute (a disputed lease ends through
    /// `resolve_dispute`).  On success the lease turns `Completed` with the
    /// given return notes and the penalty of [`completion_penalty`], the
    /// asset becomes available again, `active_leases` shrinks and
    /// `completed_leases` grows by one, `total_value_locked` gives back
    /// `total_amount + security_deposit`, `total_earnings` collects
    /// `total_amount + penalty`, and the lease identifier moves from both
    /// parties' active lists to their completed lists.
    ///
    /// The caller has authenticated `lessee` and supplies the ledger
    /// timestamp `now`.
    pub fn complete_lease(
        &mut self,
        lease_id: u64,
        lessee: u64,
        return_condition: String,
        has_damages: bool,
        now: u64,
    ) -> (r: Result<bool, Error>)
        requires
            old(self).wf(),
            1 <= lease_id <= old(self).leases@.len() ==> {
                let l = old(self).leases_sq()[lease_id - 1];
                let pen = completion_penalty(l, now, has_damages);
                &&& in_i128(pen)
                &&& in_i128(l.total_amount + l.security_deposit)
                &&& in_i128(
                    old(self).stats.total_value_locked - (l.total_amount + l.security_deposit),
                )
                &&& in_i128(l.total_amount + pen)
                &&& in_i128(old(self).stats.total_earnings + (l.total_amount + pen))
            },
        ensures
            final(self).wf(),
            r is Err ==> *final(self) == *old(self),
            !(1 <= lease_id <= old(self).leases@.len()) ==> r == Result::<bool, Error>::Err(
                Error::NotFoundError,
            ),
            1 <= lease_id <= old(self).leases@.len() ==> {
                let l = old(self).leases_sq()[lease_id - 1];
                &&& (l.lessee != lessee ==> r == Result::<bool, Error>::Err(
                    Error::AuthorizationError,
                ))
                &&& (l.lessee == lessee && (l.status != LeaseStatus::Active || l.is_disputed)
                    ==> r == Result::<bool, Error>::Err(Error::StateError))
                &&& (l.lessee == lessee && l.status == LeaseStatus::Active && !l.is_disputed ==> r
                    == Result::<bool, Error>::Ok(true))
            },
            r is Ok ==> {
                let l = old(self).leases_sq()[lease_id - 1];
                let pen = completion_penalty(l, now, has_damages);
                &&& final(self).leases_sq() == old(self).leases_sq().update(
                    lease_id - 1,
                    LeaseView {
                        status: LeaseStatus::Completed,
                        return_condition: return_condition@,
                        penalty_amount: pen as i128,
                        ..l
                    },
                )
                &&& final(self).assets_sq() == old(self).assets_sq().update(
                    l.asset_id - 1,
                    AssetView { available: true, ..old(self).assets_sq()[l.asset_id - 1] },
                )
                &&& final(self).stats == (AssetStats {
                    active_leases: (old(self).stats.active_leases - 1) as u64,
                    completed_leases: (old(self).stats.completed_leases + 1) as u64,
                    total_value_locked: (old(self).stats.total_value_locked - (l.total_amount
                        + l.security_deposit)) as i128,
                    total_earnings: (old(self).stats.total_earnings + (l.total_amount
                        + pen)) as i128,
                    ..old(self).stats
                })
                &&& forall|u: u64|
                    u != lessee && u != l.lessor ==> final(self).pf(u) == old(self).pf(u)
                &&& (lessee != l.lessor ==> final(self).pf(lessee) == (PortfolioView {
                    active_leases_as_lessee: remove_all(
                        old(self).pf(lessee).active_leases_as_lessee,
                        lease_id,
                    ),
                    completed_leases: old(self).pf(lessee).completed_leases.push(lease_id),
                    ..old(self).pf(lessee)
                }) && final(self).pf(l.lessor) == (PortfolioView {
                    active_leases_as_lessor: remove_all(
                        old(self).pf(l.lessor).active_leases_as_lessor,
                        lease_id,
                    ),
                    completed_leases: old(self).pf(l.lessor).completed_leases.push(lease_id),
                    ..old(self).pf(l.lessor)
                }))
                &&& (lessee == l.lessor ==> final(self).pf(lessee) == (PortfolioView {
                    active_leases_as_lessee: remove_all(
                        old(self).pf(lessee).active_leases_as_lessee,
                        lease_id,
                    ),
                    active_leases_as_lessor: remove_all(
                        old(self).pf(lessee).active_leases_as_lessor,
                        lease_id,
                    ),
                    completed_leases: old(self).pf(lessee).completed_leases.push(lease_id).push(
                        lease_id,
                    ),
                    ..old(self).pf(lessee)
                }))
            },
    {
        if !(lease_id >= 1 && lease_id <= self.leases.len() as u64) {
            return Err(Error::NotFoundError);
        }
        let lidx: usize = (lease_id - 1) as usize;
        if self.leases[lidx].lessee != lessee {
            return Err(Error::AuthorizationError);
        }
        let is_active = match self.leases[lidx].status {
            LeaseStatus::Active => true,
            _ => false,
        };
        if !is_active || self.leases[lidx].is_disputed {
            return Err(Error::StateError);
        }
        let ghost pre = *old(self);
        proof {
            assert(pre.lease_entry_wf(lease_id - 1));
            lemma_counts_bounded(pre.leases_sq());
            lemma_count_member(pre.leases_sq(), lease_id - 1);
            lemma_count_witness(pre.leases_sq(), lease_id - 1);
        }
        let deposit = self.leases[lidx].security_deposit;
        let rate = self.leases[lidx].daily_rate;
        let end_time = self.leases[lidx].end_time;
        let ghost lease0 = pre.leases_sq()[lease_id - 1];
        let penalty: i128 = if has_damages {
            proof {
                vstd::arithmetic::div_mod::lemma_div_basics_4(deposit as int, 4);
                vstd::arithmetic::div_mod::lemma_div_basics_5(deposit as int, 4);
            }
            let quarter: i128 = deposit.checked_div(4).unwrap();
            proof {
                assert(quarter == div_trunc_by(deposit as int, 4));
                assert(quarter == completion_penalty(lease0, now, has_damages));
            }
            quarter
        } else if now > end_time {
            let days_late: u64 = (now - end_time) / 86400;
            proof {
                if rate >= 0 {
                    vstd::arithmetic::div_mod::lemma_div_basics_4(rate as int, 10);
                    vstd::arithmetic::div_mod::lemma_div_basics_5(rate as int, 10);
                } else {
                    vstd::arithmetic::div_mod::lemma_div_basics_4(-(rate as int), 10);
                    vstd::arithmetic::div_mod::lemma_div_basics_5(-(rate as int), 10);
                }
            }
            let tenth: i128 = rate.checked_div(10).unwrap();
            proof {
                assert(tenth == div_trunc_by(rate as int, 10));
                assert((days_late as int) == late_days(now, end_time));
                assert(in_i128(div_trunc_by(rate as int, 10) * late_days(now, end_time)));
            }
            let late_fee: i128 = tenth * (days_late as i128);
            proof {
                assert(late_fee == completion_penalty(lease0, now, has_damages));
            }
            late_fee
        } else {
            proof {
                assert(late_days(now, end_time) == 0);
                assert(completion_penalty(lease0, now, has_damages) == 0) by {
                    assert(div_trunc_by(lease0.daily_rate as int, 10) * 0 == 0);
                }
            }
            0
        };
        proof {
            assert(penalty == completion_penalty(lease0, now, has_damages));
        }
        let mut nl = self.leases[lidx].clone();
        nl.status = LeaseStatus::Completed;
        nl.return_condition = return_condition;
        nl.penalty_amount = penalty;
        let ghost lv = nl@;
        let total_amount = nl.total_amount;
        let asset_id = nl.asset_id;
        let lessor = nl.lessor;
        self.leases.set(lidx, nl);
        let n_assets: usize = self.assets.len();
        proof {
            assert(asset_id - 1 < n_assets);
        }
        let aidx: usize = (asset_id - 1) as usize;
        let mut freed = self.assets[aidx].clone();
        freed.available = true;
        self.assets.set(aidx, freed);
        self.stats.active_leases = self.stats.active_leases - 1;
        self.stats.completed_leases = self.stats.completed_leases + 1;
        let locked = total_amount + deposit;
        self.stats.total_value_locked = self.stats.total_value_locked - locked;
        let earned = total_amount + penalty;
        self.stats.total_earnings = self.stats.total_earnings + earned;
        self.update_portfolios_on_completion(lease_id, lessee, lessor);
        proof {
            let post = *self;
            let l = pre.leases_sq()[lease_id - 1];
            let pen = completion_penalty(l, now, has_damages);
            assert(penalty == pen);
            assert(post.leases_sq() =~= pre.leases_sq().update(lease_id - 1, lv));
            assert(lv == (LeaseView {
                status: LeaseStatus::Completed,
                return_condition: return_condition@,
                penalty_amount: pen as i128,
                ..l
            }));
            assert(post.assets_sq() =~= pre.assets_sq().update(
                l.asset_id - 1,
                AssetView { available: true, ..pre.assets_sq()[l.asset_id - 1] },
            ));
            lemma_counts_update(pre.leases_sq(), lease_id - 1, lv);
            assert forall|i: int|
                0 <= i < post.assets@.len() implies {
                    let av = #[trigger] post.assets_sq()[i];
                    &&& av.asset_id == i + 1
                    &&& av.asset_value > 0
                    &&& av.security_deposit >= 0
                } by {
                assert(pre.assets_sq()[i].asset_id == i + 1);
            }
            assert forall|i: int|
                0 <= i < post.leases@.len() implies #[trigger] post.lease_entry_wf(i) by {
                assert(pre.lease_entry_wf(i));
            }
            assert(post.stats_wf());
            assert forall|u: u64| #[trigger] post.portfolio_entry_wf(u) by {
                assert(pre.portfolio_entry_wf(u));
                let p0 = pre.pf(u);
                let p1 = post.pf(u);
                assert(p1.owned_assets == p0.owned_assets);
                assert forall|id: u64| #[trigger] p1.owned_assets.contains(id) implies 1 <= id
                    <= post.assets@.len() && post.assets_sq()[id - 1].owner == u by {
                    assert(post.assets_sq()[id - 1].owner == pre.assets_sq()[id - 1].owner);
                }
                if u == lessee || u == lessor {
                    lemma_remove_all(p0.active_leases_as_lessee, lease_id);
                    lemma_remove_all(p0.active_leases_as_lessor, lease_id);
                }
                assert forall|id: u64| #[trigger]
                    p1.active_leases_as_lessee.contains(id) implies 1 <= id <= post.leases@.len()
                    && post.leases_sq()[id - 1].lessee == u && post.leases_sq()[id - 1].status
                    != LeaseStatus::Completed by {
                    assert(p0.active_leases_as_lessee.contains(id) && id != lease_id);
                    assert(post.leases_sq()[id - 1] == pre.leases_sq()[id - 1]);
                }
                assert forall|id: u64| #[trigger]
                    p1.active_leases_as_lessor.contains(id) implies 1 <= id <= post.leases@.len()
                    && post.leases_sq()[id - 1].lessor == u && post.leases_sq()[id - 1].status
                    != LeaseStatus::Completed by {
                    assert(p0.active_leases_as_lessor.contains(id) && id != lease_id);
                    assert(post.leases_sq()[id - 1] == pre.leases_sq()[id - 1]);
                }
                assert forall|id: u64| #[trigger] p1.completed_leases.contains(id) implies 1 <= id
                    <= post.leases@.len() by {
                    if u == lessee || u == lessor {
                        lemma_contains_push(p0.completed_leases, lease_id, id);
                        lemma_contains_push(p0.completed_leases.push(lease_id), lease_id, id);
                    }
                }
                assert forall|id: u64| #[trigger] occurrences(p1.active_leases_as_lessee, id)
                    <= 1 by {
                    assert(occurrences(p0.active_leases_as_lessee, id) <= 1);
                }
                assert forall|id: u64| #[trigger] occurrences(p1.active_leases_as_lessor, id)
                    <= 1 by {
                    assert(occurrences(p0.active_leases_as_lessor, id) <= 1);
                }
                assert forall|id: u64| #[trigger] occurrences(p1.owned_assets, id) <= 1 by {
                    assert(occurrences(p0.owned_assets, id) <= 1);
                }
            }
            assert forall|i: int|
                0 <= i < post.leases@.len() implies #[trigger] post.lease_listed_wf(i) by {
                assert(pre.lease_listed_wf(i));
                assert(pre.lease_entry_wf(i));
                let l2 = post.leases_sq()[i];
                if i != lease_id - 1 {
                    assert(l2 == pre.leases_sq()[i]);
                    if l2.status != LeaseStatus::Completed {
                        assert(l2.lease_id != lease_id);
                        lemma_remove_all(pre.pf(l2.lessee).active_leases_as_lessee, lease_id);
                        lemma_occurrences_contains(
                            pre.pf(l2.lessee).active_leases_as_lessee,
                            l2.lease_id,
                        );
                        lemma_occurrences_contains(
                            remove_all(pre.pf(l2.lessee).active_leases_as_lessee, lease_id),
                            l2.lease_id,
                        );
                        lemma_remove_all(pre.pf(l2.lessor).active_leases_as_lessor, lease_id);
                        lemma_occurrences_contains(
                            pre.pf(l2.lessor).active_leases_as_lessor,
                            l2.lease_id,
                        );
                        lemma_occurrences_contains(
                            remove_all(pre.pf(l2.lessor).active_leases_as_lessor, lease_id),
                            l2.lease_id,
                        );
                    }
                }
            }
            assert(post.wf());
        }
        Ok(true)
    }

    /// File a dispute on an active lease: only one of the two parties may.
    ///
    /// `NotFoundError` for an unknown lease; `AuthorizationError` when
    /// `filer` is neither the lessor nor the lessee; `StateError` when the
    /// lease is not `Active` or a dispute is already open.  On success the
    /// dispute overlay is set, the dispute reason overwrites
    /// `return_condition` — the one overloaded free-text field — and
    /// `disputed_leases` grows by one; nothing else moves.
    ///
    /// The caller has authenticated `filer`.
    pub fn file_dispute(&mut self, lease_id: u64, filer: u64, dispute_reason: String) -> (r: Result<
        bool,
        Error,
    >)
        requires
            old(self).wf(),
        ensures
            final(self).wf(),
            r is Err ==> *final(self) == *old(self),
            !(1 <= lease_id <= old(self).leases@.len()) ==> r == Result::<bool, Error>::Err(
                Error::NotFoundError,
            ),
            1 <= lease_id <= old(self).leases@.len() ==> {
                let l = old(self).leases_sq()[lease_id - 1];
                &&& (l.lessor != filer && l.lessee != filer ==> r == Result::<bool, Error>::Err(
                    Error::AuthorizationError,
                ))
                &&& ((l.lessor == filer || l.lessee == filer) && (l.status != LeaseStatus::Active
                    || l.is_disputed) ==> r == Result::<bool, Error>::Err(Error::StateError))
                &&& ((l.lessor == filer || l.lessee == filer) && l.status == LeaseStatus::Active
                    && !l.is_disputed ==> r == Result::<bool, Error>::Ok(true))
            },
            r is Ok ==> {
                let l = old(self).leases_sq()[lease_id - 1];
                &&& final(self).leases_sq() == old(self).leases_sq().update(
                    lease_id - 1,
                    LeaseView { is_disputed: true, return_condition: dispute_reason@, ..l },
                )
                &&& final(self).assets@ == old(self).assets@
                &&& final(self).stats == (AssetStats {
                    disputed_leases: (old(self).stats.disputed_leases + 1) as u64,
                    ..old(self).stats
                })
                &&& forall|u: u64| final(self).pf(u) == old(self).pf(u)
            },
    {
        if !(lease_id >= 1 && lease_id <= self.leases.len() as u64) {
            return Err(Error::NotFoundError);
        }
        let lidx: usize = (lease_id - 1) as usize;
        if self.leases[lidx].lessor != filer && self.leases[lidx].lessee != filer {
            return Err(Error::AuthorizationError);
        }
        let is_active = match self.leases[lidx].status {
            LeaseStatus::Active => true,
            _ => false,
        };
        if !is_active || self.leases[lidx].is_disputed {
            return Err(Error::StateError);
        }
        let ghost pre = *old(self);
        proof {
            assert(pre.lease_entry_wf(lease_id - 1));
            lemma_counts_bounded(pre.leases_sq());
            lemma_count_witness(pre.leases_sq(), lease_id - 1);
        }
        let mut nl = self.leases[lidx].clone();
        nl.is_disputed = true;
        nl.return_condition = dispute_reason;
        let ghost lv = nl@;
        self.leases.set(lidx, nl);
        self.stats.disputed_leases = self.stats.disputed_leases + 1;
        proof {
            let post = *self;
            let l = pre.leases_sq()[lease_id - 1];
            assert(post.leases_sq() =~= pre.leases_sq().update(lease_id - 1, lv));
            assert(lv == (LeaseView {
                is_disputed: true,
                return_condition: dispute_reason@,
                ..l
            }));
            lemma_counts_update(pre.leases_sq(), lease_id - 1, lv);
            assert(post.assets_sq() == pre.assets_sq());
            assert forall|u: u64| post.pf(u) == pre.pf(u) by {}
            assert forall|i: int|
                0 <= i < post.leases@.len() implies #[trigger] post.lease_entry_wf(i) by {
                assert(pre.lease_entry_wf(i));
            }
            assert forall|u: u64| #[trigger] post.portfolio_entry_wf(u) by {
                assert(pre.portfolio_entry_wf(u));
                let p0 = pre.pf(u);
                assert(post.pf(u) == p0);
                assert forall|id: u64| #[trigger]
                    p0.active_leases_as_lessee.contains(id) implies 1 <= id <= post.leases@.len()
                    && post.leases_sq()[id - 1].lessee == u && post.leases_sq()[id - 1].status
                    != LeaseStatus::Completed by {
                    if id - 1 != lease_id - 1 {
                        assert(post.leases_sq()[id - 1] == pre.leases_sq()[id - 1]);
                    }
                }
                assert forall|id: u64| #[trigger]
                    p0.active_leases_as_lessor.contains(id) implies 1 <= id <= post.leases@.len()
                    && post.leases_sq()[id - 1].lessor == u && post.leases_sq()[id - 1].status
                    != LeaseStatus::Completed by {
                    if id - 1 != lease_id - 1 {
                        assert(post.leases_sq()[id - 1] == pre.leases_sq()[id - 1]);
                    }
                }
            }
            assert forall|i: int|
                0 <= i < post.leases@.len() implies #[trigger] post.lease_listed_wf(i) by {
                assert(pre.lease_listed_wf(i));
            }
            assert(post.wf());
        }
        Ok(true)
    }

    /// Resolve an open dispute: any successfully authenticated caller may,
    /// and the arbiter flag is recorded nowhere — it does not alter the
    /// computed amounts.
    ///
    /// `NotFoundError` for an unknown lease; `StateError` when no dispute is
    /// open.  On success the lease turns `Completed` with the overlay
    /// cleared and the penalty of [`resolution_penalty`] — the unclamped
    /// percentage of the deposit — while the dispute reason stays in
    /// `return_condition`; the asset becomes available again, and the
    /// statistics and both portfolios move exactly as for a regular
    /// completion, with `disputed_leases` shrinking by one in addition.
    ///
    /// The caller has authenticated `admin`.
    #[allow(unused_variables)]
    pub fn resolve_dispute(
        &mut self,
        lease_id: u64,
        admin: u64,
        in_favor_of_lessor: bool,
        penalty_percentage: u64,
    ) -> (r: Result<bool, Error>)
        requires
            old(self).wf(),
            1 <= lease_id <= old(self).leases@.len() ==> {
                let l = old(self).leases_sq()[lease_id - 1];
                let pen = resolution_penalty(l, penalty_percentage);
                &&& in_i128(l.security_deposit * penalty_percentage)
                &&& in_i128(l.total_amount + l.security_deposit)
                &&& in_i128(
                    old(self).stats.total_value_locked - (l.total_amount + l.security_deposit),
                )
                &&& in_i128(l.total_amount + pen)
                &&& in_i128(old(self).stats.total_earnings + (l.total_amount + pen))
            },
        ensures
            final(self).wf(),
            r is Err ==> *final(self) == *old(self),
            !(1 <= lease_id <= old(self).leases@.len()) ==> r == Result::<bool, Error>::Err(
                Error::NotFoundError,
            ),
            1 <= lease_id <= old(self).leases@.len() ==> {
                let l = old(self).leases_sq()[lease_id - 1];
                &&& (!l.is_disputed ==> r == Result::<bool, Error>::Err(Error::StateError))
                &&& (l.is_disputed ==> r == Result::<bool, Error>::Ok(true))
            },
            r is Ok ==> {
                let l = old(self).leases_sq()[lease_id - 1];
                let pen = resolution_penalty(l, penalty_percentage);
                &&& final(self).leases_sq() == old(self).leases_sq().update(
                    lease_id - 1,
                    LeaseView {
                        status: LeaseStatus::Completed,
                        is_disputed: false,
                        penalty_amount: pen as i128,
                        ..l
                    },
                )
                &&& final(self).assets_sq() == old(self).assets_sq().update(
                    l.asset_id - 1,
                    AssetView { available: true, ..old(self).assets_sq()[l.asset_id - 1] },
                )
                &&& final(self).stats == (AssetStats {
                    active_leases: (old(self).stats.active_leases - 1) as u64,
                    completed_leases: (old(self).stats.completed_leases + 1) as u64,
                    disputed_leases: (old(self).stats.disputed_leases - 1) as u64,
                    total_value_locked: (old(self).stats.total_value_locked - (l.total_amount
                        + l.security_deposit)) as i128,
                    total_earnings: (old(self).stats.total_earnings + (l.total_amount
                        + pen)) as i128,
                    ..old(self).stats
                })
                &&& forall|u: u64|
                    u != l.lessee && u != l.lessor ==> final(self).pf(u) == old(self).pf(u)
                &&& (l.lessee != l.lessor ==> final(self).pf(l.lessee) == (PortfolioView {
                    active_leases_as_lessee: remove_all(
                        old(self).pf(l.lessee).active_leases_as_lessee,
                        lease_id,
                    ),
                    completed_leases: old(self).pf(l.lessee).completed_leases.push(lease_id),
                    ..old(self).pf(l.lessee)
                }) && final(self).pf(l.lessor) == (PortfolioView {
                    active_leases_as_lessor: remove_all(
                        old(self).pf(l.lessor).active_leases_as_lessor,
                        lease_id,
                    ),
                    completed_leases: old(self).pf(l.lessor).completed_leases.push(lease_id),
                    ..old(self).pf(l.lessor)
                }))
                &&& (l.lessee == l.lessor ==> final(self).pf(l.lessee) == (PortfolioView {
                    active_leases_as_lessee: remove_all(
                        old(self).pf(l.lessee).active_leases_as_lessee,
                        lease_id,
                    ),
                    active_leases_as_lessor: remove_all(
                        old(self).pf(l.lessee).active_leases_as_lessor,
                        lease_id,
                    ),
                    completed_leases: old(self).pf(l.lessee).completed_leases.push(lease_id).push(
                        lease_id,
                    ),
                    ..old(self).pf(l.lessee)
                }))
            },
    {
        if !(lease_id >= 1 && lease_id <= self.leases.len() as u64) {
            return Err(Error::NotFoundError);
        }
        let lidx: usize = (lease_id - 1) as usize;
        if !self.leases[lidx].is_disputed {
            return Err(Error::StateError);
        }
        let ghost pre = *old(self);
        proof {
            assert(pre.lease_entry_wf(lease_id - 1));
            lemma_counts_bounded(pre.leases_sq());
            lemma_count_member(pre.leases_sq(), lease_id - 1);
            lemma_count_witness(pre.leases_sq(), lease_id - 1);
        }
        let deposit = self.leases[lidx].security_deposit;
        let scaled = deposit * (penalty_percentage as i128);
        proof {
            vstd::arithmetic::div_mod::lemma_div_basics_4(scaled as int, 100);
            vstd::arithmetic::div_mod::lemma_div_basics_5(scaled as int, 100);
        }
        let penalty: i128 = scaled.checked_div(100).unwrap();
        proof {
            let l = pre.leases_sq()[lease_id - 1];
            assert(scaled == l.security_deposit * penalty_percentage);
            assert(scaled >= 0);
            assert(penalty == resolution_penalty(l, penalty_percentage));
        }
        let mut nl = self.leases[lidx].clone();
        nl.status = LeaseStatus::Completed;
        nl.is_disputed = false;
        nl.penalty_amount = penalty;
        let ghost lv = nl@;
        let total_amount = nl.total_amount;
        let asset_id = nl.asset_id;
        let lessee = nl.lessee;
        let lessor = nl.lessor;
        self.leases.set(lidx, nl);
        let n_assets: usize = self.assets.len();
        proof {
            assert(asset_id - 1 < n_assets);
        }
        let aidx: usize = (asset_id - 1) as usize;
        let mut freed = self.assets[aidx].clone();
        freed.available = true;
        self.assets.set(aidx, freed);
        self.stats.disputed_leases = self.stats.disputed_leases - 1;
        self.stats.active_leases = self.stats.active_leases - 1;
        self.stats.completed_leases = self.stats.completed_leases + 1;
        let locked = total_amount + deposit;
        self.stats.total_value_locked = self.stats.total_value_locked - locked;
        let earned = total_amount + penalty;
        self.stats.total_earnings = self.stats.total_earnings + earned;
        self.update_portfolios_on_completion(lease_id, lessee, lessor);
        proof {
            let post = *self;
            let l = pre.leases_sq()[lease_id - 1];
            let pen = resolution_penalty(l, penalty_percentage);
            assert(penalty == pen);
            assert(post.leases_sq() =~= pre.leases_sq().update(lease_id - 1, lv));
            assert(lv == (LeaseView {
                status: LeaseStatus::Completed,
                is_disputed: false,
                penalty_amount: pen as i128,
                ..l
            }));
            assert(post.assets_sq() =~= pre.assets_sq().update(
                l.asset_id - 1,
                AssetView { available: true, ..pre.assets_sq()[l.asset_id - 1] },
            ));
            lemma_counts_update(pre.leases_sq(), lease_id - 1, lv);
            assert forall|i: int|
                0 <= i < post.assets@.len() implies {
                    let av = #[trigger] post.assets_sq()[i];
                    &&& av.asset_id == i + 1
                    &&& av.asset_value > 0
                    &&& av.security_deposit >= 0
                } by {
                assert(pre.assets_sq()[i].asset_id == i + 1);
            }
            assert forall|i: int|
                0 <= i < post.leases@.len() implies #[trigger] post.lease_entry_wf(i) by {
                assert(pre.lease_entry_wf(i));
            }
            assert(post.stats_wf());
            assert forall|u: u64| #[trigger] post.portfolio_entry_wf(u) by {
                assert(pre.portfolio_entry_wf(u));
                let p0 = pre.pf(u);
                let p1 = post.pf(u);
                assert(p1.owned_assets == p0.owned_assets);
                assert forall|id: u64| #[trigger] p1.owned_assets.contains(id) implies 1 <= id
                    <= post.assets@.len() && post.assets_sq()[id - 1].owner == u by {
                    assert(post.assets_sq()[id - 1].owner == pre.assets_sq()[id - 1].owner);
                }
                if u == lessee || u == lessor {
                    lemma_remove_all(p0.active_leases_as_lessee, lease_id);
                    lemma_remove_all(p0.active_leases_as_lessor, lease_id);
                }
                assert forall|id: u64| #[trigger]
                    p1.active_leases_as_lessee.contains(id) implies 1 <= id <= post.leases@.len()
                    && post.leases_sq()[id - 1].lessee == u && post.leases_sq()[id - 1].status
                    != LeaseStatus::Completed by {
                    assert(p0.active_leases_as_lessee.contains(id) && id != lease_id);
                    assert(post.leases_sq()[id - 1] == pre.leases_sq()[id - 1]);
                }
                assert forall|id: u64| #[trigger]
                    p1.active_leases_as_lessor.contains(id) implies 1 <= id <= post.leases@.len()
                    && post.leases_sq()[id - 1].lessor == u && post.leases_sq()[id - 1].status
                    != LeaseStatus::Completed by {
                    assert(p0.active_leases_as_lessor.contains(id) && id != lease_id);
                    assert(post.leases_sq()[id - 1] == pre.leases_sq()[id - 1]);
                }
                assert forall|id: u64| #[trigger] p1.completed_leases.contains(id) implies 1 <= id
                    <= post.leases@.len() by {
                    if u == lessee || u == lessor {
                        lemma_contains_push(p0.completed_leases, lease_id, id);
                        lemma_contains_push(p0.completed_leases.push(lease_id), lease_id, id);
                    }
                }
                assert forall|id: u64| #[trigger] occurrences(p1.active_leases_as_lessee, id)
                    <= 1 by {
                    assert(occurrences(p0.active_leases_as_lessee, id) <= 1);
                }
                assert forall|id: u64| #[trigger] occurrences(p1.active_leases_as_lessor, id)
                    <= 1 by {
                    assert(occurrences(p0.active_leases_as_lessor, id) <= 1);
                }
                assert forall|id: u64| #[trigger] occurrences(p1.owned_assets, id) <= 1 by {
                    assert(occurrences(p0.owned_assets, id) <= 1);
                }
            }
            assert forall|i: int|
                0 <= i < post.leases@.len() implies #[trigger] post.lease_listed_wf(i) by {
                assert(pre.lease_listed_wf(i));
                assert(pre.lease_entry_wf(i));
                let l2 = post.leases_sq()[i];
                if i != lease_id - 1 {
                    assert(l2 == pre.leases_sq()[i]);
                    if l2.status != LeaseStatus::Completed {
                        assert(l2.lease_id != lease_id);
                        lemma_remove_all(pre.pf(l2.lessee).active_leases_as_lessee, lease_id);
                        lemma_occurrences_contains(
                            pre.pf(l2.lessee).active_leases_as_lessee,
                            l2.lease_id,
                        );
                        lemma_occurrences_contains(
                            remove_all(pre.pf(l2.lessee).active_leases_as_lessee, lease_id),
                            l2.lease_id,
                        );
                        lemma_remove_all(pre.pf(l2.lessor).active_leases_as_lessor, lease_id);
                        lemma_occurrences_contains(
                            pre.pf(l2.lessor).active_leases_as_lessor,
                            l2.lease_id,
                        );
                        lemma_occurrences_contains(
                            remove_all(pre.pf(l2.lessor).active_leases_as_lessor, lease_id),
                            l2.lease_id,
                        );
                    }
                }
            }
            assert(post.wf());
        }
        Ok(true)
    }

    /// Update an asset's mutable fields: only the stored owner may.
    ///
    /// `NotFoundError` for an unknown asset; `AuthorizationError` when
    /// `owner` is not the asset's owner.  On success the six listed fields
    /// are overwritten in place — none of the new values is validated —
    /// while `asset_value`, `security_deposit`, `owner` and `created_at`
    /// stay immutable; nothing else moves.
    ///
    /// The caller has authenticated `owner`.
    pub fn update_asset(
        &mut self,
        asset_id: u64,
        owner: u64,
        title: String,
        description: String,
        daily_rate: i128,
        available: bool,
        min_lease_days: u64,
        max_lease_days: u64,
    ) -> (r: Result<bool, Error>)
        requires
            old(self).wf(),
        ensures
            final(self).wf(),
            r is Err ==> *final(self) == *old(self),
            !(1 <= asset_id <= old(self).assets@.len()) ==> r == Result::<bool, Error>::Err(
                Error::NotFoundError,
            ),
            1 <= asset_id <= old(self).assets@.len() ==> {
                let a = old(self).assets_sq()[asset_id - 1];
                &&& (a.owner != owner ==> r == Result::<bool, Error>::Err(
                    Error::AuthorizationError,
                ))
                &&& (a.owner == owner ==> r == Result::<bool, Error>::Ok(true))
            },
            r is Ok ==> {
                let a = old(self).assets_sq()[asset_id - 1];
                &&& final(self).assets_sq() == old(self).assets_sq().update(
                    asset_id - 1,
                    AssetView {
                        title: title@,
                        description: description@,
                        daily_rate,
                        available,
                        min_lease_days,
                        max_lease_days,
                        ..a
                    },
                )
                &&& final(self).leases@ == old(self).leases@
                &&& final(self).stats == old(self).stats
                &&& forall|u: u64| final(self).pf(u) == old(self).pf(u)
            },
    {
        if !(asset_id >= 1 && asset_id <= self.assets.len() as u64) {
            return Err(Error::NotFoundError);
        }
        let aidx: usize = (asset_id - 1) as usize;
        if self.assets[aidx].owner != owner {
            return Err(Error::AuthorizationError);
        }
        let ghost pre = *old(self);
        let mut na = self.assets[aidx].clone();
        na.title = title;
        na.description = description;
        na.daily_rate = daily_rate;
        na.available = available;
        na.min_lease_days = min_lease_days;
        na.max_lease_days = max_lease_days;
        let ghost av = na@;
        self.assets.set(aidx, na);
        proof {
            let post = *self;
            let a = pre.assets_sq()[asset_id - 1];
            assert(post.assets_sq() =~= pre.assets_sq().update(asset_id - 1, av));
            assert(av == (AssetView {
                title: title@,
                description: description@,
                daily_rate,
                available,
                min_lease_days,
                max_lease_days,
                ..a
            }));
            assert(post.leases_sq() == pre.leases_sq());
            assert forall|u: u64| post.pf(u) == pre.pf(u) by {}
            assert forall|i: int|
                0 <= i < post.assets@.len() implies {
                    let av2 = #[trigger] post.assets_sq()[i];
                    &&& av2.asset_id == i + 1
                    &&& av2.asset_value > 0
                    &&& av2.security_deposit >= 0
                } by {
                assert(pre.assets_sq()[i].asset_id == i + 1);
            }
            assert forall|i: int|
                0 <= i < post.leases@.len() implies #[trigger] post.lease_entry_wf(i) by {
                assert(pre.lease_entry_wf(i));
            }
            assert forall|u: u64| #[trigger] post.portfolio_entry_wf(u) by {
                assert(pre.portfolio_entry_wf(u));
                let p0 = pre.pf(u);
                assert(post.pf(u) == p0);
                assert forall|id: u64| #[trigger] p0.owned_assets.contains(id) implies 1 <= id
                    <= post.assets@.len() && post.assets_sq()[id - 1].owner == u by {
                    assert(post.assets_sq()[id - 1].owner == pre.assets_sq()[id - 1].owner);
                }
            }
            assert forall|i: int|
                0 <= i < post.leases@.len() implies #[trigger] post.lease_listed_wf(i) by {
                assert(pre.lease_listed_wf(i));
            }
            assert(post.wf());
        }
        Ok(true)
    }

    /// The assets owned by `user`, in the order of the owned-assets list.
    pub fn get_user_assets(&self, user: u64) -> (r: Vec<Asset>)
        requires
            self.wf(),
        ensures
            r@.len() == self.pf(user).owned_assets.len(),
            forall|j: int|
                0 <= j < r@.len() ==> r@[j]@ == self.assets_sq()[self.pf(user).owned_assets[j]
                    - 1],
    {
        let p = self.get_user_portfolio(user);
        let mut out: Vec<Asset> = Vec::new();
        let mut i: usize = 0;
        while i < p.owned_assets.len()
            invariant
                self.wf(),
                p@ == self.pf(user),
                0 <= i <= p.owned_assets@.len(),
                out@.len() == i,
                forall|j: int|
                    0 <= j < i ==> out@[j]@ == self.assets_sq()[p.owned_assets@[j] - 1],
            decreases p.owned_assets@.len() - i,
        {
            let id = p.owned_assets[i];
            let n_assets: usize = self.assets.len();
            proof {
                assert(self.portfolio_entry_wf(user));
                assert(self.pf(user).owned_assets[i as int] == id);
                assert(self.pf(user).owned_assets.contains(id));
                assert(id - 1 < n_assets);
            }
            let a = self.assets[(id - 1) as usize].clone();
            out.push(a);
            i = i + 1;
        }
        out
    }

    /// The leases in which `user` is currently engaged: those of the
    /// active-as-lessee list followed by those of the active-as-lessor list
    /// that are not already present — one record per lease even where the
    /// user plays both roles.
    pub fn get_user_active_leases(&self, user: u64) -> (r: Vec<Lease>)
        requires
            self.wf(),
        ensures
            ids_of(r@) == dedup_extend(
                self.pf(user).active_leases_as_lessee,
                self.pf(user).active_leases_as_lessor,
            ),
            forall|j: int| 0 <= j < r@.len() ==> r@[j]@ == self.leases_sq()[ids_of(r@)[j] - 1],
    {
        let p = self.get_user_portfolio(user);
        let mut out: Vec<Lease> = Vec::new();
        let mut i: usize = 0;
        while i < p.active_leases_as_lessee.len()
            invariant
                self.wf(),
                p@ == self.pf(user),
                0 <= i <= p.active_leases_as_lessee@.len(),
                ids_of(out@) == p.active_leases_as_lessee@.subrange(0, i as int),
                forall|j: int|
                    0 <= j < out@.len() ==> out@[j]@ == self.leases_sq()[ids_of(out@)[j] - 1],
            decreases p.active_leases_as_lessee@.len() - i,
        {
            let id = p.active_leases_as_lessee[i];
            let n_leases: usize = self.leases.len();
            proof {
                assert(self.portfolio_entry_wf(user));
                assert(self.pf(user).active_leases_as_lessee[i as int] == id);
                assert(self.pf(user).active_leases_as_lessee.contains(id));
                assert(id - 1 < n_leases);
                assert(self.lease_entry_wf(id - 1));
            }
            let ghost prev_ids = ids_of(out@);
            let l = self.leases[(id - 1) as usize].clone();
            out.push(l);
            i = i + 1;
            proof {
                assert(ids_of(out@) =~= prev_ids.push(id));
                assert(ids_of(out@) =~= p.active_leases_as_lessee@.subrange(0, i as int));
            }
        }
        proof {
            assert(p.active_leases_as_lessee@.subrange(0, p.active_leases_as_lessee@.len() as int)
                =~= p.active_leases_as_lessee@);
            assert(dedup_extend(p.active_leases_as_lessee@, Seq::<u64>::empty())
                == p.active_leases_as_lessee@);
        }
        let mut k: usize = 0;
        while k < p.active_leases_as_lessor.len()
            invariant
                self.wf(),
                p@ == self.pf(user),
                0 <= k <= p.active_leases_as_lessor@.len(),
                ids_of(out@) == dedup_extend(
                    p.active_leases_as_lessee@,
                    p.active_leases_as_lessor@.subrange(0, k as int),
                ),
                forall|j: int|
                    0 <= j < out@.len() ==> out@[j]@ == self.leases_sq()[ids_of(out@)[j] - 1],
            decreases p.active_leases_as_lessor@.len() - k,
        {
            let id = p.active_leases_as_lessor[k];
            let n_leases: usize = self.leases.len();
            proof {
                assert(self.portfolio_entry_wf(user));
                assert(self.pf(user).active_leases_as_lessor[k as int] == id);
                assert(self.pf(user).active_leases_as_lessor.contains(id));
                assert(id - 1 < n_leases);
                assert(self.lease_entry_wf(id - 1));
                assert(p.active_leases_as_lessor@.subrange(0, k as int + 1).drop_last()
                    =~= p.active_leases_as_lessor@.subrange(0, k as int));
                assert(p.active_leases_as_lessor@.subrange(0, k as int + 1).last()
                    == p.active_leases_as_lessor@[k as int]);
            }
            let mut seen = false;
            let mut t: usize = 0;
            while t < out.len()
                invariant
                    0 <= t <= out@.len(),
                    seen <==> exists|j: int| 0 <= j < t && ids_of(out@)[j] == id,
                decreases out@.len() - t,
            {
                if out[t].lease_id == id {
                    proof {
                        assert(ids_of(out@)[t as int] == id);
                    }
                    seen = true;
                }
                t = t + 1;
            }
            proof {
                if seen {
                    assert(ids_of(out@).contains(id));
                } else {
                    if ids_of(out@).contains(id) {
                        let j = choose|j: int|
                            0 <= j < ids_of(out@).len() && ids_of(out@)[j] == id;
                        assert(false);
                    }
                }
            }
            if !seen {
                let ghost prev_ids = ids_of(out@);
                let l = self.leases[(id - 1) as usize].clone();
                out.push(l);
                proof {
                    assert(ids_of(out@) =~= prev_ids.push(id));
                }
            }
            k = k + 1;
        }
        proof {
            assert(p.active_leases_as_lessor@.subrange(0, p.active_leases_as_lessor@.len() as int)
                =~= p.active_leases_as_lessor@);
        }
        out
    }

    /// A copy of `v` without any occurrence of `x`, the relative order of
    /// the rest preserved.
    fn remove_matches(v: &Vec<u64>, x: u64) -> (out: Vec<u64>)
        ensures
            out@ == remove_all(v@, x),
    {
        let mut out: Vec<u64> = Vec::new();
        let mut i: usize = 0;
        while i < v.len()
            invariant
                0 <= i <= v.len(),
                out@ == remove_all(v@.subrange(0, i as int), x),
            decreases v.len() - i,
        {
            proof {
                assert(v@.subrange(0, i as int + 1).drop_last() =~= v@.subrange(0, i as int));
                assert(v@.subrange(0, i as int + 1).last() == v@[i as int]);
            }
            if v[i] != x {
                out.push(v[i]);
            }
            i = i + 1;
        }
        proof {
            assert(v@.subrange(0, v@.len() as int) =~= v@);
        }
        out
    }
}

} // verus!
