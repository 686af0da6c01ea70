//! Data model of the leasing ledger: assets, leases, user portfolios,
//! global statistics, and the error taxonomy.

use vstd::prelude::*;

verus! {

/// Why an operation was refused.  Every failure aborts the whole operation:
/// a refused call leaves the ledger exactly as it was.
#[derive(Clone, Copy, PartialEq, Eq, Structural, Debug)]
pub enum Error {
    /// A numeric parameter is malformed (non-positive rate or value,
    /// negative deposit) or the requested lease duration is out of range.
    ValidationError,
    /// The acting party is not the address the operation requires.
    AuthorizationError,
    /// The operation is invalid for the entity's current state.
    StateError,
    /// No asset or lease is registered under the given identifier.
    NotFoundError,
}

/// The lease lifecycle vocabulary.  Only `Pending`, `Active` and `Completed`
/// are reachable lease states; `Disputed` is modelled as an overlay flag on
/// an `Active` lease (see [`Lease::is_disputed`]), and no transition to
/// `Canceled` exists.
#[derive(Clone, Copy, PartialEq, Eq, Structural, Debug)]
pub enum LeaseStatus {
    Pending,
    Active,
    Completed,
    Disputed,
    Canceled,
}

/// The single global rollup record, kept in lock-step with every lifecycle
/// transition.
#[derive(Clone, Copy, PartialEq, Eq, Structural, Debug)]
pub struct AssetStats {
    /// Number of registered assets.
    pub total_assets: u64,
    /// Number of leases currently in the `Active` state.
    pub active_leases: u64,
    /// Number of leases in the terminal `Completed` state.
    pub completed_leases: u64,
    /// Number of leases whose dispute overlay is set.
    pub disputed_leases: u64,
    /// Sum of `total_amount + security_deposit` over the active leases.
    pub total_value_locked: i128,
    /// Sum of `total_amount + penalty_amount` over the finished leases.
    pub total_earnings: i128,
}

/// A leasable asset.  `asset_id`, `owner`, `asset_value`, `security_deposit`
/// and `created_at` are immutable after registration.
pub struct Asset {
    /// Identifier assigned by a monotonic counter starting at 1; never reused.
    pub asset_id: u64,
    /// The owner's address, as resolved by the host's authentication.
    pub owner: u64,
    pub title: String,
    pub description: String,
    pub asset_value: i128,
    pub daily_rate: i128,
    /// Whether a new lease may currently be proposed for this asset.
    pub available: bool,
    pub min_lease_days: u64,
    pub max_lease_days: u64,
    pub security_deposit: i128,
    /// Ledger timestamp of the registration.
    pub created_at: u64,
}

/// Mathematical value of an [`Asset`].
#[verifier::ext_equal]
pub ghost struct AssetView {
    pub asset_id: u64,
    pub owner: u64,
    pub title: Seq<char>,
    pub description: Seq<char>,
    pub asset_value: i128,
    pub daily_rate: i128,
    pub available: bool,
    pub min_lease_days: u64,
    pub max_lease_days: u64,
    pub security_deposit: i128,
    pub created_at: u64,
}

impl View for Asset {
    type V = AssetView;

    open spec fn view(&self) -> AssetView {
        AssetView {
            asset_id: self.asset_id,
            owner: self.owner,
            title: self.title@,
            description: self.description@,
            asset_value: self.asset_value,
            daily_rate: self.daily_rate,
            available: self.available,
            min_lease_days: self.min_lease_days,
            max_lease_days: self.max_lease_days,
            security_deposit: self.security_deposit,
            created_at: self.created_at,
        }
    }
}

impl Clone for Asset {
    fn clone(&self) -> (res: Asset)
        ensures
            res@ == self@,
    {
        Asset {
            asset_id: self.asset_id,
            owner: self.owner,
            title: self.title.clone(),
            description: self.description.clone(),
            asset_value: self.asset_value,
            daily_rate: self.daily_rate,
            available: self.available,
            min_lease_days: self.min_lease_days,
            max_lease_days: self.max_lease_days,
            security_deposit: self.security_deposit,
            created_at: self.created_at,
        }
    }
}

/// A lease between the asset's owner (`lessor`) and a `lessee`.  The monetary
/// fields are copied from the asset when the lease is proposed and are
/// immutable thereafter.
pub struct Lease {
    /// Identifier assigned by a monotonic counter starting at 1; never reused.
    pub lease_id: u64,
    pub asset_id: u64,
    pub lessor: u64,
    pub lessee: u64,
    pub start_time: u64,
    pub end_time: u64,
    pub total_amount: i128,
    pub security_deposit: i128,
    /// Lifecycle state; only `Pending`, `Active` and `Completed` are reachable.
    pub status: LeaseStatus,
    /// Dispute overlay; set only while the lease is `Active`.
    pub is_disputed: bool,
    pub last_payment: u64,
    /// Holds the return notes or, while disputed, the dispute reason: one
    /// overloaded free-text field, kept as such for behavioural parity.
    pub return_condition: String,
    pub penalty_amount: i128,
    pub daily_rate: i128,
}

/// Mathematical value of a [`Lease`].
#[verifier::ext_equal]
pub ghost struct LeaseView {
    pub lease_id: u64,
    pub asset_id: u64,
    pub lessor: u64,
    pub lessee: u64,
    pub start_time: u64,
    pub end_time: u64,
    pub total_amount: i128,
    pub security_deposit: i128,
    pub status: LeaseStatus,
    pub is_disputed: bool,
    pub last_payment: u64,
    pub return_condition: Seq<char>,
    pub penalty_amount: i128,
    pub daily_rate: i128,
}

impl View for Lease {
    type V = LeaseView;

    open spec fn view(&self) -> LeaseView {
        LeaseView {
            lease_id: self.lease_id,
            asset_id: self.asset_id,
            lessor: self.lessor,
            lessee: self.lessee,
            start_time: self.start_time,
            end_time: self.end_time,
            total_amount: self.total_amount,
            security_deposit: self.security_deposit,
            status: self.status,
            is_disputed: self.is_disputed,
            last_payment: self.last_payment,
            return_condition: self.return_condition@,
            penalty_amount: self.penalty_amount,
            daily_rate: self.daily_rate,
        }
    }
}

impl Clone for Lease {
    fn clone(&self) -> (res: Lease)
        ensures
            res@ == self@,
    {
        Lease {
            lease_id: self.lease_id,
            asset_id: self.asset_id,
            lessor: self.lessor,
            lessee: self.lessee,
            start_time: self.start_time,
            end_time: self.end_time,
            total_amount: self.total_amount,
            security_deposit: self.security_deposit,
            status: self.status,
            is_disputed: self.is_disputed,
            last_payment: self.last_payment,
            return_condition: self.return_condition.clone(),
            penalty_amount: self.penalty_amount,
            daily_rate: self.daily_rate,
        }
    }
}

/// Per-address index of owned assets and lease memberships.  The lists hold
/// identifiers in the order the events happened.
pub struct UserPortfolio {
    pub owned_assets: Vec<u64>,
    pub active_leases_as_lessor: Vec<u64>,
    pub active_leases_as_lessee: Vec<u64>,
    pub completed_leases: Vec<u64>,
}

/// Mathematical value of a [`UserPortfolio`].
#[verifier::ext_equal]
pub ghost struct PortfolioView {
    pub owned_assets: Seq<u64>,
    pub active_leases_as_lessor: Seq<u64>,
    pub active_leases_as_lessee: Seq<u64>,
    pub completed_leases: Seq<u64>,
}

impl PortfolioView {
    /// The portfolio of an address that no event has touched yet.
    pub open spec fn empty() -> PortfolioView {
        PortfolioView {
            owned_assets: Seq::empty(),
            active_leases_as_lessor: Seq::empty(),
            active_leases_as_lessee: Seq::empty(),
            completed_leases: Seq::empty(),
        }
    }
}

impl View for UserPortfolio {
    type V = PortfolioView;

    open spec fn view(&self) -> PortfolioView {
        PortfolioView {
            owned_assets: self.owned_assets@,
            active_leases_as_lessor: self.active_leases_as_lessor@,
            active_leases_as_lessee: self.active_leases_as_lessee@,
            completed_leases: self.completed_leases@,
        }
    }
}

impl UserPortfolio {
    /// A portfolio with all four lists empty, as handed out on first access.
    pub fn new_empty() -> (p: UserPortfolio)
        ensures
            p@ == PortfolioView::empty(),
    {
        let p = UserPortfolio {
            owned_assets: Vec::new(),
            active_leases_as_lessor: Vec::new(),
            active_leases_as_lessee: Vec::new(),
            completed_leases: Vec::new(),
        };
        proof {
            assert(p@ =~= PortfolioView::empty());
        }
        p
    }
}

impl Clone for UserPortfolio {
    fn clone(&self) -> (res: UserPortfolio)
        ensures
            res@ == self@,
    {
        let res = UserPortfolio {
            owned_assets: self.owned_assets.clone(),
            active_leases_as_lessor: self.active_leases_as_lessor.clone(),
            active_leases_as_lessee: self.active_leases_as_lessee.clone(),
            completed_leases: self.completed_leases.clone(),
        };
        proof {
            assert(res.owned_assets@ =~= self.owned_assets@);
            assert(res.active_leases_as_lessor@ =~= self.active_leases_as_lessor@);
            assert(res.active_leases_as_lessee@ =~= self.active_leases_as_lessee@);
            assert(res.completed_leases@ =~= self.completed_leases@);
            assert(res@ =~= self@);
        }
        res
    }
}

} // verus!
