//! The lease lifecycle end to end: proposal, approval, completion, disputes,
//! and the statistics that accompany every transition.

use asset_leasing::ledger::AssetLeasingContract;
use asset_leasing::types::Error;

const OWNER: u64 = 7;
const RENTER: u64 = 9;

fn ledger_with_asset() -> AssetLeasingContract {
    let mut c = AssetLeasingContract::new();
    let r = c.register_asset(
        OWNER,
        String::from("camera"),
        String::from("mirrorless body"),
        10_000,
        100,
        1,
        30,
        500,
        1_000,
    );
    assert_eq!(r, Ok(1));
    c
}

#[test]
fn create_reserves_asset_immediately() {
    let mut c = ledger_with_asset();
    assert!(c.get_asset(1).unwrap().available);
    let r = c.create_lease(1, RENTER, 10, 2_000);
    assert_eq!(r, Ok(1));
    let a = c.get_asset(1).unwrap();
    assert!(!a.available);
    // The proposal itself moves no counter.
    let s = c.get_asset_stats();
    assert_eq!(s.active_leases, 0);
    assert_eq!(s.total_value_locked, 0);
    // The lease is pending, with the asset's terms copied over.
    let l = c.get_lease(1).unwrap();
    assert_eq!(l.total_amount, 1_000);
    assert_eq!(l.security_deposit, 500);
    assert_eq!(l.daily_rate, 100);
    assert_eq!(l.start_time, 2_000);
    assert_eq!(l.end_time, 2_000 + 10 * 86_400);
    assert_eq!(l.last_payment, 0);
    assert_eq!(l.return_condition, String::new());
}

#[test]
fn create_on_reserved_asset_fails_without_side_effects() {
    let mut c = ledger_with_asset();
    assert_eq!(c.create_lease(1, RENTER, 10, 2_000), Ok(1));
    let stats_before = c.get_asset_stats();
    let r = c.create_lease(1, 11, 5, 3_000);
    assert_eq!(r, Err(Error::StateError));
    // No counter or portfolio mutation is observable.
    assert_eq!(c.get_asset_stats(), stats_before);
    let p = c.get_user_portfolio(11);
    assert!(p.active_leases_as_lessee.is_empty());
    assert!(matches!(c.get_lease(2), Err(Error::NotFoundError)));
}

#[test]
fn create_rejects_days_out_of_range() {
    let mut c = ledger_with_asset();
    assert_eq!(c.create_lease(1, RENTER, 0, 2_000), Err(Error::ValidationError));
    assert_eq!(c.create_lease(1, RENTER, 31, 2_000), Err(Error::ValidationError));
    assert_eq!(c.create_lease(1, RENTER, 30, 2_000), Ok(1));
}

#[test]
fn create_unknown_asset_not_found() {
    let mut c = ledger_with_asset();
    assert_eq!(c.create_lease(2, RENTER, 10, 2_000), Err(Error::NotFoundError));
    assert_eq!(c.create_lease(0, RENTER, 10, 2_000), Err(Error::NotFoundError));
}

#[test]
fn approve_activates_and_locks_value() {
    let mut c = ledger_with_asset();
    assert_eq!(c.create_lease(1, RENTER, 10, 2_000), Ok(1));
    let r = c.approve_lease(1, OWNER, 3_000);
    assert_eq!(r, Ok(true));
    let s = c.get_asset_stats();
    assert_eq!(s.active_leases, 1);
    assert_eq!(s.total_value_locked, 1_500);
    assert_eq!(c.get_lease(1).unwrap().last_payment, 3_000);
}

#[test]
fn approve_requires_the_stored_lessor() {
    let mut c = ledger_with_asset();
    assert_eq!(c.create_lease(1, RENTER, 10, 2_000), Ok(1));
    assert_eq!(c.approve_lease(1, RENTER, 3_000), Err(Error::AuthorizationError));
    assert_eq!(c.approve_lease(2, OWNER, 3_000), Err(Error::NotFoundError));
}

#[test]
fn approve_twice_fails_the_second_time() {
    let mut c = ledger_with_asset();
    assert_eq!(c.create_lease(1, RENTER, 10, 2_000), Ok(1));
    assert_eq!(c.approve_lease(1, OWNER, 3_000), Ok(true));
    let stats_before = c.get_asset_stats();
    assert_eq!(c.approve_lease(1, OWNER, 4_000), Err(Error::StateError));
    assert_eq!(c.get_asset_stats(), stats_before);
}

#[test]
fn timely_return_carries_no_penalty_and_relocates_once() {
    let mut c = ledger_with_asset();
    assert_eq!(c.create_lease(1, RENTER, 10, 2_000), Ok(1));
    assert_eq!(c.approve_lease(1, OWNER, 3_000), Ok(true));
    let end_time = c.get_lease(1).unwrap().end_time;
    let r = c.complete_lease(1, RENTER, String::from("fine"), false, end_time);
    assert_eq!(r, Ok(true));
    let l = c.get_lease(1).unwrap();
    assert_eq!(l.penalty_amount, 0);
    assert_eq!(l.return_condition, String::from("fine"));
    // The id leaves both active lists and lands in each completed list once.
    let renter = c.get_user_portfolio(RENTER);
    assert!(renter.active_leases_as_lessee.is_empty());
    assert_eq!(renter.completed_leases, vec![1]);
    let owner = c.get_user_portfolio(OWNER);
    assert!(owner.active_leases_as_lessor.is_empty());
    assert_eq!(owner.completed_leases, vec![1]);
    assert!(c.get_asset(1).unwrap().available);
}

#[test]
fn late_return_scenario_matches_exact_amounts() {
    let mut c = ledger_with_asset();
    assert_eq!(c.create_lease(1, RENTER, 10, 2_000), Ok(1));
    assert_eq!(c.approve_lease(1, OWNER, 3_000), Ok(true));
    let locked_before = c.get_asset_stats().total_value_locked;
    assert_eq!(locked_before, 1_500);
    let end_time = c.get_lease(1).unwrap().end_time;
    // Two whole days late, no damages: (100 / 10) * 2.
    let r = c.complete_lease(1, RENTER, String::from("ok"), false, end_time + 2 * 86_400);
    assert_eq!(r, Ok(true));
    assert_eq!(c.get_lease(1).unwrap().penalty_amount, 20);
    let s = c.get_asset_stats();
    assert_eq!(s.total_earnings, 1_020);
    assert_eq!(s.total_value_locked, locked_before - 1_500);
    assert_eq!(s.active_leases, 0);
    assert_eq!(s.completed_leases, 1);
}

#[test]
fn damages_cost_a_quarter_of_the_deposit() {
    let mut c = ledger_with_asset();
    assert_eq!(c.create_lease(1, RENTER, 10, 2_000), Ok(1));
    assert_eq!(c.approve_lease(1, OWNER, 3_000), Ok(true));
    let r = c.complete_lease(1, RENTER, String::from("scratched"), true, 4_000);
    assert_eq!(r, Ok(true));
    // 500 / 4, rounded toward zero.
    assert_eq!(c.get_lease(1).unwrap().penalty_amount, 125);
    assert_eq!(c.get_asset_stats().total_earnings, 1_125);
}

#[test]
fn complete_requires_the_stored_lessee_and_an_active_lease() {
    let mut c = ledger_with_asset();
    assert_eq!(c.create_lease(1, RENTER, 10, 2_000), Ok(1));
    // Pending: not yet completable.
    assert_eq!(
        c.complete_lease(1, RENTER, String::new(), false, 3_000),
        Err(Error::StateError)
    );
    assert_eq!(c.approve_lease(1, OWNER, 3_000), Ok(true));
    assert_eq!(
        c.complete_lease(1, OWNER, String::new(), false, 4_000),
        Err(Error::AuthorizationError)
    );
    assert_eq!(
        c.complete_lease(9_999, RENTER, String::new(), false, 4_000),
        Err(Error::NotFoundError)
    );
}
