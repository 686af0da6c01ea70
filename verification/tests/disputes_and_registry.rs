//! Dispute filing and resolution, asset registration and updates, the
//! portfolio reads, and the statistics invariants observable through them.

use asset_leasing::ledger::AssetLeasingContract;
use asset_leasing::types::Error;

const OWNER: u64 = 7;
const RENTER: u64 = 9;
const STRANGER: u64 = 13;

fn ledger_with_active_lease() -> AssetLeasingContract {
    let mut c = AssetLeasingContract::new();
    let r = c.register_asset(
        OWNER,
        String::from("camera"),
        String::from("mirrorless body"),
        10_000,
        100,
        1,
        30,
        500,
        1_000,
    );
    assert_eq!(r, Ok(1));
    assert_eq!(c.create_lease(1, RENTER, 10, 2_000), Ok(1));
    assert_eq!(c.approve_lease(1, OWNER, 3_000), Ok(true));
    c
}

#[test]
fn register_assigns_dense_identifiers_and_counts() {
    let mut c = AssetLeasingContract::new();
    let first = c.register_asset(
        OWNER,
        String::from("a"),
        String::from("one"),
        10,
        1,
        1,
        5,
        0,
        100,
    );
    let second = c.register_asset(
        OWNER,
        String::from("b"),
        String::from("two"),
        20,
        2,
        1,
        5,
        0,
        200,
    );
    assert_eq!(first, Ok(1));
    assert_eq!(second, Ok(2));
    assert_eq!(c.get_asset_stats().total_assets, 2);
    let owned = c.get_user_assets(OWNER);
    assert_eq!(owned.len(), 2);
    assert_eq!(owned[0].asset_id, 1);
    assert_eq!(owned[1].asset_id, 2);
    assert_eq!(c.get_user_portfolio(OWNER).owned_assets, vec![1, 2]);
}

#[test]
fn register_rejects_malformed_parameters() {
    let mut c = AssetLeasingContract::new();
    let title = String::from("a");
    let desc = String::from("b");
    assert_eq!(
        c.register_asset(OWNER, title.clone(), desc.clone(), 10, 0, 1, 5, 0, 100),
        Err(Error::ValidationError)
    );
    assert_eq!(
        c.register_asset(OWNER, title.clone(), desc.clone(), 0, 1, 1, 5, 0, 100),
        Err(Error::ValidationError)
    );
    assert_eq!(
        c.register_asset(OWNER, title, desc, 10, 1, 1, 5, -1, 100),
        Err(Error::ValidationError)
    );
    // A refused registration is not counted.
    assert_eq!(c.get_asset_stats().total_assets, 0);
}

#[test]
fn file_dispute_sets_overlay_and_overwrites_the_notes_field() {
    let mut c = ledger_with_active_lease();
    let r = c.file_dispute(1, RENTER, String::from("item broke"));
    assert_eq!(r, Ok(true));
    let l = c.get_lease(1).unwrap();
    assert!(l.is_disputed);
    assert_eq!(l.return_condition, String::from("item broke"));
    assert_eq!(c.get_asset_stats().disputed_leases, 1);
    // A second filing on the same open dispute is refused, so the counter
    // cannot drift from the records.
    assert_eq!(c.file_dispute(1, OWNER, String::from("again")), Err(Error::StateError));
    assert_eq!(c.get_asset_stats().disputed_leases, 1);
}

#[test]
fn file_dispute_guards() {
    let mut c = ledger_with_active_lease();
    assert_eq!(
        c.file_dispute(1, STRANGER, String::from("not mine")),
        Err(Error::AuthorizationError)
    );
    assert_eq!(c.file_dispute(2, RENTER, String::from("x")), Err(Error::NotFoundError));
    let mut fresh = AssetLeasingContract::new();
    let r = fresh.register_asset(
        OWNER,
        String::from("a"),
        String::from("b"),
        10,
        1,
        1,
        5,
        0,
        100,
    );
    assert_eq!(r, Ok(1));
    assert_eq!(fresh.create_lease(1, RENTER, 2, 200), Ok(1));
    // Pending leases cannot be disputed.
    assert_eq!(fresh.file_dispute(1, RENTER, String::from("x")), Err(Error::StateError));
}

#[test]
fn resolution_penalty_is_unclamped() {
    let mut c = ledger_with_active_lease();
    assert_eq!(c.file_dispute(1, OWNER, String::from("damaged beyond repair")), Ok(true));
    // 150 percent of the 500 deposit exceeds the deposit and is accepted as is.
    let r = c.resolve_dispute(1, STRANGER, true, 150);
    assert_eq!(r, Ok(true));
    let l = c.get_lease(1).unwrap();
    assert_eq!(l.penalty_amount, 750);
    assert!(!l.is_disputed);
    // The dispute reason stays in the overloaded field.
    assert_eq!(l.return_condition, String::from("damaged beyond repair"));
    let s = c.get_asset_stats();
    assert_eq!(s.disputed_leases, 0);
    assert_eq!(s.active_leases, 0);
    assert_eq!(s.completed_leases, 1);
    assert_eq!(s.total_value_locked, 0);
    assert_eq!(s.total_earnings, 1_000 + 750);
    assert!(c.get_asset(1).unwrap().available);
    // Both portfolios moved the id to their completed lists.
    assert_eq!(c.get_user_portfolio(RENTER).completed_leases, vec![1]);
    assert_eq!(c.get_user_portfolio(OWNER).completed_leases, vec![1]);
}

#[test]
fn resolve_requires_an_open_dispute() {
    let mut c = ledger_with_active_lease();
    assert_eq!(c.resolve_dispute(1, STRANGER, false, 50), Err(Error::StateError));
    assert_eq!(c.resolve_dispute(2, STRANGER, false, 50), Err(Error::NotFoundError));
}

#[test]
fn disputed_lease_completes_only_through_resolution() {
    let mut c = ledger_with_active_lease();
    assert_eq!(c.file_dispute(1, RENTER, String::from("broken")), Ok(true));
    assert_eq!(
        c.complete_lease(1, RENTER, String::from("done"), false, 4_000),
        Err(Error::StateError)
    );
    assert_eq!(c.resolve_dispute(1, STRANGER, false, 0), Ok(true));
    assert_eq!(c.get_lease(1).unwrap().penalty_amount, 0);
}

#[test]
fn completed_is_terminal() {
    let mut c = ledger_with_active_lease();
    assert_eq!(c.complete_lease(1, RENTER, String::from("ok"), false, 4_000), Ok(true));
    // A completed lease can neither be re-approved nor completed again.
    assert_eq!(c.approve_lease(1, OWNER, 5_000), Err(Error::StateError));
    assert_eq!(
        c.complete_lease(1, RENTER, String::from("again"), false, 5_000),
        Err(Error::StateError)
    );
    assert_eq!(c.file_dispute(1, RENTER, String::from("late")), Err(Error::StateError));
}

#[test]
fn resolve_twice_fails_the_second_time() {
    let mut c = ledger_with_active_lease();
    assert_eq!(c.file_dispute(1, RENTER, String::from("broken")), Ok(true));
    assert_eq!(c.resolve_dispute(1, STRANGER, true, 50), Ok(true));
    let stats_before = c.get_asset_stats();
    assert_eq!(c.resolve_dispute(1, STRANGER, true, 50), Err(Error::StateError));
    assert_eq!(c.get_asset_stats(), stats_before);
}

#[test]
fn update_asset_overwrites_only_the_mutable_fields() {
    let mut c = AssetLeasingContract::new();
    let r = c.register_asset(
        OWNER,
        String::from("old title"),
        String::from("old description"),
        10_000,
        100,
        1,
        30,
        500,
        1_000,
    );
    assert_eq!(r, Ok(1));
    assert_eq!(
        c.update_asset(
            1,
            STRANGER,
            String::from("x"),
            String::from("y"),
            7,
            false,
            2,
            3
        ),
        Err(Error::AuthorizationError)
    );
    assert_eq!(
        c.update_asset(
            2,
            OWNER,
            String::from("x"),
            String::from("y"),
            7,
            false,
            2,
            3
        ),
        Err(Error::NotFoundError)
    );
    assert_eq!(
        c.update_asset(
            1,
            OWNER,
            String::from("new title"),
            String::from("new description"),
            250,
            false,
            2,
            14
        ),
        Ok(true)
    );
    let a = c.get_asset(1).unwrap();
    assert_eq!(a.title, String::from("new title"));
    assert_eq!(a.description, String::from("new description"));
    assert_eq!(a.daily_rate, 250);
    assert!(!a.available);
    assert_eq!(a.min_lease_days, 2);
    assert_eq!(a.max_lease_days, 14);
    // Immutable after creation.
    assert_eq!(a.asset_value, 10_000);
    assert_eq!(a.security_deposit, 500);
    assert_eq!(a.owner, OWNER);
    assert_eq!(a.created_at, 1_000);
}

#[test]
fn unknown_identifiers_are_not_found() {
    let c = AssetLeasingContract::new();
    assert!(matches!(c.get_asset(1), Err(Error::NotFoundError)));
    assert!(matches!(c.get_lease(1), Err(Error::NotFoundError)));
}

#[test]
fn fresh_address_reads_an_empty_portfolio() {
    let c = AssetLeasingContract::new();
    let p = c.get_user_portfolio(STRANGER);
    assert!(p.owned_assets.is_empty());
    assert!(p.active_leases_as_lessor.is_empty());
    assert!(p.active_leases_as_lessee.is_empty());
    assert!(p.completed_leases.is_empty());
}

#[test]
fn active_leases_list_both_roles_without_duplicates() {
    let mut c = AssetLeasingContract::new();
    let r = c.register_asset(
        OWNER,
        String::from("a"),
        String::from("b"),
        10,
        1,
        1,
        5,
        0,
        100,
    );
    assert_eq!(r, Ok(1));
    // The owner leases their own asset: lessor and lessee coincide, and the
    // lease is listed once, not twice.
    assert_eq!(c.create_lease(1, OWNER, 2, 200), Ok(1));
    let both_roles = c.get_user_active_leases(OWNER);
    assert_eq!(both_roles.len(), 1);
    assert_eq!(both_roles[0].lease_id, 1);
    // A second asset leased to someone else appears in each party's list.
    let r2 = c.register_asset(
        OWNER,
        String::from("c"),
        String::from("d"),
        10,
        1,
        1,
        5,
        0,
        100,
    );
    assert_eq!(r2, Ok(2));
    assert_eq!(c.create_lease(2, RENTER, 2, 200), Ok(2));
    let owner_view = c.get_user_active_leases(OWNER);
    assert_eq!(owner_view.len(), 2);
    assert_eq!(owner_view[0].lease_id, 1);
    assert_eq!(owner_view[1].lease_id, 2);
    let renter_view = c.get_user_active_leases(RENTER);
    assert_eq!(renter_view.len(), 1);
    assert_eq!(renter_view[0].lease_id, 2);
}

#[test]
fn self_lease_completion_relocates_both_roles() {
    let mut c = AssetLeasingContract::new();
    let r = c.register_asset(
        OWNER,
        String::from("a"),
        String::from("b"),
        10,
        1,
        1,
        5,
        0,
        100,
    );
    assert_eq!(r, Ok(1));
    assert_eq!(c.create_lease(1, OWNER, 2, 200), Ok(1));
    assert_eq!(c.approve_lease(1, OWNER, 300), Ok(true));
    assert_eq!(c.complete_lease(1, OWNER, String::from("ok"), false, 400), Ok(true));
    let p = c.get_user_portfolio(OWNER);
    assert!(p.active_leases_as_lessee.is_empty());
    assert!(p.active_leases_as_lessor.is_empty());
    // One append per role: the shared completed list holds the id twice.
    assert_eq!(p.completed_leases, vec![1, 1]);
    assert!(c.get_user_active_leases(OWNER).is_empty());
}
