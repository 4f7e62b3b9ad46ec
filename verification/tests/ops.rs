use inheritance::contract::InheritanceContract;
use inheritance::errors::InheritanceError;

const OWNER: u64 = 7;
const X: u64 = 11;
const Y: u64 = 22;
const ADMIN: u64 = 99;

#[test]
fn initialize_sets_admin_once() {
    let mut c = InheritanceContract::new();
    assert_eq!(c.initialize(ADMIN), Ok(()));
    assert_eq!(c.initialize(ADMIN), Err(InheritanceError::AlreadyInitialized));
    assert_eq!(c.initialize(X), Err(InheritanceError::AlreadyInitialized));
}

#[test]
fn create_plan_retains_valid_list() {
    let mut c = InheritanceContract::new();
    let benes = vec![X, Y, 33];
    assert_eq!(c.create_inheritance_plan(OWNER, &benes, 100, 500, 0), Ok(()));
    let (balance, count, last_reset, timeout, pbs, locked, ps) =
        c.get_plan_details(OWNER).unwrap();
    assert_eq!(balance, 500);
    assert_eq!(count, 3);
    assert_eq!(last_reset, 0);
    assert_eq!(timeout, 100);
    assert_eq!(pbs, 0);
    assert!(!locked);
    assert_eq!(ps, 0);
    assert_eq!(c.get_all_beneficiaries(OWNER).unwrap(), vec![X, Y, 33]);
    assert_eq!(c.get_contract_stats(), 1);
}

#[test]
fn create_plan_filters_and_truncates() {
    let mut c = InheritanceContract::new();
    // a zero address and a duplicate are dropped; only five are kept
    let benes = vec![0, 1, 1, 2, 3, 4, 5, 6];
    assert_eq!(c.create_inheritance_plan(OWNER, &benes, 100, 500, 0), Ok(()));
    assert_eq!(c.get_all_beneficiaries(OWNER).unwrap(), vec![1, 2, 3, 4, 5]);
    assert_eq!(c.get_active_beneficiary_count(OWNER).unwrap(), 5);
}

#[test]
fn create_plan_rejections() {
    let mut c = InheritanceContract::new();
    assert_eq!(
        c.create_inheritance_plan(OWNER, &vec![X], 0, 500, 0),
        Err(InheritanceError::InvalidParameter)
    );
    assert_eq!(
        c.create_inheritance_plan(OWNER, &vec![X], 100, 0, 0),
        Err(InheritanceError::InvalidParameter)
    );
    assert_eq!(c.create_inheritance_plan(OWNER, &vec![X], 100, 500, 0), Ok(()));
    assert_eq!(
        c.create_inheritance_plan(OWNER, &vec![Y], 100, 500, 0),
        Err(InheritanceError::PlanAlreadyExists)
    );
}

#[test]
fn add_funds_behaviour() {
    let mut c = InheritanceContract::new();
    assert_eq!(c.add_funds(OWNER, 10), Err(InheritanceError::PlanNotFound));
    assert_eq!(c.create_inheritance_plan(OWNER, &vec![X], 100, 500, 0), Ok(()));
    assert_eq!(c.add_funds(OWNER, 0), Err(InheritanceError::InvalidParameter));
    assert_eq!(c.add_funds(OWNER, 250), Ok(()));
    assert_eq!(c.get_plan_details(OWNER).unwrap().0, 750);
    assert_eq!(c.lock_share(OWNER, 100), Ok(()));
    assert_eq!(c.add_funds(OWNER, 10), Err(InheritanceError::InvalidState));
}

#[test]
fn beneficiary_set_is_bounded_and_tracked() {
    let mut c = InheritanceContract::new();
    assert_eq!(c.add_beneficiary(OWNER, X), Err(InheritanceError::PlanNotFound));
    assert_eq!(c.create_inheritance_plan(OWNER, &vec![1, 2, 3, 4], 100, 500, 0), Ok(()));
    assert_eq!(c.add_beneficiary(OWNER, 0), Err(InheritanceError::InvalidParameter));
    assert_eq!(c.add_beneficiary(OWNER, 3), Err(InheritanceError::InvalidParameter));
    assert_eq!(c.add_beneficiary(OWNER, 5), Ok(()));
    assert_eq!(c.add_beneficiary(OWNER, 6), Err(InheritanceError::InvalidParameter));
    assert_eq!(c.get_active_beneficiary_count(OWNER).unwrap(), 5);
    assert_eq!(c.remove_beneficiary(OWNER, 6), Err(InheritanceError::InvalidParameter));
    assert_eq!(c.remove_beneficiary(OWNER, 2), Ok(()));
    assert_eq!(c.get_all_beneficiaries(OWNER).unwrap(), vec![1, 3, 4, 5]);
    assert_eq!(c.is_beneficiary(OWNER, 2).unwrap(), false);
    assert_eq!(c.is_beneficiary(OWNER, 3).unwrap(), true);
}

#[test]
fn timer_reset_and_expiry() {
    let mut c = InheritanceContract::new();
    assert_eq!(c.create_inheritance_plan(OWNER, &vec![X], 100, 500, 0), Ok(()));
    assert_eq!(c.is_owner_expired(OWNER, 99).unwrap(), false);
    assert_eq!(c.is_owner_expired(OWNER, 100).unwrap(), true);
    assert_eq!(c.time_remaining(OWNER, 40).unwrap(), 60);
    assert_eq!(c.time_remaining(OWNER, 100).unwrap(), 0);
    assert_eq!(c.reset_timer(OWNER, 50), Ok(()));
    assert_eq!(c.is_owner_expired(OWNER, 100).unwrap(), false);
    assert_eq!(c.is_owner_expired(OWNER, 150).unwrap(), true);
    let (_, _, last_reset, _, expired, expiry) =
        c.get_extended_plan_details(OWNER, 100).unwrap();
    assert_eq!(last_reset, 50);
    assert!(!expired);
    assert_eq!(expiry, 150);
    assert_eq!(c.lock_share(OWNER, 150), Ok(()));
    assert_eq!(c.reset_timer(OWNER, 200), Err(InheritanceError::InvalidState));
}

#[test]
fn plan_status_and_previews() {
    let mut c = InheritanceContract::new();
    assert_eq!(c.check_plan_status(OWNER, 0), (false, false));
    assert!(!c.owner_exists(OWNER));
    assert_eq!(c.create_inheritance_plan(OWNER, &vec![X, Y], 86400, 1000, 0), Ok(()));
    assert!(c.owner_exists(OWNER));
    assert_eq!(c.check_plan_status(OWNER, 0), (true, false));
    assert_eq!(c.check_plan_status(OWNER, 86400), (true, true));
    // preview before locking: half the balance, split evenly
    assert_eq!(c.get_beneficiary_details(OWNER, X).unwrap(), (true, false, 250));
    assert_eq!(c.get_beneficiary_details(OWNER, 33).unwrap(), (false, false, 0));
    assert_eq!(c.lock_share(OWNER, 86400), Ok(()));
    assert_eq!(c.get_beneficiary_details(OWNER, X).unwrap(), (true, false, 250));
    assert_eq!(c.get_protocol_share(OWNER).unwrap(), (500, true));
}

#[test]
fn finish_transfer_without_pending_movement() {
    let mut c = InheritanceContract::new();
    assert_eq!(c.finish_transfer(true), Err(InheritanceError::InvalidState));
    assert_eq!(c.finish_transfer(false), Err(InheritanceError::InvalidState));
}
