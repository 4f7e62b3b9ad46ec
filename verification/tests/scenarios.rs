use inheritance::contract::{InheritanceContract, TransferRequest};
use inheritance::errors::InheritanceError;

const OWNER: u64 = 7;
const X: u64 = 11;
const Y: u64 = 22;
const ADMIN: u64 = 99;
const DAY: u64 = 86400;

fn plan_with(balance: u128) -> InheritanceContract {
    let mut c = InheritanceContract::new();
    c.initialize(ADMIN).unwrap();
    c.create_inheritance_plan(OWNER, &vec![X, Y], DAY, balance, 0).unwrap();
    c
}

#[test]
fn lock_share_even_split() {
    // 1000 units, two beneficiaries: 1000/2 = 500 for them, 500/2 = 250 each,
    // no remainder; the operator keeps 500
    let mut c = plan_with(1000);
    assert_eq!(c.lock_share(OWNER, DAY - 1), Err(InheritanceError::InvalidState));
    assert_eq!(c.lock_share(OWNER, DAY), Ok(()));
    let (balance, count, _, _, pbs, locked, ps) = c.get_plan_details(OWNER).unwrap();
    assert_eq!(balance, 1000);
    assert_eq!(count, 2);
    assert_eq!(pbs, 250);
    assert!(locked);
    assert_eq!(ps, 500);
}

#[test]
fn lock_share_remainder_goes_to_operator() {
    // 1001 units: beneficiary total 500, 250 each, operator keeps 1001 - 500
    let mut c = plan_with(1001);
    assert_eq!(c.lock_share(OWNER, DAY), Ok(()));
    let (_, _, _, _, pbs, _, ps) = c.get_plan_details(OWNER).unwrap();
    assert_eq!(pbs, 250);
    assert_eq!(ps, 501);
}

#[test]
fn lock_share_happens_once() {
    let mut c = plan_with(1000);
    assert_eq!(c.lock_share(OWNER, DAY), Ok(()));
    assert_eq!(c.lock_share(OWNER, DAY + 5), Err(InheritanceError::InvalidState));
    let (_, _, _, _, pbs, locked, ps) = c.get_plan_details(OWNER).unwrap();
    assert_eq!(pbs, 250);
    assert!(locked);
    assert_eq!(ps, 500);
}

#[test]
fn lock_share_conserves_balance() {
    for balance in [1u128, 2, 3, 999, 1000, 1001, 1003, 12345] {
        for benes in [vec![X], vec![X, Y], vec![X, Y, 33], vec![X, Y, 33, 44, 55]] {
            let mut c = InheritanceContract::new();
            c.create_inheritance_plan(OWNER, &benes, DAY, balance, 0).unwrap();
            c.lock_share(OWNER, DAY).unwrap();
            let (b, count, _, _, pbs, _, ps) = c.get_plan_details(OWNER).unwrap();
            assert_eq!(pbs * (count as u128) + ps, b);
            assert!(pbs * (count as u128) <= b / 2);
        }
    }
}

#[test]
fn lock_share_needs_beneficiaries() {
    let mut c = InheritanceContract::new();
    c.create_inheritance_plan(OWNER, &Vec::new(), DAY, 1000, 0).unwrap();
    assert_eq!(c.lock_share(OWNER, DAY), Err(InheritanceError::InvalidState));
    assert_eq!(c.lock_share(X, DAY), Err(InheritanceError::PlanNotFound));
}

#[test]
fn redeem_sequence_drains_plan() {
    // 1001 units: X takes 250 leaving 751; Y takes 250 leaving 501 with no
    // beneficiary left, so the plan is drained and the counter drops
    let mut c = plan_with(1001);
    assert_eq!(c.get_contract_stats(), 1);
    assert_eq!(
        c.redeem(X, OWNER, DAY),
        Ok(TransferRequest { recipient: X, amount: 250 })
    );
    assert_eq!(c.finish_transfer(true), Ok(()));
    let (balance, count, _, _, _, locked, _) = c.get_plan_details(OWNER).unwrap();
    assert_eq!(balance, 751);
    assert_eq!(count, 1);
    assert!(locked);
    assert!(c.owner_exists(OWNER));
    assert_eq!(c.has_claimed(OWNER, X).unwrap(), true);
    assert_eq!(c.is_beneficiary(OWNER, X).unwrap(), false);
    assert_eq!(
        c.redeem(Y, OWNER, DAY),
        Ok(TransferRequest { recipient: Y, amount: 250 })
    );
    assert_eq!(c.finish_transfer(true), Ok(()));
    assert!(!c.owner_exists(OWNER));
    assert_eq!(c.get_contract_stats(), 0);
    assert_eq!(c.get_plan_details(OWNER), Err(InheritanceError::PlanNotFound));
}

#[test]
fn redeem_locks_implicitly() {
    let mut c = plan_with(1000);
    // no explicit lock_share: redeeming after expiry freezes the shares first
    assert_eq!(
        c.redeem(X, OWNER, DAY),
        Ok(TransferRequest { recipient: X, amount: 250 })
    );
    assert_eq!(c.finish_transfer(true), Ok(()));
    let (balance, _, _, _, pbs, locked, ps) = c.get_plan_details(OWNER).unwrap();
    assert_eq!(balance, 750);
    assert_eq!(pbs, 250);
    assert!(locked);
    assert_eq!(ps, 500);
}

#[test]
fn redeem_rejections() {
    let mut c = plan_with(1000);
    assert_eq!(c.redeem(X, OWNER, DAY - 1), Err(InheritanceError::InvalidState));
    assert_eq!(c.redeem(33, OWNER, DAY), Err(InheritanceError::Unauthorized));
    assert_eq!(c.redeem(X, Y, DAY), Err(InheritanceError::PlanNotFound));
    assert_eq!(
        c.redeem(X, OWNER, DAY),
        Ok(TransferRequest { recipient: X, amount: 250 })
    );
    assert_eq!(c.finish_transfer(true), Ok(()));
    // a claimed beneficiary is no longer listed
    assert_eq!(c.redeem(X, OWNER, DAY), Err(InheritanceError::Unauthorized));
}

#[test]
fn redeem_with_nothing_to_redeem() {
    // one unit across one beneficiary: the beneficiary half rounds to zero,
    // so there is nothing to redeem and nothing is mutated, not even the lock
    let mut c = InheritanceContract::new();
    c.create_inheritance_plan(OWNER, &vec![X], DAY, 1, 0).unwrap();
    assert_eq!(c.redeem(X, OWNER, DAY), Err(InheritanceError::InsufficientFunds));
    let (balance, count, _, _, pbs, locked, ps) = c.get_plan_details(OWNER).unwrap();
    assert_eq!((balance, count, pbs, locked, ps), (1, 1, 0, false, 0));
}

#[test]
fn redeem_rollback_restores_everything() {
    let mut c = plan_with(1000);
    let before = c.get_plan_details(OWNER).unwrap();
    assert_eq!(
        c.redeem(X, OWNER, DAY),
        Ok(TransferRequest { recipient: X, amount: 250 })
    );
    // the transfer fails: every field and the counter return to the pre-call
    // values, the implicit lock included
    assert_eq!(c.finish_transfer(false), Err(InheritanceError::TransferFailed));
    assert_eq!(c.get_plan_details(OWNER).unwrap(), before);
    assert_eq!(c.is_beneficiary(OWNER, X).unwrap(), true);
    assert_eq!(c.has_claimed(OWNER, X).unwrap(), false);
    assert_eq!(c.get_all_beneficiaries(OWNER).unwrap(), vec![X, Y]);
    assert_eq!(c.get_contract_stats(), 1);
    // the guard is released: the same redemption can be attempted again
    assert_eq!(
        c.redeem(X, OWNER, DAY),
        Ok(TransferRequest { recipient: X, amount: 250 })
    );
    assert_eq!(c.finish_transfer(true), Ok(()));
    assert_eq!(c.get_plan_details(OWNER).unwrap().0, 750);
}

#[test]
fn rollback_restores_a_drained_plan() {
    // the sole beneficiary drains the plan; the failed transfer resurrects it
    let mut c = InheritanceContract::new();
    c.create_inheritance_plan(OWNER, &vec![X], DAY, 1000, 0).unwrap();
    assert_eq!(
        c.redeem(X, OWNER, DAY),
        Ok(TransferRequest { recipient: X, amount: 500 })
    );
    assert!(!c.owner_exists(OWNER));
    assert_eq!(c.get_contract_stats(), 0);
    assert_eq!(c.finish_transfer(false), Err(InheritanceError::TransferFailed));
    assert!(c.owner_exists(OWNER));
    assert_eq!(c.get_contract_stats(), 1);
    let (balance, count, _, _, pbs, locked, ps) = c.get_plan_details(OWNER).unwrap();
    assert_eq!((balance, count, pbs, locked, ps), (1000, 1, 0, false, 0));
}

#[test]
fn withdraw_all_before_expiry() {
    let mut c = plan_with(1000);
    assert_eq!(
        c.withdraw_all(OWNER),
        Ok(TransferRequest { recipient: OWNER, amount: 1000 })
    );
    assert_eq!(c.finish_transfer(true), Ok(()));
    assert!(!c.owner_exists(OWNER));
    assert_eq!(c.get_contract_stats(), 0);
    assert_eq!(c.redeem(X, OWNER, DAY), Err(InheritanceError::PlanNotFound));
    assert_eq!(c.withdraw_all(OWNER), Err(InheritanceError::PlanNotFound));
}

#[test]
fn withdraw_all_rejections_and_rollback() {
    let mut c = plan_with(1000);
    assert_eq!(c.lock_share(OWNER, DAY), Ok(()));
    assert_eq!(c.withdraw_all(OWNER), Err(InheritanceError::InvalidState));
    let mut c2 = plan_with(1000);
    let before = c2.get_plan_details(OWNER).unwrap();
    assert_eq!(
        c2.withdraw_all(OWNER),
        Ok(TransferRequest { recipient: OWNER, amount: 1000 })
    );
    assert_eq!(c2.finish_transfer(false), Err(InheritanceError::TransferFailed));
    assert_eq!(c2.get_plan_details(OWNER).unwrap(), before);
    assert_eq!(c2.get_contract_stats(), 1);
}

#[test]
fn protocol_share_goes_to_admin_once() {
    let mut c = plan_with(1000);
    assert_eq!(c.lock_share(OWNER, DAY), Ok(()));
    assert_eq!(
        c.withdraw_protocol_share(X, OWNER),
        Err(InheritanceError::Unauthorized)
    );
    assert_eq!(
        c.withdraw_protocol_share(ADMIN, OWNER),
        Ok(TransferRequest { recipient: ADMIN, amount: 500 })
    );
    assert_eq!(c.finish_transfer(true), Ok(()));
    assert_eq!(c.get_protocol_share(OWNER).unwrap(), (0, true));
    // the balance field is not touched by the operator's withdrawal
    assert_eq!(c.get_plan_details(OWNER).unwrap().0, 1000);
    assert_eq!(
        c.withdraw_protocol_share(ADMIN, OWNER),
        Err(InheritanceError::InsufficientFunds)
    );
}

#[test]
fn protocol_share_needs_lock_and_rolls_back() {
    let mut c = plan_with(1000);
    assert_eq!(
        c.withdraw_protocol_share(ADMIN, OWNER),
        Err(InheritanceError::InvalidState)
    );
    assert_eq!(c.lock_share(OWNER, DAY), Ok(()));
    assert_eq!(
        c.withdraw_protocol_share(ADMIN, OWNER),
        Ok(TransferRequest { recipient: ADMIN, amount: 500 })
    );
    assert_eq!(c.finish_transfer(false), Err(InheritanceError::TransferFailed));
    assert_eq!(c.get_protocol_share(OWNER).unwrap(), (500, true));
}

#[test]
fn concurrent_fund_movement_is_rejected() {
    let mut c = plan_with(1000);
    assert_eq!(c.lock_share(OWNER, DAY), Ok(()));
    assert_eq!(
        c.redeem(X, OWNER, DAY),
        Ok(TransferRequest { recipient: X, amount: 250 })
    );
    // while the transfer is in flight, every fund-moving call is rejected
    // and nothing changes, whatever plan it targets
    let during = c.get_plan_details(OWNER).unwrap();
    assert_eq!(c.redeem(Y, OWNER, DAY), Err(InheritanceError::ReentrancyRejected));
    assert_eq!(c.withdraw_all(OWNER), Err(InheritanceError::ReentrancyRejected));
    assert_eq!(
        c.withdraw_protocol_share(ADMIN, OWNER),
        Err(InheritanceError::ReentrancyRejected)
    );
    assert_eq!(c.get_plan_details(OWNER).unwrap(), during);
    assert_eq!(c.finish_transfer(true), Ok(()));
    // once released, the next movement proceeds
    assert_eq!(
        c.redeem(Y, OWNER, DAY),
        Ok(TransferRequest { recipient: Y, amount: 250 })
    );
}
