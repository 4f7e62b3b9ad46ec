use vstd::prelude::*;

use crate::contract::{
    spec_create_plan, spec_finish_transfer, spec_lock_share, spec_redeem, spec_withdraw_all,
    spec_withdraw_protocol_share, ContractView,
};
use crate::errors::InheritanceError;
use crate::plan::{lemma_select_beneficiaries_id, MAX_BENEFICIARIES};
use crate::shares::lemma_share_conservation;

verus! {

/// Creation retains a valid beneficiary list whole: for any deposit
/// `deposit > 0` and any supplied list already deduplicated, free of zero
/// and within the cap, the created plan lists exactly those addresses, in
/// order, and holds exactly the deposit.
pub proof fn lemma_create_plan_retains_valid_list(
    s: ContractView,
    sender: u64,
    beneficiaries: Seq<u64>,
    timeout_period_seconds: u64,
    deposit: u128,
    now: u64,
)
    requires
        !s.has_plan(sender),
        timeout_period_seconds > 0,
        deposit > 0,
        beneficiaries.no_duplicates(),
        !beneficiaries.contains(0),
        beneficiaries.len() <= MAX_BENEFICIARIES,
    ensures
        ({
            let (s2, res) = spec_create_plan(
                s,
                sender,
                beneficiaries,
                timeout_period_seconds,
                deposit,
                now,
            );
            &&& res is Ok
            &&& s2.plan(sender).beneficiaries == beneficiaries
            &&& s2.plan(sender).count() == beneficiaries.len()
            &&& s2.plan(sender).balance == deposit
        }),
{
    lemma_select_beneficiaries_id(beneficiaries);
}

/// Locking is one-shot: where `lock_share` succeeds, a second attempt on
/// the same plan fails with `InvalidState` and leaves the whole state —
/// the frozen shares included — unchanged.
pub proof fn lemma_lock_share_idempotent(s: ContractView, owner: u64, now: u64)
    ensures
        ({
            let (s1, r1) = spec_lock_share(s, owner, now);
            r1 is Ok ==> spec_lock_share(s1, owner, now) == (
                s1,
                Err::<(), InheritanceError>(InheritanceError::InvalidState),
            )
        }),
{
    let (s1, r1) = spec_lock_share(s, owner, now);
    if r1 is Ok {
        assert(s1.has_plan(owner));
        assert(s1.plan(owner).share_locked);
        assert(s1.plan(owner).expired(now));
    }
}

/// Conservation at the moment of locking: where `lock_share` succeeds, the
/// frozen per-beneficiary shares and the protocol cut partition the
/// balance exactly, and the balance itself is untouched.
pub proof fn lemma_lock_share_conserves(s: ContractView, owner: u64, now: u64)
    requires
        s.wf(),
    ensures
        ({
            let (s1, r1) = spec_lock_share(s, owner, now);
            r1 is Ok ==> {
                let p = s1.plan(owner);
                &&& p.balance == s.plan(owner).balance
                &&& p.count() == s.plan(owner).count()
                &&& p.per_beneficiary_share * p.count() + p.protocol_share == p.balance
            }
        }),
{
    let (s1, r1) = spec_lock_share(s, owner, now);
    if r1 is Ok {
        let p = s.plan(owner);
        assert(s.plans.contains_key(owner));
        lemma_share_conservation(p.balance, p.count());
    }
}

/// Rollback exactness: where `redeem` succeeds and the external transfer
/// then fails, acknowledging the failure restores the whole state — every
/// plan field and the live-plan counter — to its pre-call value, with the
/// reentrancy guard released, and reports `TransferFailed`.
pub proof fn lemma_redeem_rollback_exact(s: ContractView, sender: u64, owner: u64, now: u64)
    ensures
        ({
            let (s1, r1) = spec_redeem(s, sender, owner, now);
            r1 is Ok ==> spec_finish_transfer(s1, false) == (
                s,
                Err::<(), InheritanceError>(InheritanceError::TransferFailed),
            )
        }),
{
    let (s1, r1) = spec_redeem(s, sender, owner, now);
    if r1 is Ok {
        let (s2, _) = spec_finish_transfer(s1, false);
        assert(s.plans.contains_key(owner));
        assert(s2.plans =~= s.plans);
    }
}

/// The same exactness for the other two fund movements: a failed transfer
/// after `withdraw_all` or `withdraw_protocol_share` restores the exact
/// pre-call state.
pub proof fn lemma_withdraw_rollback_exact(s: ContractView, sender: u64, owner: u64)
    ensures
        ({
            let (s1, r1) = spec_withdraw_all(s, sender);
            r1 is Ok ==> spec_finish_transfer(s1, false) == (
                s,
                Err::<(), InheritanceError>(InheritanceError::TransferFailed),
            )
        }),
        ({
            let (s1, r1) = spec_withdraw_protocol_share(s, sender, owner);
            r1 is Ok ==> spec_finish_transfer(s1, false) == (
                s,
                Err::<(), InheritanceError>(InheritanceError::TransferFailed),
            )
        }),
{
    let (s1, r1) = spec_withdraw_all(s, sender);
    if r1 is Ok {
        let (s2, _) = spec_finish_transfer(s1, false);
        assert(s.plans.contains_key(sender));
        assert(s2.plans =~= s.plans);
    }
    let (s3, r3) = spec_withdraw_protocol_share(s, sender, owner);
    if r3 is Ok {
        let (s4, _) = spec_finish_transfer(s3, false);
        assert(s.plans.contains_key(owner));
        assert(s4.plans =~= s.plans);
    }
}

/// The reentrancy guard: while a fund movement is in flight, every
/// fund-moving call is rejected with `ReentrancyRejected` and touches
/// nothing. (`withdraw_protocol_share` screens the caller first, so a
/// non-admin caller is turned away as `Unauthorized` — also touching
/// nothing.)
pub proof fn lemma_reentrancy_rejected(s: ContractView, sender: u64, owner: u64, now: u64)
    requires
        s.locked(),
    ensures
        spec_redeem(s, sender, owner, now) == (
            s,
            Err::<(u64, int), InheritanceError>(InheritanceError::ReentrancyRejected),
        ),
        spec_withdraw_all(s, sender) == (
            s,
            Err::<(u64, int), InheritanceError>(InheritanceError::ReentrancyRejected),
        ),
        sender == s.admin ==> spec_withdraw_protocol_share(s, sender, owner) == (
            s,
            Err::<(u64, int), InheritanceError>(InheritanceError::ReentrancyRejected),
        ),
        sender != s.admin ==> spec_withdraw_protocol_share(s, sender, owner) == (
            s,
            Err::<(u64, int), InheritanceError>(InheritanceError::Unauthorized),
        ),
{
}

} // verus!
