use std::collections::HashMap;
use vstd::prelude::*;

use crate::errors::InheritanceError;
use crate::plan::{
    addrs_contain, copy_addrs, lemma_push_keeps_nonzero, lemma_push_no_duplicates,
    lemma_remove_first_props, lemma_select_beneficiaries_valid, remove_addr, remove_first,
    select_beneficiaries, select_beneficiary_list, InheritanceConfig, PlanView, MAX_BENEFICIARIES,
};
use crate::shares::{
    compute_shares, lemma_share_conservation, per_beneficiary_share, protocol_share,
};

verus! {

broadcast use vstd::std_specs::hash::group_hash_axioms;

/// A fund movement prepared by a guarded operation and awaiting the host's
/// report of the external transfer outcome. Holds the exact pre-call plan
/// record, so that a failed transfer restores it verbatim.
pub struct PendingTransfer {
    /// The owner whose plan the prepared movement touched.
    pub owner: u64,
    /// Where the host must send the funds.
    pub recipient: u64,
    /// How much the host must send.
    pub amount: u128,
    /// The plan record exactly as it stood before the movement.
    pub saved: InheritanceConfig,
}

/// What the host is asked to transfer after a fund-moving operation
/// succeeds.
#[derive(Clone, Copy, Debug, PartialEq, Eq, Structural)]
pub struct TransferRequest {
    pub recipient: u64,
    pub amount: u128,
}

/// The mathematical model of a pending fund movement.
pub struct PendingView {
    pub owner: u64,
    pub recipient: u64,
    pub amount: int,
    pub saved: PlanView,
}

impl View for PendingTransfer {
    type V = PendingView;

    open spec fn view(&self) -> PendingView {
        PendingView {
            owner: self.owner,
            recipient: self.recipient,
            amount: self.amount as int,
            saved: self.saved@,
        }
    }
}

/// The mathematical model of the whole registry: the live plans keyed by
/// owner, the admin identity (zero while unset), and the in-flight fund
/// movement, if any. The reentrancy guard is held exactly while a movement
/// is pending.
pub struct ContractView {
    pub plans: Map<u64, PlanView>,
    pub admin: u64,
    pub pending: Option<PendingView>,
}

impl ContractView {
    /// A plan is live iff it is in the registry.
    pub open spec fn has_plan(self, owner: u64) -> bool {
        self.plans.contains_key(owner)
    }

    pub open spec fn plan(self, owner: u64) -> PlanView {
        self.plans[owner]
    }

    /// The live-plan counter.
    pub open spec fn owner_count(self) -> nat {
        self.plans.len()
    }

    /// The global reentrancy guard.
    pub open spec fn locked(self) -> bool {
        self.pending is Some
    }

    pub open spec fn plans_wf(self) -> bool {
        forall|o: u64| #[trigger] self.plans.contains_key(o) ==> self.plans[o].wf()
    }

    pub open spec fn wf(self) -> bool {
        &&& self.plans_wf()
        &&& match self.pending {
            Some(pd) => pd.saved.wf() && 0 <= pd.amount <= u128::MAX,
            None => true,
        }
    }
}

/// A plan at the moment its distribution is locked: the share pair is
/// computed from the balance and the beneficiary count, and the lock flag
/// is set, irrevocably.
pub open spec fn locked_plan(p: PlanView) -> PlanView {
    PlanView {
        per_beneficiary_share: per_beneficiary_share(p.balance, p.count()),
        protocol_share: protocol_share(p.balance, p.count()),
        share_locked: true,
        ..p
    }
}

/// One-time admin bootstrap.
pub open spec fn spec_initialize(s: ContractView, sender: u64) -> (ContractView, Result<
    (),
    InheritanceError,
>) {
    if s.admin != 0 {
        (s, Err(InheritanceError::AlreadyInitialized))
    } else {
        (ContractView { admin: sender, ..s }, Ok(()))
    }
}

/// Plan creation: the caller deposits value and names beneficiaries; the
/// retained list is the supplied one filtered of zero and duplicates and
/// truncated to the cap, in order.
pub open spec fn spec_create_plan(
    s: ContractView,
    sender: u64,
    beneficiaries: Seq<u64>,
    timeout_period_seconds: u64,
    deposit: u128,
    now: u64,
) -> (ContractView, Result<(), InheritanceError>) {
    if s.has_plan(sender) {
        (s, Err(InheritanceError::PlanAlreadyExists))
    } else if timeout_period_seconds == 0 {
        (s, Err(InheritanceError::InvalidParameter))
    } else if deposit == 0 {
        (s, Err(InheritanceError::InvalidParameter))
    } else {
        let p = PlanView {
            beneficiaries: select_beneficiaries(beneficiaries),
            claimed: Seq::<u64>::empty(),
            last_reset: now as int,
            timeout_period: timeout_period_seconds as int,
            balance: deposit as int,
            per_beneficiary_share: 0,
            protocol_share: 0,
            share_locked: false,
        };
        (ContractView { plans: s.plans.insert(sender, p), ..s }, Ok(()))
    }
}

/// Adding funds to a not-yet-locked plan.
pub open spec fn spec_add_funds(s: ContractView, sender: u64, deposit: u128) -> (ContractView,
    Result<(), InheritanceError>,
) {
    if !s.has_plan(sender) {
        (s, Err(InheritanceError::PlanNotFound))
    } else if deposit == 0 {
        (s, Err(InheritanceError::InvalidParameter))
    } else if s.plan(sender).share_locked {
        (s, Err(InheritanceError::InvalidState))
    } else {
        let p = s.plan(sender);
        let p2 = PlanView { balance: p.balance + deposit, ..p };
        (ContractView { plans: s.plans.insert(sender, p2), ..s }, Ok(()))
    }
}

/// Adding a beneficiary to a not-yet-locked plan.
pub open spec fn spec_add_beneficiary(s: ContractView, sender: u64, beneficiary: u64) -> (
    ContractView,
    Result<(), InheritanceError>,
) {
    if !s.has_plan(sender) {
        (s, Err(InheritanceError::PlanNotFound))
    } else if s.plan(sender).share_locked {
        (s, Err(InheritanceError::InvalidState))
    } else if s.plan(sender).count() >= MAX_BENEFICIARIES {
        (s, Err(InheritanceError::InvalidParameter))
    } else if beneficiary == 0 {
        (s, Err(InheritanceError::InvalidParameter))
    } else if s.plan(sender).is_beneficiary(beneficiary) {
        (s, Err(InheritanceError::InvalidParameter))
    } else {
        let p = s.plan(sender);
        let p2 = PlanView { beneficiaries: p.beneficiaries.push(beneficiary), ..p };
        (ContractView { plans: s.plans.insert(sender, p2), ..s }, Ok(()))
    }
}

/// Removing a beneficiary from a not-yet-locked plan.
pub open spec fn spec_remove_beneficiary(s: ContractView, sender: u64, beneficiary: u64) -> (
    ContractView,
    Result<(), InheritanceError>,
) {
    if !s.has_plan(sender) {
        (s, Err(InheritanceError::PlanNotFound))
    } else if s.plan(sender).share_locked {
        (s, Err(InheritanceError::InvalidState))
    } else if !s.plan(sender).is_beneficiary(beneficiary) {
        (s, Err(InheritanceError::InvalidParameter))
    } else {
        let p = s.plan(sender);
        let p2 = PlanView { beneficiaries: remove_first(p.beneficiaries, beneficiary), ..p };
        (ContractView { plans: s.plans.insert(sender, p2), ..s }, Ok(()))
    }
}

/// Resetting the timer of a not-yet-locked plan.
pub open spec fn spec_reset_timer(s: ContractView, sender: u64, now: u64) -> (ContractView, Result<
    (),
    InheritanceError,
>) {
    if !s.has_plan(sender) {
        (s, Err(InheritanceError::PlanNotFound))
    } else if s.plan(sender).share_locked {
        (s, Err(InheritanceError::InvalidState))
    } else {
        let p = s.plan(sender);
        let p2 = PlanView { last_reset: now as int, ..p };
        (ContractView { plans: s.plans.insert(sender, p2), ..s }, Ok(()))
    }
}

/// The permissionless locking trigger: once the plan is expired, anyone may
/// freeze the distribution, exactly once.
pub open spec fn spec_lock_share(s: ContractView, owner: u64, now: u64) -> (ContractView, Result<
    (),
    InheritanceError,
>) {
    if !s.has_plan(owner) {
        (s, Err(InheritanceError::PlanNotFound))
    } else if !s.plan(owner).expired(now) {
        (s, Err(InheritanceError::InvalidState))
    } else if s.plan(owner).share_locked {
        (s, Err(InheritanceError::InvalidState))
    } else if s.plan(owner).count() == 0 {
        (s, Err(InheritanceError::InvalidState))
    } else if s.plan(owner).balance == 0 {
        (s, Err(InheritanceError::InsufficientFunds))
    } else {
        (
            ContractView { plans: s.plans.insert(owner, locked_plan(s.plan(owner))), ..s },
            Ok(()),
        )
    }
}

/// Redemption by a listed, unclaimed beneficiary of an expired plan. Locks
/// the distribution implicitly if not yet locked, moves the claim state and
/// the balance first, and hands the host a transfer request; the plan is
/// drained the moment its balance or its beneficiary count reaches zero.
/// The saved pre-call record makes a later failed transfer restorable
/// exactly.
pub open spec fn spec_redeem(s: ContractView, sender: u64, owner: u64, now: u64) -> (ContractView,
    Result<(u64, int), InheritanceError>,
) {
    if s.locked() {
        (s, Err(InheritanceError::ReentrancyRejected))
    } else if !s.has_plan(owner) {
        (s, Err(InheritanceError::PlanNotFound))
    } else {
        let p = s.plan(owner);
        if !p.expired(now) {
            (s, Err(InheritanceError::InvalidState))
        } else if !p.is_beneficiary(sender) {
            (s, Err(InheritanceError::Unauthorized))
        } else if p.has_claimed(sender) {
            (s, Err(InheritanceError::InvalidState))
        } else if !p.share_locked && p.balance == 0 {
            (s, Err(InheritanceError::InsufficientFunds))
        } else {
            let p1 = if p.share_locked {
                p
            } else {
                locked_plan(p)
            };
            let amount = p1.per_beneficiary_share;
            if amount == 0 {
                (s, Err(InheritanceError::InsufficientFunds))
            } else {
                let p2 = PlanView {
                    beneficiaries: remove_first(p1.beneficiaries, sender),
                    claimed: p1.claimed.push(sender),
                    balance: p1.balance - amount,
                    ..p1
                };
                let plans2 = if p2.balance == 0 || p2.beneficiaries.len() == 0 {
                    s.plans.remove(owner)
                } else {
                    s.plans.insert(owner, p2)
                };
                (
                    ContractView {
                        plans: plans2,
                        pending: Some(
                            PendingView { owner, recipient: sender, amount, saved: p },
                        ),
                        ..s
                    },
                    Ok((sender, amount)),
                )
            }
        }
    }
}

/// Withdrawal of the full balance by the owner, only before locking; the
/// plan is drained.
pub open spec fn spec_withdraw_all(s: ContractView, sender: u64) -> (ContractView, Result<
    (u64, int),
    InheritanceError,
>) {
    if s.locked() {
        (s, Err(InheritanceError::ReentrancyRejected))
    } else if !s.has_plan(sender) {
        (s, Err(InheritanceError::PlanNotFound))
    } else if s.plan(sender).share_locked {
        (s, Err(InheritanceError::InvalidState))
    } else if s.plan(sender).balance == 0 {
        (s, Err(InheritanceError::InsufficientFunds))
    } else {
        let p = s.plan(sender);
        (
            ContractView {
                plans: s.plans.remove(sender),
                pending: Some(
                    PendingView { owner: sender, recipient: sender, amount: p.balance, saved: p },
                ),
                ..s
            },
            Ok((sender, p.balance)),
        )
    }
}

/// Withdrawal of the operator's cut by the admin, only once the share is
/// locked; pays it out once, leaving the plan otherwise untouched.
pub open spec fn spec_withdraw_protocol_share(s: ContractView, sender: u64, owner: u64) -> (
    ContractView,
    Result<(u64, int), InheritanceError>,
) {
    if sender != s.admin {
        (s, Err(InheritanceError::Unauthorized))
    } else if s.locked() {
        (s, Err(InheritanceError::ReentrancyRejected))
    } else if !s.has_plan(owner) {
        (s, Err(InheritanceError::PlanNotFound))
    } else if !s.plan(owner).share_locked {
        (s, Err(InheritanceError::InvalidState))
    } else if s.plan(owner).protocol_share == 0 {
        (s, Err(InheritanceError::InsufficientFunds))
    } else {
        let p = s.plan(owner);
        let p2 = PlanView { protocol_share: 0, ..p };
        (
            ContractView {
                plans: s.plans.insert(owner, p2),
                pending: Some(
                    PendingView {
                        owner,
                        recipient: s.admin,
                        amount: p.protocol_share,
                        saved: p,
                    },
                ),
                ..s
            },
            Ok((s.admin, p.protocol_share)),
        )
    }
}

/// The host's report of the external transfer outcome. Success releases the
/// guard; failure restores the saved pre-call plan record verbatim, releases
/// the guard, and reports the failure.
pub open spec fn spec_finish_transfer(s: ContractView, transfer_succeeded: bool) -> (ContractView,
    Result<(), InheritanceError>,
) {
    match s.pending {
        None => (s, Err(InheritanceError::InvalidState)),
        Some(pd) => if transfer_succeeded {
            (ContractView { pending: None, ..s }, Ok(()))
        } else {
            (
                ContractView { plans: s.plans.insert(pd.owner, pd.saved), pending: None, ..s },
                Err(InheritanceError::TransferFailed),
            )
        },
    }
}

/// The share an address would receive from a plan: the frozen amount once
/// the distribution is locked, a preview computed from the current balance
/// before, and zero for a non-beneficiary.
pub open spec fn potential_share(p: PlanView, beneficiary: u64) -> int {
    if p.share_locked {
        if p.is_beneficiary(beneficiary) {
            p.per_beneficiary_share
        } else {
            0
        }
    } else if p.count() > 0 && p.is_beneficiary(beneficiary) {
        per_beneficiary_share(p.balance, p.count())
    } else {
        0
    }
}

/// The view of a keyed store of plan records.
pub open spec fn plan_views(m: Map<u64, InheritanceConfig>) -> Map<u64, PlanView> {
    m.map_values(|c: InheritanceConfig| c@)
}

pub proof fn lemma_plan_views(m: Map<u64, InheritanceConfig>)
    ensures
        plan_views(m).dom() == m.dom(),
        forall|k: u64| #[trigger] m.dom().contains(k) ==> plan_views(m)[k] == m[k]@,
{
    assert(plan_views(m).dom() =~= m.dom());
}

pub proof fn lemma_plan_views_insert(m: Map<u64, InheritanceConfig>, k: u64, v: InheritanceConfig)
    ensures
        plan_views(m.insert(k, v)) == plan_views(m).insert(k, v@),
{
    lemma_plan_views(m);
    lemma_plan_views(m.insert(k, v));
    assert(plan_views(m.insert(k, v)) =~= plan_views(m).insert(k, v@));
}

pub proof fn lemma_plan_views_remove(m: Map<u64, InheritanceConfig>, k: u64)
    ensures
        plan_views(m.remove(k)) == plan_views(m).remove(k),
{
    lemma_plan_views(m);
    lemma_plan_views(m.remove(k));
    assert(plan_views(m.remove(k)) =~= plan_views(m).remove(k));
}

pub proof fn lemma_plans_wf_insert(plans: Map<u64, PlanView>, k: u64, p: PlanView)
    requires
        forall|o: u64| #[trigger] plans.contains_key(o) ==> plans[o].wf(),
        p.wf(),
    ensures
        forall|o: u64| #[trigger] plans.insert(k, p).contains_key(o) ==> plans.insert(
            k,
            p,
        )[o].wf(),
{
    assert forall|o: u64| #[trigger] plans.insert(k, p).contains_key(o) implies plans.insert(
        k,
        p,
    )[o].wf() by {
        if o != k {
            assert(plans.contains_key(o));
        }
    }
}

pub proof fn lemma_plans_wf_remove(plans: Map<u64, PlanView>, k: u64)
    requires
        forall|o: u64| #[trigger] plans.contains_key(o) ==> plans[o].wf(),
    ensures
        forall|o: u64| #[trigger] plans.remove(k).contains_key(o) ==> plans.remove(k)[o].wf(),
{
    assert forall|o: u64| #[trigger] plans.remove(k).contains_key(o) implies plans.remove(
        k,
    )[o].wf() by {
        assert(plans.contains_key(o));
    }
}

/// The registry: all live plans, the admin identity, and the in-flight fund
/// movement. Fund-moving operations are two-phase: the guarded operation
/// validates, mutates, and returns a [`TransferRequest`]; the host performs
/// the transfer and reports the outcome through
/// [`InheritanceContract::finish_transfer`].
///
/// [`InheritanceContract::new`] establishes [`ContractView::wf`], and every
/// operation preserves it; each operation's contract relates the new state
/// to the old one through the matching `spec_` transition.
pub struct InheritanceContract {
    pub plans: HashMap<u64, InheritanceConfig>,
    pub admin: u64,
    pub pending: Option<PendingTransfer>,
}

impl View for InheritanceContract {
    type V = ContractView;

    open spec fn view(&self) -> ContractView {
        ContractView {
            plans: plan_views(self.plans@),
            admin: self.admin,
            pending: match self.pending {
                Some(pd) => Some(pd@),
                None => None,
            },
        }
    }
}

impl InheritanceContract {
    /// An empty registry: no plans, no admin, guard released.
    pub fn new() -> (s: Self)
        ensures
            s@ == (ContractView {
                plans: Map::<u64, PlanView>::empty(),
                admin: 0,
                pending: None,
            }),
            s@.wf(),
    {
        let s = InheritanceContract { plans: HashMap::new(), admin: 0, pending: None };
        proof {
            lemma_plan_views(s.plans@);
            assert(plan_views(s.plans@) =~= Map::<u64, PlanView>::empty());
        }
        s
    }

    /// One-time admin bootstrap: records the caller as admin, or fails if
    /// an admin is already set.
    pub fn initialize(&mut self, sender: u64) -> (r: Result<(), InheritanceError>)
        requires
            old(self)@.wf(),
        ensures
            final(self)@.wf(),
            ({
                let (s2, res) = spec_initialize(old(self)@, sender);
                final(self)@ == s2 && r == res
            }),
    {
        if self.admin != 0 {
            return Err(InheritanceError::AlreadyInitialized);
        }
        self.admin = sender;
        Ok(())
    }

    /// Creates the caller's plan from a deposit, a timeout and a supplied
    /// beneficiary list, retaining the first valid addresses up to the cap.
    pub fn create_inheritance_plan(
        &mut self,
        sender: u64,
        initial_beneficiaries: &Vec<u64>,
        timeout_period_seconds: u64,
        deposit: u128,
        now: u64,
    ) -> (r: Result<(), InheritanceError>)
        requires
            old(self)@.wf(),
        ensures
            final(self)@.wf(),
            ({
                let (s2, res) = spec_create_plan(
                    old(self)@,
                    sender,
                    initial_beneficiaries@,
                    timeout_period_seconds,
                    deposit,
                    now,
                );
                final(self)@ == s2 && r == res
            }),
    {
        proof {
            lemma_plan_views(self.plans@);
        }
        if self.plans.contains_key(&sender) {
            return Err(InheritanceError::PlanAlreadyExists);
        }
        if timeout_period_seconds == 0 {
            return Err(InheritanceError::InvalidParameter);
        }
        if deposit == 0 {
            return Err(InheritanceError::InvalidParameter);
        }
        let benes = select_beneficiary_list(initial_beneficiaries);
        let cfg = InheritanceConfig {
            beneficiaries: benes,
            claimed: Vec::new(),
            last_reset: now,
            timeout_period: timeout_period_seconds,
            balance: deposit,
            per_beneficiary_share: 0,
            protocol_share: 0,
            share_locked: false,
        };
        let ghost gcfg = cfg;
        let ghost pre = self.plans@;
        self.plans.insert(sender, cfg);
        proof {
            lemma_select_beneficiaries_valid(initial_beneficiaries@);
            lemma_plan_views_insert(pre, sender, gcfg);
            lemma_plans_wf_insert(plan_views(pre), sender, gcfg@);
        }
        Ok(())
    }

    /// Adds a deposit to the caller's not-yet-locked plan. The balance is a
    /// `u128`, so the caller keeps the running total within that machine
    /// limit.
    pub fn add_funds(&mut self, sender: u64, deposit: u128) -> (r: Result<(), InheritanceError>)
        requires
            old(self)@.wf(),
            old(self)@.has_plan(sender) ==> old(self)@.plan(sender).balance + deposit
                <= u128::MAX,
        ensures
            final(self)@.wf(),
            ({
                let (s2, res) = spec_add_funds(old(self)@, sender, deposit);
                final(self)@ == s2 && r == res
            }),
    {
        proof {
            lemma_plan_views(self.plans@);
        }
        match self.plans.get(&sender) {
            None => {
                return Err(InheritanceError::PlanNotFound);
            },
            Some(c) => {
                if deposit == 0 {
                    return Err(InheritanceError::InvalidParameter);
                }
                if c.share_locked {
                    return Err(InheritanceError::InvalidState);
                }
            },
        }
        let ghost pre = self.plans@;
        let mut cfg = self.plans.remove(&sender).unwrap();
        cfg.balance = cfg.balance + deposit;
        let ghost gcfg = cfg;
        self.plans.insert(sender, cfg);
        proof {
            lemma_plan_views_remove(pre, sender);
            lemma_plan_views_insert(pre.remove(sender), sender, gcfg);
            assert(plan_views(pre).remove(sender).insert(sender, gcfg@) =~= plan_views(
                pre,
            ).insert(sender, gcfg@));
            lemma_plans_wf_insert(plan_views(pre), sender, gcfg@);
        }
        Ok(())
    }

    /// Adds a beneficiary to the caller's not-yet-locked plan.
    pub fn add_beneficiary(&mut self, sender: u64, beneficiary: u64) -> (r: Result<
        (),
        InheritanceError,
    >)
        requires
            old(self)@.wf(),
        ensures
            final(self)@.wf(),
            ({
                let (s2, res) = spec_add_beneficiary(old(self)@, sender, beneficiary);
                final(self)@ == s2 && r == res
            }),
    {
        proof {
            lemma_plan_views(self.plans@);
        }
        match self.plans.get(&sender) {
            None => {
                return Err(InheritanceError::PlanNotFound);
            },
            Some(c) => {
                if c.share_locked {
                    return Err(InheritanceError::InvalidState);
                }
                if c.beneficiaries.len() >= MAX_BENEFICIARIES {
                    return Err(InheritanceError::InvalidParameter);
                }
                if beneficiary == 0 {
                    return Err(InheritanceError::InvalidParameter);
                }
                if addrs_contain(&c.beneficiaries, beneficiary) {
                    return Err(InheritanceError::InvalidParameter);
                }
            },
        }
        let ghost pre = self.plans@;
        let mut cfg = self.plans.remove(&sender).unwrap();
        cfg.beneficiaries.push(beneficiary);
        let ghost gcfg = cfg;
        self.plans.insert(sender, cfg);
        proof {
            lemma_plan_views_remove(pre, sender);
            lemma_plan_views_insert(pre.remove(sender), sender, gcfg);
            assert(plan_views(pre).remove(sender).insert(sender, gcfg@) =~= plan_views(
                pre,
            ).insert(sender, gcfg@));
            let p = plan_views(pre)[sender];
            lemma_push_no_duplicates(p.beneficiaries, beneficiary);
            lemma_push_keeps_nonzero(p.beneficiaries, beneficiary);
            lemma_plans_wf_insert(plan_views(pre), sender, gcfg@);
        }
        Ok(())
    }

    /// Removes a listed beneficiary from the caller's not-yet-locked plan.
    pub fn remove_beneficiary(&mut self, sender: u64, beneficiary: u64) -> (r: Result<
        (),
        InheritanceError,
    >)
        requires
            old(self)@.wf(),
        ensures
            final(self)@.wf(),
            ({
                let (s2, res) = spec_remove_beneficiary(old(self)@, sender, beneficiary);
                final(self)@ == s2 && r == res
            }),
    {
        proof {
            lemma_plan_views(self.plans@);
        }
        match self.plans.get(&sender) {
            None => {
                return Err(InheritanceError::PlanNotFound);
            },
            Some(c) => {
                if c.share_locked {
                    return Err(InheritanceError::InvalidState);
                }
                if !addrs_contain(&c.beneficiaries, beneficiary) {
                    return Err(InheritanceError::InvalidParameter);
                }
            },
        }
        let ghost pre = self.plans@;
        let mut cfg = self.plans.remove(&sender).unwrap();
        remove_addr(&mut cfg.beneficiaries, beneficiary);
        let ghost gcfg = cfg;
        self.plans.insert(sender, cfg);
        proof {
            lemma_plan_views_remove(pre, sender);
            lemma_plan_views_insert(pre.remove(sender), sender, gcfg);
            assert(plan_views(pre).remove(sender).insert(sender, gcfg@) =~= plan_views(
                pre,
            ).insert(sender, gcfg@));
            let p = plan_views(pre)[sender];
            lemma_remove_first_props(p.beneficiaries, beneficiary);
            assert(!gcfg@.beneficiaries.contains(0)) by {
                if beneficiary != 0 {
                    assert(gcfg@.beneficiaries.contains(0) <==> p.beneficiaries.contains(0));
                }
            }
            lemma_plans_wf_insert(plan_views(pre), sender, gcfg@);
        }
        Ok(())
    }

    /// Resets the caller's timer to the supplied ledger time, only before
    /// locking.
    pub fn reset_timer(&mut self, sender: u64, now: u64) -> (r: Result<(), InheritanceError>)
        requires
            old(self)@.wf(),
        ensures
            final(self)@.wf(),
            ({
                let (s2, res) = spec_reset_timer(old(self)@, sender, now);
                final(self)@ == s2 && r == res
            }),
    {
        proof {
            lemma_plan_views(self.plans@);
        }
        match self.plans.get(&sender) {
            None => {
                return Err(InheritanceError::PlanNotFound);
            },
            Some(c) => {
                if c.share_locked {
                    return Err(InheritanceError::InvalidState);
                }
            },
        }
        let ghost pre = self.plans@;
        let mut cfg = self.plans.remove(&sender).unwrap();
        cfg.last_reset = now;
        let ghost gcfg = cfg;
        self.plans.insert(sender, cfg);
        proof {
            lemma_plan_views_remove(pre, sender);
            lemma_plan_views_insert(pre.remove(sender), sender, gcfg);
            assert(plan_views(pre).remove(sender).insert(sender, gcfg@) =~= plan_views(
                pre,
            ).insert(sender, gcfg@));
            lemma_plans_wf_insert(plan_views(pre), sender, gcfg@);
        }
        Ok(())
    }

    /// The permissionless locking trigger: freezes the distribution of an
    /// expired plan exactly once. On success the frozen shares partition
    /// the balance exactly.
    pub fn lock_share(&mut self, owner: u64, now: u64) -> (r: Result<(), InheritanceError>)
        requires
            old(self)@.wf(),
        ensures
            final(self)@.wf(),
            ({
                let (s2, res) = spec_lock_share(old(self)@, owner, now);
                final(self)@ == s2 && r == res
            }),
            r is Ok ==> final(self)@.plan(owner).per_beneficiary_share * final(self)@.plan(
                owner,
            ).count() + final(self)@.plan(owner).protocol_share == old(self)@.plan(owner).balance,
    {
        proof {
            lemma_plan_views(self.plans@);
        }
        match self.plans.get(&owner) {
            None => {
                return Err(InheritanceError::PlanNotFound);
            },
            Some(c) => {
                if !c.expired(now) {
                    return Err(InheritanceError::InvalidState);
                }
                if c.share_locked {
                    return Err(InheritanceError::InvalidState);
                }
                if c.beneficiaries.len() == 0 {
                    return Err(InheritanceError::InvalidState);
                }
                if c.balance == 0 {
                    return Err(InheritanceError::InsufficientFunds);
                }
            },
        }
        let ghost pre = self.plans@;
        let mut cfg = self.plans.remove(&owner).unwrap();
        let count = cfg.beneficiaries.len() as u64;
        let (pbs, ps) = compute_shares(cfg.balance, count);
        proof {
            lemma_share_conservation(cfg.balance as int, count as int);
        }
        cfg.per_beneficiary_share = pbs;
        cfg.protocol_share = ps;
        cfg.share_locked = true;
        let ghost gcfg = cfg;
        self.plans.insert(owner, cfg);
        proof {
            lemma_plan_views_remove(pre, owner);
            lemma_plan_views_insert(pre.remove(owner), owner, gcfg);
            assert(plan_views(pre).remove(owner).insert(owner, gcfg@) =~= plan_views(
                pre,
            ).insert(owner, gcfg@));
            let p = plan_views(pre)[owner];
            assert(gcfg@ == locked_plan(p));
            assert(gcfg@.per_beneficiary_share * gcfg@.count() >= 0) by (nonlinear_arith)
                requires
                    gcfg@.per_beneficiary_share >= 0,
                    gcfg@.count() >= 0,
            ;
            lemma_plans_wf_insert(plan_views(pre), owner, gcfg@);
        }
        Ok(())
    }

    /// Redemption by a listed, unclaimed beneficiary of an expired plan:
    /// locks implicitly if needed, consumes the share from the plan state,
    /// and asks the host to transfer it. The outcome must be reported
    /// through [`InheritanceContract::finish_transfer`].
    pub fn redeem(&mut self, sender: u64, owner: u64, now: u64) -> (r: Result<
        TransferRequest,
        InheritanceError,
    >)
        requires
            old(self)@.wf(),
        ensures
            final(self)@.wf(),
            ({
                let (s2, res) = spec_redeem(old(self)@, sender, owner, now);
                &&& final(self)@ == s2
                &&& match (r, res) {
                    (Ok(req), Ok(pay)) => req.recipient == pay.0 && req.amount == pay.1,
                    (Err(e), Err(e2)) => e == e2,
                    _ => false,
                }
            }),
    {
        proof {
            lemma_plan_views(self.plans@);
        }
        if self.pending.is_some() {
            return Err(InheritanceError::ReentrancyRejected);
        }
        match self.plans.get(&owner) {
            None => {
                return Err(InheritanceError::PlanNotFound);
            },
            Some(c) => {
                if !c.expired(now) {
                    return Err(InheritanceError::InvalidState);
                }
                if !addrs_contain(&c.beneficiaries, sender) {
                    return Err(InheritanceError::Unauthorized);
                }
                if addrs_contain(&c.claimed, sender) {
                    return Err(InheritanceError::InvalidState);
                }
                if !c.share_locked && c.balance == 0 {
                    return Err(InheritanceError::InsufficientFunds);
                }
                proof {
                    let i = choose|i: int|
                        0 <= i < c.beneficiaries@.len() && c.beneficiaries@[i] == sender;
                    assert(c.beneficiaries@.len() >= 1);
                }
                let amount_probe = if c.share_locked {
                    c.per_beneficiary_share
                } else {
                    compute_shares(c.balance, c.beneficiaries.len() as u64).0
                };
                if amount_probe == 0 {
                    return Err(InheritanceError::InsufficientFunds);
                }
            },
        }
        let ghost pre = self.plans@;
        let ghost p = plan_views(pre)[owner];
        let cfg = self.plans.remove(&owner).unwrap();
        let mut work = cfg.snapshot();
        if !work.share_locked {
            let count = work.beneficiaries.len() as u64;
            let (pbs, ps) = compute_shares(work.balance, count);
            proof {
                lemma_share_conservation(work.balance as int, count as int);
            }
            work.per_beneficiary_share = pbs;
            work.protocol_share = ps;
            work.share_locked = true;
        }
        let ghost p1 = if p.share_locked {
            p
        } else {
            locked_plan(p)
        };
        let amount = work.per_beneficiary_share;
        proof {
            assert(work@ == p1);
            assert(p1.per_beneficiary_share * p1.count() <= p1.balance) by {
                if p.share_locked {
                } else {
                    lemma_share_conservation(p.balance, p.count());
                }
            };
            assert(p1.per_beneficiary_share <= p1.per_beneficiary_share * p1.count())
                by (nonlinear_arith)
                requires
                    p1.count() >= 1,
                    p1.per_beneficiary_share >= 0,
            ;
            lemma_remove_first_props(p1.beneficiaries, sender);
        }
        remove_addr(&mut work.beneficiaries, sender);
        work.claimed.push(sender);
        work.balance = work.balance - amount;
        let ghost p2 = work@;
        proof {
            lemma_push_no_duplicates(p1.claimed, sender);
            assert(!p2.beneficiaries.contains(0)) by {
                if sender != 0 {
                    assert(p2.beneficiaries.contains(0) <==> p1.beneficiaries.contains(0));
                } else {
                    assert(p1.beneficiaries.contains(0));
                }
            }
            assert(p2.share_locked ==> p2.beneficiaries.len() == 0 || (1 <= p2.count() && (
            p2.per_beneficiary_share * p2.count() <= p2.balance))) by {
                assert(p2.per_beneficiary_share * (p1.count() - 1) == p2.per_beneficiary_share
                    * p1.count() - p2.per_beneficiary_share) by (nonlinear_arith);
            }
        }
        let drained = work.balance == 0 || work.beneficiaries.len() == 0;
        if !drained {
            let ghost mid = self.plans@;
            let ghost gwork = work;
            self.plans.insert(owner, work);
            proof {
                lemma_plan_views_remove(pre, owner);
                lemma_plan_views_insert(mid, owner, gwork);
                assert(plan_views(pre).remove(owner).insert(owner, p2) =~= plan_views(
                    pre,
                ).insert(owner, p2));
                lemma_plans_wf_insert(plan_views(pre), owner, p2);
            }
        } else {
            proof {
                lemma_plan_views_remove(pre, owner);
                lemma_plans_wf_remove(plan_views(pre), owner);
            }
        }
        self.pending = Some(PendingTransfer { owner, recipient: sender, amount, saved: cfg });
        Ok(TransferRequest { recipient: sender, amount })
    }

    /// Withdrawal of the whole balance by the plan's owner, only before
    /// locking; drains the plan and asks the host to transfer the funds.
    pub fn withdraw_all(&mut self, sender: u64) -> (r: Result<TransferRequest, InheritanceError>)
        requires
            old(self)@.wf(),
        ensures
            final(self)@.wf(),
            ({
                let (s2, res) = spec_withdraw_all(old(self)@, sender);
                &&& final(self)@ == s2
                &&& match (r, res) {
                    (Ok(req), Ok(pay)) => req.recipient == pay.0 && req.amount == pay.1,
                    (Err(e), Err(e2)) => e == e2,
                    _ => false,
                }
            }),
    {
        proof {
            lemma_plan_views(self.plans@);
        }
        if self.pending.is_some() {
            return Err(InheritanceError::ReentrancyRejected);
        }
        match self.plans.get(&sender) {
            None => {
                return Err(InheritanceError::PlanNotFound);
            },
            Some(c) => {
                if c.share_locked {
                    return Err(InheritanceError::InvalidState);
                }
                if c.balance == 0 {
                    return Err(InheritanceError::InsufficientFunds);
                }
            },
        }
        let ghost pre = self.plans@;
        let cfg = self.plans.remove(&sender).unwrap();
        let amount = cfg.balance;
        proof {
            lemma_plan_views_remove(pre, sender);
            lemma_plans_wf_remove(plan_views(pre), sender);
        }
        self.pending = Some(
            PendingTransfer { owner: sender, recipient: sender, amount, saved: cfg },
        );
        Ok(TransferRequest { recipient: sender, amount })
    }

    /// Withdrawal of the operator's cut by the admin, once the share is
    /// locked: zeroes the cut and asks the host to transfer it; the plan
    /// stays live.
    pub fn withdraw_protocol_share(&mut self, sender: u64, owner: u64) -> (r: Result<
        TransferRequest,
        InheritanceError,
    >)
        requires
            old(self)@.wf(),
        ensures
            final(self)@.wf(),
            ({
                let (s2, res) = spec_withdraw_protocol_share(old(self)@, sender, owner);
                &&& final(self)@ == s2
                &&& match (r, res) {
                    (Ok(req), Ok(pay)) => req.recipient == pay.0 && req.amount == pay.1,
                    (Err(e), Err(e2)) => e == e2,
                    _ => false,
                }
            }),
    {
        proof {
            lemma_plan_views(self.plans@);
        }
        if sender != self.admin {
            return Err(InheritanceError::Unauthorized);
        }
        if self.pending.is_some() {
            return Err(InheritanceError::ReentrancyRejected);
        }
        match self.plans.get(&owner) {
            None => {
                return Err(InheritanceError::PlanNotFound);
            },
            Some(c) => {
                if !c.share_locked {
                    return Err(InheritanceError::InvalidState);
                }
                if c.protocol_share == 0 {
                    return Err(InheritanceError::InsufficientFunds);
                }
            },
        }
        let ghost pre = self.plans@;
        let cfg = self.plans.remove(&owner).unwrap();
        let mut work = cfg.snapshot();
        let amount = work.protocol_share;
        work.protocol_share = 0;
        let recipient = self.admin;
        let ghost mid = self.plans@;
        let ghost gwork = work;
        self.plans.insert(owner, work);
        proof {
            lemma_plan_views_remove(pre, owner);
            lemma_plan_views_insert(mid, owner, gwork);
            let p2 = gwork@;
            assert(plan_views(pre).remove(owner).insert(owner, p2) =~= plan_views(pre).insert(
                owner,
                p2,
            ));
            lemma_plans_wf_insert(plan_views(pre), owner, p2);
        }
        self.pending = Some(PendingTransfer { owner, recipient, amount, saved: cfg });
        Ok(TransferRequest { recipient, amount })
    }

    /// The host's report of the outcome of the transfer last asked for.
    /// Success commits and releases the guard; failure restores the plan
    /// record saved when the movement was prepared — every field exactly as
    /// it was — releases the guard, and reports `TransferFailed`.
    pub fn finish_transfer(&mut self, transfer_succeeded: bool) -> (r: Result<
        (),
        InheritanceError,
    >)
        requires
            old(self)@.wf(),
        ensures
            final(self)@.wf(),
            ({
                let (s2, res) = spec_finish_transfer(old(self)@, transfer_succeeded);
                final(self)@ == s2 && r == res
            }),
    {
        if self.pending.is_none() {
            return Err(InheritanceError::InvalidState);
        }
        let pd = self.pending.take().unwrap();
        if transfer_succeeded {
            Ok(())
        } else {
            let ghost pre = self.plans@;
            let ghost gsaved = pd.saved;
            self.plans.insert(pd.owner, pd.saved);
            proof {
                lemma_plan_views(pre);
                lemma_plan_views_insert(pre, pd.owner, gsaved);
                lemma_plans_wf_insert(plan_views(pre), pd.owner, gsaved@);
            }
            Err(InheritanceError::TransferFailed)
        }
    }

    /// Whether a live plan exists for the owner.
    pub fn owner_exists(&self, owner: u64) -> (r: bool)
        ensures
            r == self@.has_plan(owner),
    {
        proof {
            lemma_plan_views(self.plans@);
        }
        self.plans.contains_key(&owner)
    }

    /// The live-plan counter.
    pub fn get_contract_stats(&self) -> (r: u64)
        ensures
            r == self@.owner_count(),
    {
        proof {
            lemma_plan_views(self.plans@);
            assert(plan_views(self.plans@).dom() =~= self.plans@.dom());
        }
        self.plans.len() as u64
    }

    /// The plan's balance, beneficiary count, last reset, timeout, frozen
    /// per-beneficiary share, lock flag and protocol cut.
    pub fn get_plan_details(&self, owner: u64) -> (r: Result<
        (u128, u64, u64, u64, u128, bool, u128),
        InheritanceError,
    >)
        ensures
            match r {
                Ok(t) => {
                    &&& self@.has_plan(owner)
                    &&& t.0 == self@.plan(owner).balance
                    &&& t.1 == self@.plan(owner).count()
                    &&& t.2 == self@.plan(owner).last_reset
                    &&& t.3 == self@.plan(owner).timeout_period
                    &&& t.4 == self@.plan(owner).per_beneficiary_share
                    &&& t.5 == self@.plan(owner).share_locked
                    &&& t.6 == self@.plan(owner).protocol_share
                },
                Err(e) => !self@.has_plan(owner) && e == InheritanceError::PlanNotFound,
            },
    {
        proof {
            lemma_plan_views(self.plans@);
        }
        match self.plans.get(&owner) {
            None => Err(InheritanceError::PlanNotFound),
            Some(c) => Ok(
                (
                    c.balance,
                    c.beneficiaries.len() as u64,
                    c.last_reset,
                    c.timeout_period,
                    c.per_beneficiary_share,
                    c.share_locked,
                    c.protocol_share,
                ),
            ),
        }
    }

    /// Whether the owner's plan is expired at the supplied ledger time.
    pub fn is_owner_expired(&self, owner: u64, now: u64) -> (r: Result<bool, InheritanceError>)
        ensures
            match r {
                Ok(b) => self@.has_plan(owner) && b == self@.plan(owner).expired(now),
                Err(e) => !self@.has_plan(owner) && e == InheritanceError::PlanNotFound,
            },
    {
        proof {
            lemma_plan_views(self.plans@);
        }
        match self.plans.get(&owner) {
            None => Err(InheritanceError::PlanNotFound),
            Some(c) => Ok(c.expired(now)),
        }
    }

    /// Whether an address is currently a listed beneficiary of the plan.
    pub fn is_beneficiary(&self, owner: u64, beneficiary: u64) -> (r: Result<
        bool,
        InheritanceError,
    >)
        ensures
            match r {
                Ok(b) => self@.has_plan(owner) && b == self@.plan(owner).is_beneficiary(
                    beneficiary,
                ),
                Err(e) => !self@.has_plan(owner) && e == InheritanceError::PlanNotFound,
            },
    {
        proof {
            lemma_plan_views(self.plans@);
        }
        match self.plans.get(&owner) {
            None => Err(InheritanceError::PlanNotFound),
            Some(c) => Ok(addrs_contain(&c.beneficiaries, beneficiary)),
        }
    }

    /// Whether an address has already redeemed its share of the plan.
    pub fn has_claimed(&self, owner: u64, beneficiary: u64) -> (r: Result<bool, InheritanceError>)
        ensures
            match r {
                Ok(b) => self@.has_plan(owner) && b == self@.plan(owner).has_claimed(beneficiary),
                Err(e) => !self@.has_plan(owner) && e == InheritanceError::PlanNotFound,
            },
    {
        proof {
            lemma_plan_views(self.plans@);
        }
        match self.plans.get(&owner) {
            None => Err(InheritanceError::PlanNotFound),
            Some(c) => Ok(addrs_contain(&c.claimed, beneficiary)),
        }
    }

    /// Seconds left before the plan expires; zero once expired.
    pub fn time_remaining(&self, owner: u64, now: u64) -> (r: Result<u128, InheritanceError>)
        ensures
            match r {
                Ok(t) => {
                    &&& self@.has_plan(owner)
                    &&& t == if self@.plan(owner).expired(now) {
                        0int
                    } else {
                        self@.plan(owner).expiry_time() - now
                    }
                },
                Err(e) => !self@.has_plan(owner) && e == InheritanceError::PlanNotFound,
            },
    {
        proof {
            lemma_plan_views(self.plans@);
        }
        match self.plans.get(&owner) {
            None => Err(InheritanceError::PlanNotFound),
            Some(c) => {
                let expiry: u128 = (c.last_reset as u128) + (c.timeout_period as u128);
                if (now as u128) >= expiry {
                    Ok(0)
                } else {
                    Ok(expiry - (now as u128))
                }
            },
        }
    }

    /// The live beneficiary addresses, in insertion order.
    pub fn get_all_beneficiaries(&self, owner: u64) -> (r: Result<Vec<u64>, InheritanceError>)
        ensures
            match r {
                Ok(v) => self@.has_plan(owner) && v@ == self@.plan(owner).beneficiaries,
                Err(e) => !self@.has_plan(owner) && e == InheritanceError::PlanNotFound,
            },
    {
        proof {
            lemma_plan_views(self.plans@);
        }
        match self.plans.get(&owner) {
            None => Err(InheritanceError::PlanNotFound),
            Some(c) => Ok(copy_addrs(&c.beneficiaries)),
        }
    }

    /// The live beneficiary count of the plan.
    pub fn get_active_beneficiary_count(&self, owner: u64) -> (r: Result<u64, InheritanceError>)
        ensures
            match r {
                Ok(n) => self@.has_plan(owner) && n == self@.plan(owner).count(),
                Err(e) => !self@.has_plan(owner) && e == InheritanceError::PlanNotFound,
            },
    {
        proof {
            lemma_plan_views(self.plans@);
        }
        match self.plans.get(&owner) {
            None => Err(InheritanceError::PlanNotFound),
            Some(c) => Ok(c.beneficiaries.len() as u64),
        }
    }

    /// An address's standing towards the plan: listed, claimed, and the
    /// share it would receive.
    pub fn get_beneficiary_details(&self, owner: u64, beneficiary: u64) -> (r: Result<
        (bool, bool, u128),
        InheritanceError,
    >)
        ensures
            match r {
                Ok(t) => {
                    &&& self@.has_plan(owner)
                    &&& t.0 == self@.plan(owner).is_beneficiary(beneficiary)
                    &&& t.1 == self@.plan(owner).has_claimed(beneficiary)
                    &&& t.2 == potential_share(self@.plan(owner), beneficiary)
                },
                Err(e) => !self@.has_plan(owner) && e == InheritanceError::PlanNotFound,
            },
    {
        proof {
            lemma_plan_views(self.plans@);
        }
        match self.plans.get(&owner) {
            None => Err(InheritanceError::PlanNotFound),
            Some(c) => {
                let listed = addrs_contain(&c.beneficiaries, beneficiary);
                let claimed = addrs_contain(&c.claimed, beneficiary);
                let share: u128 = if c.share_locked {
                    if listed {
                        c.per_beneficiary_share
                    } else {
                        0
                    }
                } else if c.beneficiaries.len() > 0 && listed {
                    (c.balance / 2) / (c.beneficiaries.len() as u128)
                } else {
                    0
                };
                Ok((listed, claimed, share))
            },
        }
    }

    /// The plan's balance, beneficiary count and timer, with the expiry
    /// status and expiry time at the supplied ledger time.
    pub fn get_extended_plan_details(&self, owner: u64, now: u64) -> (r: Result<
        (u128, u64, u64, u64, bool, u128),
        InheritanceError,
    >)
        ensures
            match r {
                Ok(t) => {
                    &&& self@.has_plan(owner)
                    &&& t.0 == self@.plan(owner).balance
                    &&& t.1 == self@.plan(owner).count()
                    &&& t.2 == self@.plan(owner).last_reset
                    &&& t.3 == self@.plan(owner).timeout_period
                    &&& t.4 == self@.plan(owner).expired(now)
                    &&& t.5 == self@.plan(owner).expiry_time()
                },
                Err(e) => !self@.has_plan(owner) && e == InheritanceError::PlanNotFound,
            },
    {
        proof {
            lemma_plan_views(self.plans@);
        }
        match self.plans.get(&owner) {
            None => Err(InheritanceError::PlanNotFound),
            Some(c) => {
                let expiry: u128 = (c.last_reset as u128) + (c.timeout_period as u128);
                Ok(
                    (
                        c.balance,
                        c.beneficiaries.len() as u64,
                        c.last_reset,
                        c.timeout_period,
                        (now as u128) >= expiry,
                        expiry,
                    ),
                )
            },
        }
    }

    /// Whether a plan exists for the owner, and whether it is expired at
    /// the supplied ledger time.
    pub fn check_plan_status(&self, owner: u64, now: u64) -> (r: (bool, bool))
        ensures
            r.0 == self@.has_plan(owner),
            r.1 == (self@.has_plan(owner) && self@.plan(owner).expired(now)),
    {
        proof {
            lemma_plan_views(self.plans@);
        }
        match self.plans.get(&owner) {
            None => (false, false),
            Some(c) => (true, c.expired(now)),
        }
    }

    /// The plan's protocol cut and lock flag.
    pub fn get_protocol_share(&self, owner: u64) -> (r: Result<(u128, bool), InheritanceError>)
        ensures
            match r {
                Ok(t) => {
                    &&& self@.has_plan(owner)
                    &&& t.0 == self@.plan(owner).protocol_share
                    &&& t.1 == self@.plan(owner).share_locked
                },
                Err(e) => !self@.has_plan(owner) && e == InheritanceError::PlanNotFound,
            },
    {
        proof {
            lemma_plan_views(self.plans@);
        }
        match self.plans.get(&owner) {
            None => Err(InheritanceError::PlanNotFound),
            Some(c) => Ok((c.protocol_share, c.share_locked)),
        }
    }
}

} // verus!
