use vstd::arithmetic::div_mod::{lemma_fundamental_div_mod, lemma_mod_bound};
use vstd::prelude::*;

verus! {

/// The half of the balance earmarked for the beneficiaries as a whole,
/// rounded down.
pub open spec fn beneficiary_total(balance: int) -> int {
    balance / 2
}

/// The amount each beneficiary may redeem once the distribution is locked:
/// the beneficiary half divided evenly, rounded down.
pub open spec fn per_beneficiary_share(balance: int, count: int) -> int {
    beneficiary_total(balance) / count
}

/// The operator's cut: whatever is left of the balance after the exact
/// per-beneficiary shares are carved out. It absorbs the intended half plus
/// all rounding remainders from both divisions.
pub open spec fn protocol_share(balance: int, count: int) -> int {
    balance - per_beneficiary_share(balance, count) * count
}

/// Conservation of the locked distribution: the per-beneficiary shares and
/// the protocol cut partition the balance exactly, the beneficiaries as a
/// whole never receive more than half, and the operator receives at least
/// the remaining half.
pub proof fn lemma_share_conservation(balance: int, count: int)
    requires
        0 <= balance,
        1 <= count,
    ensures
        per_beneficiary_share(balance, count) * count + protocol_share(balance, count) == balance,
        0 <= per_beneficiary_share(balance, count),
        per_beneficiary_share(balance, count) * count <= beneficiary_total(balance),
        balance - beneficiary_total(balance) <= protocol_share(balance, count),
{
    let bt = beneficiary_total(balance);
    let pbs = per_beneficiary_share(balance, count);
    assert(0 <= bt <= balance);
    lemma_fundamental_div_mod(bt, count);
    lemma_mod_bound(bt, count);
    assert(pbs * count == count * pbs) by (nonlinear_arith);
    assert(0 <= pbs) by (nonlinear_arith)
        requires
            1 <= count,
            0 <= bt,
            bt == count * pbs + (bt % count),
            0 <= bt % count < count,
    ;
}

/// Computes the pair of a per-beneficiary share and a protocol share at the
/// moment a distribution is locked.
pub fn compute_shares(balance: u128, count: u64) -> (r: (u128, u128))
    requires
        1 <= count,
    ensures
        r.0 == per_beneficiary_share(balance as int, count as int),
        r.1 == protocol_share(balance as int, count as int),
{
    proof {
        lemma_share_conservation(balance as int, count as int);
    }
    let bt: u128 = balance / 2;
    let pbs: u128 = bt / (count as u128);
    let ps: u128 = balance - pbs * (count as u128);
    (pbs, ps)
}

} // verus!
