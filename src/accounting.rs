use vstd::prelude::*;

use crate::error::ClaimError;
use crate::states::{ClaimAccount, Global, TOTAL_SHARES};

verus! {

/// What a beneficiary of the given weight is owed over its lifetime, once the
/// pool has received `total` in all: `floor(total * shares / 10000)`.
pub open spec fn entitlement(total: nat, shares: nat) -> nat {
    ((total * shares) / (TOTAL_SHARES as nat)) as nat
}

/// Everything the pool has ever received: what was paid out plus what is left.
pub open spec fn total_ever(g: Global, vault_balance: u64) -> nat {
    (g.total_released + vault_balance) as nat
}

/// What a claim would pay now; zero or less means nothing is owed.
pub open spec fn owed(g: Global, a: ClaimAccount, vault_balance: u64) -> int {
    entitlement(total_ever(g, vault_balance), a.shares as nat) - a.total_released
}

/// No step of a claim leaves the 64-bit range.
pub open spec fn claim_fits(g: Global, a: ClaimAccount, vault_balance: u64) -> bool {
    &&& total_ever(g, vault_balance) <= u64::MAX
    &&& total_ever(g, vault_balance) * a.shares <= u64::MAX
    &&& owed(g, a, vault_balance) > 0 ==> g.total_released + owed(g, a, vault_balance)
        <= u64::MAX
}

/// The ledger after `amount` more has been paid out.
pub open spec fn released_more(g: Global, amount: nat) -> Global {
    Global { total_released: (g.total_released + amount) as u64, ..g }
}

/// The record after `amount` more has been withdrawn.
pub open spec fn withdrawn_more(a: ClaimAccount, amount: nat) -> ClaimAccount {
    ClaimAccount { total_released: (a.total_released + amount) as u64, ..a }
}

/// Tells whether a claim on these values stays within 64 bits.
pub fn can_settle(global: &Global, claim_account: &ClaimAccount, vault_balance: u64) -> (r: bool)
    ensures
        r == claim_fits(*global, *claim_account, vault_balance),
{
    let total = match global.total_released.checked_add(vault_balance) {
        Some(t) => t,
        None => return false,
    };
    let product = match total.checked_mul(claim_account.shares) {
        Some(p) => p,
        None => return false,
    };
    let total_value = product / TOTAL_SHARES;
    if total_value <= claim_account.total_released {
        return true;
    }
    global.total_released.checked_add(total_value - claim_account.total_released).is_some()
}

/// Settles one claim: pays the beneficiary what has accrued to it since its
/// last claim, given the vault's current balance. Both cumulative totals grow
/// by the amount paid, which is returned. When nothing is owed the claim is
/// refused with `EmptyValue` and nothing changes.
pub fn transfer_owed(
    global: &mut Global,
    claim_account: &mut ClaimAccount,
    vault_balance: u64,
) -> (r: Result<u64, ClaimError>)
    requires
        claim_fits(*old(global), *old(claim_account), vault_balance),
    ensures
        owed(*old(global), *old(claim_account), vault_balance) > 0 ==> {
            let amount = owed(*old(global), *old(claim_account), vault_balance) as nat;
            &&& r == Ok::<u64, ClaimError>(amount as u64)
            &&& *final(global) == released_more(*old(global), amount)
            &&& *final(claim_account) == withdrawn_more(*old(claim_account), amount)
        },
        owed(*old(global), *old(claim_account), vault_balance) <= 0 ==> {
            &&& r == Err::<u64, ClaimError>(ClaimError::EmptyValue)
            &&& *final(global) == *old(global)
            &&& *final(claim_account) == *old(claim_account)
        },
{
    let total = global.total_released + vault_balance;
    let total_value = total * claim_account.shares / TOTAL_SHARES;
    let released_by_claim = claim_account.total_released;
    if total_value <= released_by_claim {
        return Err(ClaimError::EmptyValue);
    }
    let amount = total_value - released_by_claim;
    global.total_released = global.total_released + amount;
    claim_account.total_released = total_value;
    Ok(amount)
}

/// The sum of a sequence of weights or amounts.
pub open spec fn sum_of(s: Seq<u64>) -> nat
    decreases s.len(),
{
    if s.len() == 0 {
        0
    } else {
        sum_of(s.drop_last()) + s.last() as nat
    }
}

/// The lifetime entitlements of beneficiaries of the given weights, summed,
/// once the pool has received `total` in all.
pub open spec fn sum_entitlements(total: nat, shares: Seq<u64>) -> nat
    decreases shares.len(),
{
    if shares.len() == 0 {
        0
    } else {
        sum_entitlements(total, shares.drop_last()) + entitlement(total, shares.last() as nat)
    }
}

proof fn lemma_entitlements_scaled(total: nat, shares: Seq<u64>)
    ensures
        sum_entitlements(total, shares) * TOTAL_SHARES <= total * sum_of(shares),
        total * sum_of(shares) <= sum_entitlements(total, shares) * TOTAL_SHARES + 9999
            * shares.len(),
    decreases shares.len(),
{
    if shares.len() > 0 {
        let rest = shares.drop_last();
        let x = shares.last() as nat;
        lemma_entitlements_scaled(total, rest);
        let e = entitlement(total, x);
        assert(e * 10000 <= total * x <= e * 10000 + 9999) by (nonlinear_arith)
            requires
                e == (total * x) / 10000,
        ;
        assert(total * sum_of(shares) == total * sum_of(rest) + total * x) by (nonlinear_arith)
            requires
                sum_of(shares) == sum_of(rest) + x,
        ;
        assert(sum_entitlements(total, shares) * 10000 == sum_entitlements(total, rest) * 10000
            + e * 10000) by (nonlinear_arith)
            requires
                sum_entitlements(total, shares) == sum_entitlements(total, rest) + e,
        ;
        assert(9999 * shares.len() == 9999 * rest.len() + 9999);
        assert(total * sum_of(shares) <= sum_entitlements(total, shares) * 10000 + 9999
            * shares.len());
    } else {
        assert(total * sum_of(shares) == 0) by (nonlinear_arith)
            requires
                sum_of(shares) == 0,
        ;
    }
}

/// Rounding never pays out more than came in: when the weights sum to at most
/// the denominator, the lifetime entitlements of all beneficiaries together
/// stay within what the pool has received. When the weights sum to exactly the
/// denominator, what rounding strands is at most one unit per beneficiary.
pub proof fn lemma_rounding_bound(total: nat, shares: Seq<u64>)
    requires
        sum_of(shares) <= TOTAL_SHARES,
    ensures
        sum_entitlements(total, shares) <= total,
        sum_of(shares) == TOTAL_SHARES ==> total <= sum_entitlements(total, shares)
            + shares.len(),
{
    lemma_entitlements_scaled(total, shares);
    let e = sum_entitlements(total, shares);
    let n = shares.len();
    let w = sum_of(shares);
    assert(e <= total) by (nonlinear_arith)
        requires
            e * 10000 <= total * w,
            w <= 10000,
    ;
    if w == 10000 {
        assert(total <= e + n) by (nonlinear_arith)
            requires
                total * w <= e * 10000 + 9999 * n,
                w == 10000,
        ;
    }
}

} // verus!
