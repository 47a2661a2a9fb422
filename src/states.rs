use vstd::prelude::*;

verus! {

/// The denominator of all share weights.
pub const TOTAL_SHARES: u64 = 10_000;

/// The weight of the fixed marketing beneficiary.
pub const MARKETING_SHARES: u64 = 3_500;

/// The weight of the fixed liquidity beneficiary.
pub const LP_SHARES: u64 = 5_000;

/// The weight given to each admitted credential holder.
pub const NFT_SHARES: u64 = 3;

/// A 32-byte account identity, held as two 128-bit halves.
#[derive(Clone, Copy, Debug, PartialEq, Eq, Structural)]
pub struct Key {
    pub hi: u128,
    pub lo: u128,
}

impl Key {
    pub fn new(hi: u128, lo: u128) -> (r: Key)
        ensures
            r.hi == hi,
            r.lo == lo,
    {
        Key { hi, lo }
    }
}

/// The global share ledger.
#[derive(Clone, Copy, Debug, PartialEq, Eq, Structural)]
pub struct Global {
    pub marketing: Key,
    pub lp: Key,
    pub collection: Key,
    /// What has ever been paid out, over all beneficiaries.
    pub total_released: u64,
    pub token_auth_bump: u8,
}

/// The record of one beneficiary: its weight and what it has withdrawn.
#[derive(Clone, Copy, Debug, PartialEq, Eq, Structural)]
pub struct ClaimAccount {
    pub total_released: u64,
    pub shares: u64,
}

impl ClaimAccount {
    /// A fresh record of the given weight, with nothing withdrawn.
    pub fn new(shares: u64) -> (r: ClaimAccount)
        ensures
            r.shares == shares,
            r.total_released == 0,
    {
        ClaimAccount { total_released: 0, shares }
    }

    /// Resets the record to the given weight, with nothing withdrawn.
    pub fn initialize(&mut self, shares: u64)
        ensures
            final(self).shares == shares,
            final(self).total_released == 0,
    {
        self.total_released = 0;
        self.shares = shares;
    }
}

} // verus!
