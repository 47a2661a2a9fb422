use vstd::prelude::*;

use crate::admission::NftCredential;
use crate::error::ClaimError;
use crate::ledger::{initial_view, Distribution};
use crate::states::Key;

verus! {

/// What initialization is given: the two fixed beneficiaries, the collection
/// that gates admission, and the bump of the vault's signing authority.
#[derive(Clone, Copy, Debug)]
pub struct Initialize {
    pub marketing: Key,
    pub lp: Key,
    pub collection_address: Key,
    pub token_auth_bump: u8,
}

/// What admission is given: the credential presented by the caller.
#[derive(Clone, Copy, Debug)]
pub struct Register {
    pub nft: NftCredential,
}

/// What a claim by a fixed beneficiary is given: its identity and the
/// vault's current balance.
#[derive(Clone, Copy, Debug)]
pub struct Claim {
    pub signer: Key,
    pub vault_balance: u64,
}

/// What a claim by a credential holder is given: the credential and the
/// vault's current balance.
#[derive(Clone, Copy, Debug)]
pub struct ClaimWithNFT {
    pub nft: NftCredential,
    pub vault_balance: u64,
}

/// Creates the distribution with its two fixed beneficiaries.
pub fn handle_initialize(ctx: &Initialize) -> (r: Result<Distribution, ClaimError>)
    ensures
        ctx.marketing == ctx.lp ==> r == Err::<Distribution, ClaimError>(
            ClaimError::AlreadyInitialized,
        ),
        ctx.marketing != ctx.lp ==> (r matches Ok(d) && d.wf() && d@.inv() && d@ == initial_view(
            ctx.marketing,
            ctx.lp,
            ctx.collection_address,
            ctx.token_auth_bump,
        )),
{
    Distribution::initialize(ctx.marketing, ctx.lp, ctx.collection_address, ctx.token_auth_bump)
}

/// Admits the holder of the presented credential.
pub fn handle_register(dist: &mut Distribution, ctx: &Register) -> (r: Result<(), ClaimError>)
    requires
        old(dist).wf(),
    ensures
        final(dist).wf(),
        r == old(dist)@.register_result(ctx.nft),
        r is Ok ==> final(dist)@ == old(dist)@.register_next(ctx.nft),
        r is Err ==> final(dist)@ == old(dist)@,
{
    dist.register(&ctx.nft)
}

/// Settles a claim by a fixed beneficiary; returns the amount to transfer.
pub fn handle_claim(dist: &mut Distribution, ctx: &Claim) -> (r: Result<u64, ClaimError>)
    requires
        old(dist).wf(),
        old(dist)@.claim_fits(ctx.signer, ctx.vault_balance),
    ensures
        final(dist).wf(),
        r == old(dist)@.claim_result(ctx.signer, ctx.vault_balance),
        r is Ok ==> final(dist)@ == old(dist)@.claim_next(ctx.signer, ctx.vault_balance),
        r is Err ==> final(dist)@ == old(dist)@,
{
    dist.claim(ctx.signer, ctx.vault_balance)
}

/// Settles a claim by a credential holder; returns the amount to transfer.
pub fn handle_claim_with_nft(dist: &mut Distribution, ctx: &ClaimWithNFT) -> (r: Result<
    u64,
    ClaimError,
>)
    requires
        old(dist).wf(),
        old(dist)@.claim_fits(ctx.nft.token_account, ctx.vault_balance),
    ensures
        final(dist).wf(),
        r == old(dist)@.claim_with_nft_result(ctx.nft, ctx.vault_balance),
        r is Ok ==> final(dist)@ == old(dist)@.claim_next(ctx.nft.token_account, ctx.vault_balance),
        r is Err ==> final(dist)@ == old(dist)@,
{
    dist.claim_with_nft(&ctx.nft, ctx.vault_balance)
}

/// Entry point: initialization.
pub fn initialize(ctx: &Initialize) -> (r: Result<Distribution, ClaimError>)
    ensures
        ctx.marketing == ctx.lp ==> r == Err::<Distribution, ClaimError>(
            ClaimError::AlreadyInitialized,
        ),
        ctx.marketing != ctx.lp ==> (r matches Ok(d) && d.wf() && d@.inv() && d@ == initial_view(
            ctx.marketing,
            ctx.lp,
            ctx.collection_address,
            ctx.token_auth_bump,
        )),
{
    handle_initialize(ctx)
}

/// Entry point: admission of a credential holder.
pub fn register(dist: &mut Distribution, ctx: &Register) -> (r: Result<(), ClaimError>)
    requires
        old(dist).wf(),
    ensures
        final(dist).wf(),
        r == old(dist)@.register_result(ctx.nft),
        r is Ok ==> final(dist)@ == old(dist)@.register_next(ctx.nft),
        r is Err ==> final(dist)@ == old(dist)@,
{
    handle_register(dist, ctx)
}

/// Entry point: a claim by a credential holder.
pub fn claim_with_nft(dist: &mut Distribution, ctx: &ClaimWithNFT) -> (r: Result<u64, ClaimError>)
    requires
        old(dist).wf(),
        old(dist)@.claim_fits(ctx.nft.token_account, ctx.vault_balance),
    ensures
        final(dist).wf(),
        r == old(dist)@.claim_with_nft_result(ctx.nft, ctx.vault_balance),
        r is Ok ==> final(dist)@ == old(dist)@.claim_next(ctx.nft.token_account, ctx.vault_balance),
        r is Err ==> final(dist)@ == old(dist)@,
{
    handle_claim_with_nft(dist, ctx)
}

/// Entry point: a claim by a fixed beneficiary.
pub fn claim(dist: &mut Distribution, ctx: &Claim) -> (r: Result<u64, ClaimError>)
    requires
        old(dist).wf(),
        old(dist)@.claim_fits(ctx.signer, ctx.vault_balance),
    ensures
        final(dist).wf(),
        r == old(dist)@.claim_result(ctx.signer, ctx.vault_balance),
        r is Ok ==> final(dist)@ == old(dist)@.claim_next(ctx.signer, ctx.vault_balance),
        r is Err ==> final(dist)@ == old(dist)@,
{
    handle_claim(dist, ctx)
}

} // verus!
