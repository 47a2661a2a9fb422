//! A pro-rata, pull-based distribution ledger: a pool of tokens shared by
//! weighted beneficiaries, each of whom withdraws what has accrued to it.
//!
//! `accounting` holds the settlement arithmetic, `admission` the checks on a
//! credential, `ledger` the state of a distribution and its operations, and
//! `program` the entry points.

pub mod accounting;
pub mod admission;
pub mod error;
pub mod ledger;
pub mod program;
pub mod states;

pub use admission::{CollectionRef, NftCredential};
pub use error::ClaimError;
pub use ledger::{Distribution, Entry};
pub use program::{
    claim, claim_with_nft, handle_claim, handle_claim_with_nft, handle_initialize,
    handle_register, initialize, register, Claim, ClaimWithNFT, Initialize, Register,
};
pub use states::{ClaimAccount, Global, Key};
