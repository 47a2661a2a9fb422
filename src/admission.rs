use vstd::prelude::*;

use crate::error::ClaimError;
use crate::states::Key;

verus! {

/// A credential's attestation of membership in a collection.
#[derive(Clone, Copy, Debug, PartialEq, Eq, Structural)]
pub struct CollectionRef {
    pub verified: bool,
    pub key: Key,
}

/// What the credential subsystem reports of a credential and the account
/// presenting it.
#[derive(Clone, Copy, Debug)]
pub struct NftCredential {
    /// Total supply of the credential's mint.
    pub mint_supply: u64,
    /// The account that holds the credential for the caller; records of
    /// admitted holders are keyed by it.
    pub token_account: Key,
    /// How many units of the credential that account holds.
    pub token_amount: u64,
    /// The credential's collection attestation, if it has one.
    pub collection: Option<CollectionRef>,
}

/// The outcome of checking a credential against the ledger's collection:
/// supply, then holding, then verification, then collection identity.
pub open spec fn credential_check(nft: NftCredential, collection: Key) -> Result<(), ClaimError> {
    if nft.mint_supply != 1 {
        Err(ClaimError::TokenNotNFT)
    } else if nft.token_amount != 1 {
        Err(ClaimError::TokenAccountEmpty)
    } else if !(nft.collection matches Some(c) && c.verified) {
        Err(ClaimError::CollectionNotVerified)
    } else if nft.collection->Some_0.key != collection {
        Err(ClaimError::InvalidCollection)
    } else {
        Ok(())
    }
}

/// Checks that the credential is a sole-supply token, held as one unit by the
/// presenting account, with a verified attestation of the given collection.
pub fn check_credential(nft: &NftCredential, collection: Key) -> (r: Result<(), ClaimError>)
    ensures
        r == credential_check(*nft, collection),
{
    if nft.mint_supply != 1 {
        return Err(ClaimError::TokenNotNFT);
    }
    if nft.token_amount != 1 {
        return Err(ClaimError::TokenAccountEmpty);
    }
    match nft.collection {
        Some(c) => {
            if !c.verified {
                Err(ClaimError::CollectionNotVerified)
            } else if c.key != collection {
                Err(ClaimError::InvalidCollection)
            } else {
                Ok(())
            }
        },
        None => Err(ClaimError::CollectionNotVerified),
    }
}

} // verus!
