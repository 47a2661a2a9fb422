use vstd::prelude::*;

verus! {

/// Why an operation of the ledger was refused. A refused operation changes nothing.
#[derive(Clone, Copy, Debug, PartialEq, Eq, Structural)]
pub enum ClaimError {
    /// The credential's collection attestation is missing or not verified.
    CollectionNotVerified,
    /// The holding account does not hold exactly one unit of the credential.
    TokenAccountEmpty,
    /// The credential belongs to another collection than the ledger's.
    InvalidCollection,
    /// The credential's mint does not have a supply of exactly one.
    TokenNotNFT,
    /// Nothing new has accrued to the beneficiary since its last claim.
    EmptyValue,
    /// The two fixed beneficiaries would share one record.
    AlreadyInitialized,
    /// A record already exists for this holding account.
    AlreadyRegistered,
    /// No record exists for the claiming identity.
    NotRegistered,
    /// Admitting one more holder would take the shares past the denominator.
    SharesExhausted,
}

} // verus!
