//! The failure modes of the staking core. Every operation either commits all
//! of its effects or returns one of these and leaves the ledger untouched.
use vstd::prelude::*;

verus! {

/// Terminal failures of a single call. No variant triggers an internal retry.
#[derive(Clone, Copy, Debug, PartialEq, Eq, Structural)]
pub enum MyError {
    /// A one-time setup call found the vault signer already created.
    AlreadyInitialized,
    /// A record already exists at the canonical derived address.
    AlreadyExists,
    /// The vault's holding must be owned by the vault signer, and the signer
    /// must exist before such a holding can be created.
    InvalidOwner,
    /// Two accounts that must carry the same asset carry different ones.
    MintMismatch,
    /// A transfer asked for more than the source holding carries.
    InsufficientFunds,
    /// An unstake asked for more than the caller has locked.
    AmountTooLarge,
    /// Unstake was invoked by an identity other than the record's authority.
    UnauthorizedUnstake,
    /// The transfer's authorizer does not own the source holding, or claims
    /// the keyless derived identity directly.
    Unauthorized,
    /// The supplied seeds and nonce do not re-derive the expected address.
    InvalidProof,
    /// No nonce in range yields an address off the signature curve.
    DerivationExhausted,
    /// An account this call needs does not exist.
    AccountMissing,
    /// Crediting would overflow a 64-bit balance.
    BalanceOverflow,
}

} // verus!
