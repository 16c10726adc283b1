//! The persisted records of the staking core and the account bundles each
//! instruction receives, with their mathematical views.
use vstd::prelude::*;

use crate::addr::Address;

verus! {

/// The vault signer registry record: proves that a specific derived address
/// is the program's designated signing authority. Created once; write-once.
pub struct SignerAccount {
    pub is_initialized: bool,
    pub is_signer: bool,
    /// The collision-avoidance nonce found at derivation time; every later
    /// delegated signature must re-supply it exactly.
    pub bump: u8,
}

/// A balance-bearing record for one asset, owned by one authorization
/// principal.
pub struct TokenHolding {
    pub owner: Address,
    pub mint: Address,
    pub amount: u64,
}

/// The per-(user, asset) ledger record tracking how much is staked and who
/// may decrease it.
pub struct LockedTokenAccount {
    /// The user permitted to decrease this record.
    pub authority: Address,
    /// Which asset this record tracks.
    pub token_mint: Address,
    /// Amount currently staked; unsigned, so underflow is the guarded
    /// failure mode.
    pub amount: u64,
}

/// A signer record together with the derived address it lives at.
pub struct SignerEntry {
    pub address: Address,
    pub account: SignerAccount,
}

/// A holding together with the address it lives at.
pub struct HoldingEntry {
    pub address: Address,
    pub account: TokenHolding,
}

/// A locked-balance record together with the derived address it lives at.
pub struct LockedEntry {
    pub address: Address,
    pub account: LockedTokenAccount,
}

/// View of a stored signer record.
#[verifier::ext_equal]
pub ghost struct SignerV {
    pub address: Seq<u8>,
    pub is_initialized: bool,
    pub is_signer: bool,
    pub bump: u8,
}

/// View of a stored holding.
#[verifier::ext_equal]
pub ghost struct HoldingV {
    pub address: Seq<u8>,
    pub owner: Seq<u8>,
    pub mint: Seq<u8>,
    pub amount: u64,
}

/// View of a stored locked-balance record.
#[verifier::ext_equal]
pub ghost struct LockedV {
    pub address: Seq<u8>,
    pub authority: Seq<u8>,
    pub mint: Seq<u8>,
    pub amount: u64,
}

impl View for SignerEntry {
    type V = SignerV;

    open spec fn view(&self) -> SignerV {
        SignerV {
            address: self.address@,
            is_initialized: self.account.is_initialized,
            is_signer: self.account.is_signer,
            bump: self.account.bump,
        }
    }
}

impl View for HoldingEntry {
    type V = HoldingV;

    open spec fn view(&self) -> HoldingV {
        HoldingV {
            address: self.address@,
            owner: self.account.owner@,
            mint: self.account.mint@,
            amount: self.account.amount,
        }
    }
}

impl View for LockedEntry {
    type V = LockedV;

    open spec fn view(&self) -> LockedV {
        LockedV {
            address: self.address@,
            authority: self.account.authority@,
            mint: self.account.token_mint@,
            amount: self.account.amount,
        }
    }
}

/// Accounts for creating the vault signer record.
pub struct InitializeProgramSigner {
    pub payer: Address,
}

/// Accounts for creating the vault's holding for one asset.
pub struct InitializeProgramAssociatedTokenAccount {
    pub payer: Address,
    pub token_mint: Address,
}

/// Accounts for creating a user's zeroed locked-balance record.
pub struct InitializeLockedTokenAccount {
    pub user: Address,
    pub user_associated_token: Address,
    pub program_associated_token: Address,
    pub token_mint: Address,
}

/// Accounts for staking: the user moves funds into the vault's holding.
pub struct StakeToken {
    pub user: Address,
    pub user_associated_token: Address,
    pub program_associated_token: Address,
    pub token_mint: Address,
}

/// Accounts for unstaking: the vault signer authorizes the outbound move.
pub struct UnstakeToken {
    pub user: Address,
    pub user_associated_token: Address,
    pub program_associated_token: Address,
    pub locked_token: Address,
    pub token_mint: Address,
}

} // verus!
