//! A token custody and staking ledger whose authority over pooled funds is a
//! deterministically derived address with no private key. The crate models the
//! address-derivation scheme, the vault signer registry, the per-user locked
//! balance ledger, and the stake/unstake state machine, and proves that the
//! ledger can never be drained past what was staked.

pub mod addr;
pub mod accounts;
pub mod errors;
pub mod laws;
pub mod ledger;
pub mod lookup;
