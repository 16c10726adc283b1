//! The staking ledger: the vault signer registry, the holdings of the balance
//! registry, and the per-user locked-balance records, with the state machine
//! that stakes and unstakes against them.
use vstd::prelude::*;

use crate::accounts::{
    HoldingEntry, HoldingV, InitializeLockedTokenAccount, InitializeProgramAssociatedTokenAccount,
    InitializeProgramSigner, LockedEntry, LockedTokenAccount, LockedV, SignerAccount, SignerEntry,
    SignerV, StakeToken, TokenHolding, UnstakeToken,
};
use crate::addr::{derive_address, find_derived, proof_valid, seeds_view, Address};
use crate::errors::MyError;
use crate::lookup::{
    holding_ix, lemma_holding_ix_props, lemma_locked_addr_ix_props, lemma_locked_key_ix_props,
    lemma_sum_locked_ge_elem, lemma_sum_locked_nonneg, lemma_sum_locked_push,
    lemma_sum_locked_update, lemma_vault_ix_props, lemma_vault_ix_push, lemma_vault_ix_same_keys,
    locked_addr_ix, locked_key_ix, sum_locked, vault_ix,
};

verus! {

/// The seed naming the vault signer: the ASCII bytes of "signer".
pub open spec fn signer_seed_spec() -> Seq<u8> {
    seq![115u8, 105u8, 103u8, 110u8, 101u8, 114u8]
}

/// The seed list from which the vault signer's address is derived.
pub open spec fn signer_seeds_spec() -> Seq<Seq<u8>> {
    seq![signer_seed_spec()]
}

/// The trailing seed marking a locked-balance record: the ASCII bytes of
/// "locked".
pub open spec fn locked_seed_spec() -> Seq<u8> {
    seq![108u8, 111u8, 99u8, 107u8, 101u8, 100u8]
}

/// The seed list of a user's locked-balance record for one asset.
pub open spec fn locked_seeds_spec(user: Seq<u8>, signer: Seq<u8>, mint: Seq<u8>) -> Seq<Seq<u8>> {
    seq![user, signer, mint, locked_seed_spec()]
}

/// The seed list of the canonical holding of `owner` for `mint`, as the
/// associated-account registry derives it.
pub open spec fn holding_seeds_spec(owner: Seq<u8>, token_pid: Seq<u8>, mint: Seq<u8>) -> Seq<
    Seq<u8>,
> {
    seq![owner, token_pid, mint]
}

/// Build the signer seed list.
pub fn signer_seeds() -> (r: Vec<Vec<u8>>)
    ensures
        seeds_view(r@) == signer_seeds_spec(),
{
    let mut s: Vec<u8> = Vec::new();
    s.push(115);
    s.push(105);
    s.push(103);
    s.push(110);
    s.push(101);
    s.push(114);
    proof {
        assert(s@ =~= signer_seed_spec());
    }
    let mut r: Vec<Vec<u8>> = Vec::new();
    r.push(s);
    proof {
        assert(seeds_view(r@) =~= signer_seeds_spec());
    }
    r
}

/// Build the locked-record seed list for (user, signer, asset).
pub fn locked_seeds(user: &Address, signer: &Address, mint: &Address) -> (r: Vec<
    Vec<u8>,
>)
    ensures
        seeds_view(r@) == locked_seeds_spec(user@, signer@, mint@),
{
    let mut r: Vec<Vec<u8>> = Vec::new();
    r.push(user.clone_addr().bytes);
    r.push(signer.clone_addr().bytes);
    r.push(mint.clone_addr().bytes);
    let mut s: Vec<u8> = Vec::new();
    s.push(108);
    s.push(111);
    s.push(99);
    s.push(107);
    s.push(101);
    s.push(100);
    proof {
        assert(s@ =~= locked_seed_spec());
    }
    r.push(s);
    proof {
        assert(seeds_view(r@) =~= locked_seeds_spec(user@, signer@, mint@));
    }
    r
}

/// Build the canonical-holding seed list for (owner, token program, asset).
pub fn holding_seeds(owner: &Address, token_pid: &Address, mint: &Address) -> (r: Vec<
    Vec<u8>,
>)
    ensures
        seeds_view(r@) == holding_seeds_spec(owner@, token_pid@, mint@),
{
    let mut r: Vec<Vec<u8>> = Vec::new();
    r.push(owner.clone_addr().bytes);
    r.push(token_pid.clone_addr().bytes);
    r.push(mint.clone_addr().bytes);
    proof {
        assert(seeds_view(r@) =~= holding_seeds_spec(owner@, token_pid@, mint@));
    }
    r
}

/// View of the whole ledger.
#[verifier::ext_equal]
pub ghost struct LedgerV {
    pub program_id: Seq<u8>,
    pub token_program_id: Seq<u8>,
    pub associated_token_program_id: Seq<u8>,
    pub signer: Option<SignerV>,
    pub holdings: Seq<HoldingV>,
    pub locked: Seq<LockedV>,
}

/// Amount in the vault's holding for one asset, or 0 when the vault has none.
pub open spec fn vault_amount(s: LedgerV, mint: Seq<u8>) -> int {
    match s.signer {
        Some(sg) => {
            let i = vault_ix(s.holdings, sg.address, mint);
            if i >= 0 {
                s.holdings[i].amount as int
            } else {
                0
            }
        },
        None => 0,
    }
}

/// Well-formedness of the ledger: one record per address, one holding per
/// (owner, asset), one locked record per (user, asset), a write-once signer,
/// and the pool-coverage invariant: what is locked for an asset never exceeds
/// what the vault's holding for that asset carries.
pub open spec fn wf_v(s: LedgerV) -> bool {
    &&& s.program_id.len() == 32
    &&& s.token_program_id.len() == 32
    &&& s.associated_token_program_id.len() == 32
    &&& (s.signer matches Some(sg) ==> sg.is_initialized && sg.is_signer)
    &&& (s.signer is None ==> s.locked.len() == 0)
    &&& (forall|i: int, j: int|
        0 <= i < j < s.holdings.len() ==> (#[trigger] s.holdings[i]).address != (
        #[trigger] s.holdings[j]).address)
    &&& (forall|i: int, j: int|
        0 <= i < j < s.holdings.len() ==> !((#[trigger] s.holdings[i]).owner
            == (#[trigger] s.holdings[j]).owner && s.holdings[i].mint == s.holdings[j].mint))
    &&& (forall|i: int, j: int|
        0 <= i < j < s.locked.len() ==> (#[trigger] s.locked[i]).address != (
        #[trigger] s.locked[j]).address)
    &&& (forall|i: int, j: int|
        0 <= i < j < s.locked.len() ==> !((#[trigger] s.locked[i]).authority == (
        #[trigger] s.locked[j]).authority && s.locked[i].mint == s.locked[j].mint))
    &&& (forall|m: Seq<u8>| #[trigger] sum_locked(s.locked, m) <= vault_amount(s, m))
}

/// Forget the value a successful call produced, keeping only that it
/// succeeded.
pub open spec fn drop_ok<T>(r: Result<T, MyError>) -> Result<(), MyError> {
    match r {
        Ok(_) => Ok(()),
        Err(e) => Err(e),
    }
}

/// One-time creation of the vault signer record at its derived address.
pub open spec fn initialize_signer_step(s: LedgerV) -> (LedgerV, Result<(), MyError>) {
    if s.signer is Some {
        (s, Err(MyError::AlreadyInitialized))
    } else {
        match find_derived(signer_seeds_spec(), s.program_id) {
            None => (s, Err(MyError::DerivationExhausted)),
            Some(p) => (
                LedgerV {
                    signer: Some(
                        SignerV { address: p.0, is_initialized: true, is_signer: true, bump: p.1 },
                    ),
                    ..s
                },
                Ok(()),
            ),
        }
    }
}

/// Creation of the canonical zero-balance holding of `owner` for `mint` at
/// the address the associated-account registry derives for it.
pub open spec fn create_holding_step(s: LedgerV, owner: Seq<u8>, mint: Seq<u8>) -> (
    LedgerV,
    Result<Seq<u8>, MyError>,
) {
    match find_derived(
        holding_seeds_spec(owner, s.token_program_id, mint),
        s.associated_token_program_id,
    ) {
        None => (s, Err(MyError::DerivationExhausted)),
        Some(p) => {
            if holding_ix(s.holdings, p.0) >= 0 || vault_ix(s.holdings, owner, mint) >= 0 {
                (s, Err(MyError::AlreadyExists))
            } else {
                (
                    LedgerV {
                        holdings: s.holdings.push(
                            HoldingV { address: p.0, owner: owner, mint: mint, amount: 0 },
                        ),
                        ..s
                    },
                    Ok(p.0),
                )
            }
        },
    }
}

/// Creation of the vault's own holding for `mint`: its owner must be the
/// vault signer, so the signer must exist.
pub open spec fn initialize_holding_step(s: LedgerV, mint: Seq<u8>) -> (
    LedgerV,
    Result<Seq<u8>, MyError>,
) {
    match s.signer {
        None => (s, Err(MyError::InvalidOwner)),
        Some(sg) => create_holding_step(s, sg.address, mint),
    }
}

/// Creation of a user's zeroed locked-balance record at its derived address.
pub open spec fn initialize_locked_step(
    s: LedgerV,
    user: Seq<u8>,
    user_h: Seq<u8>,
    vault_h: Seq<u8>,
    mint: Seq<u8>,
) -> (LedgerV, Result<Seq<u8>, MyError>) {
    match s.signer {
        None => (s, Err(MyError::AccountMissing)),
        Some(sg) => {
            let iu = holding_ix(s.holdings, user_h);
            let iv = holding_ix(s.holdings, vault_h);
            if iu < 0 || iv < 0 {
                (s, Err(MyError::AccountMissing))
            } else if s.holdings[iu].mint != mint || s.holdings[iv].mint != mint {
                (s, Err(MyError::MintMismatch))
            } else {
                match find_derived(locked_seeds_spec(user, sg.address, mint), s.program_id) {
                    None => (s, Err(MyError::DerivationExhausted)),
                    Some(p) => {
                        if locked_addr_ix(s.locked, p.0) >= 0 || locked_key_ix(s.locked, user, mint)
                            >= 0 {
                            (s, Err(MyError::AlreadyExists))
                        } else {
                            (
                                LedgerV {
                                    locked: s.locked.push(
                                        LockedV {
                                            address: p.0,
                                            authority: user,
                                            mint: mint,
                                            amount: 0,
                                        },
                                    ),
                                    ..s
                                },
                                Ok(p.0),
                            )
                        }
                    },
                }
            }
        },
    }
}

/// Crediting a holding from outside the staking machine.
pub open spec fn airdrop_step(s: LedgerV, addr: Seq<u8>, amount: u64) -> (
    LedgerV,
    Result<(), MyError>,
) {
    let i = holding_ix(s.holdings, addr);
    if i < 0 {
        (s, Err(MyError::AccountMissing))
    } else if s.holdings[i].amount + amount > u64::MAX {
        (s, Err(MyError::BalanceOverflow))
    } else {
        (
            LedgerV {
                holdings: s.holdings.update(
                    i,
                    HoldingV { amount: (s.holdings[i].amount + amount) as u64, ..s.holdings[i] },
                ),
                ..s
            },
            Ok(()),
        )
    }
}

/// Transfer user-to-vault and raise the locked record, after the account
/// checks of `stake_step` have passed. `k` is the index of the user's locked
/// record, or negative when a record is to be created at `new_addr`.
pub open spec fn stake_transfer(
    s: LedgerV,
    sg_addr: Seq<u8>,
    user: Seq<u8>,
    iu: int,
    iv: int,
    mint: Seq<u8>,
    amount: u64,
    k: int,
    new_addr: Seq<u8>,
) -> (LedgerV, Result<(), MyError>) {
    let uh = s.holdings[iu];
    let vh = s.holdings[iv];
    if uh.owner != user || user == sg_addr {
        (s, Err(MyError::Unauthorized))
    } else if amount > uh.amount {
        (s, Err(MyError::InsufficientFunds))
    } else if vh.amount + amount > u64::MAX {
        (s, Err(MyError::BalanceOverflow))
    } else {
        let hs = s.holdings.update(
            iu,
            HoldingV { amount: (uh.amount - amount) as u64, ..uh },
        ).update(iv, HoldingV { amount: (vh.amount + amount) as u64, ..vh });
        let ls = if k >= 0 {
            s.locked.update(
                k,
                LockedV { amount: (s.locked[k].amount + amount) as u64, ..s.locked[k] },
            )
        } else {
            s.locked.push(LockedV { address: new_addr, authority: user, mint: mint, amount })
        };
        (LedgerV { holdings: hs, locked: ls, ..s }, Ok(()))
    }
}

/// Stake `amount` of `mint`: move it from the user's holding into the
/// vault's, and raise the user's locked record by the same amount, creating
/// the record at its derived address on first use.
pub open spec fn stake_step(
    s: LedgerV,
    user: Seq<u8>,
    user_h: Seq<u8>,
    vault_h: Seq<u8>,
    mint: Seq<u8>,
    amount: u64,
) -> (LedgerV, Result<(), MyError>) {
    match s.signer {
        None => (s, Err(MyError::AccountMissing)),
        Some(sg) => {
            let iu = holding_ix(s.holdings, user_h);
            let iv = holding_ix(s.holdings, vault_h);
            if iu < 0 || iv < 0 {
                (s, Err(MyError::AccountMissing))
            } else if s.holdings[iu].mint != mint || s.holdings[iv].mint != mint {
                (s, Err(MyError::MintMismatch))
            } else if s.holdings[iv].owner != sg.address {
                (s, Err(MyError::InvalidOwner))
            } else {
                let k = locked_key_ix(s.locked, user, mint);
                if k >= 0 {
                    stake_transfer(s, sg.address, user, iu, iv, mint, amount, k, s.locked[k].address)
                } else {
                    match find_derived(locked_seeds_spec(user, sg.address, mint), s.program_id) {
                        None => (s, Err(MyError::DerivationExhausted)),
                        Some(p) => {
                            if locked_addr_ix(s.locked, p.0) >= 0 {
                                (s, Err(MyError::AlreadyExists))
                            } else {
                                stake_transfer(s, sg.address, user, iu, iv, mint, amount, k, p.0)
                            }
                        },
                    }
                }
            }
        },
    }
}

/// Unstake `amount` of `mint`: the vault signer authorizes the move back to
/// the user's holding through a delegated proof, and the locked record drops
/// by the same amount. The presented locked record must be the caller's own.
pub open spec fn unstake_step(
    s: LedgerV,
    user: Seq<u8>,
    user_h: Seq<u8>,
    vault_h: Seq<u8>,
    locked_addr: Seq<u8>,
    mint: Seq<u8>,
    amount: u64,
) -> (LedgerV, Result<(), MyError>) {
    match s.signer {
        None => (s, Err(MyError::AccountMissing)),
        Some(sg) => {
            let iu = holding_ix(s.holdings, user_h);
            let iv = holding_ix(s.holdings, vault_h);
            if iu < 0 || iv < 0 {
                (s, Err(MyError::AccountMissing))
            } else if s.holdings[iu].mint != mint || s.holdings[iv].mint != mint {
                (s, Err(MyError::MintMismatch))
            } else {
                let k = locked_addr_ix(s.locked, locked_addr);
                if k < 0 {
                    (s, Err(MyError::AccountMissing))
                } else if s.locked[k].mint != mint {
                    (s, Err(MyError::MintMismatch))
                } else if s.locked[k].authority != user {
                    (s, Err(MyError::UnauthorizedUnstake))
                } else if amount > s.locked[k].amount {
                    (s, Err(MyError::AmountTooLarge))
                } else if !proof_valid(signer_seeds_spec(), sg.bump, sg.address, s.program_id) {
                    (s, Err(MyError::InvalidProof))
                } else if s.holdings[iv].owner != sg.address {
                    (s, Err(MyError::Unauthorized))
                } else if amount > s.holdings[iv].amount {
                    (s, Err(MyError::InsufficientFunds))
                } else if user_h != vault_h && s.holdings[iu].amount + amount > u64::MAX {
                    (s, Err(MyError::BalanceOverflow))
                } else {
                    let ls = s.locked.update(
                        k,
                        LockedV { amount: (s.locked[k].amount - amount) as u64, ..s.locked[k] },
                    );
                    let hs = if user_h == vault_h {
                        s.holdings
                    } else {
                        s.holdings.update(
                            iv,
                            HoldingV {
                                amount: (s.holdings[iv].amount - amount) as u64,
                                ..s.holdings[iv]
                            },
                        ).update(
                            iu,
                            HoldingV {
                                amount: (s.holdings[iu].amount + amount) as u64,
                                ..s.holdings[iu]
                            },
                        )
                    };
                    (LedgerV { holdings: hs, locked: ls, ..s }, Ok(()))
                }
            }
        },
    }
}

/// The stake step keeps the ledger well formed.
pub proof fn lemma_stake_step_wf(
    s: LedgerV,
    user: Seq<u8>,
    user_h: Seq<u8>,
    vault_h: Seq<u8>,
    mint: Seq<u8>,
    amount: u64,
)
    requires
        wf_v(s),
    ensures
        wf_v(stake_step(s, user, user_h, vault_h, mint, amount).0),
{
    let s2 = stake_step(s, user, user_h, vault_h, mint, amount).0;
    if s2 != s {
        let sg = s.signer->Some_0;
        let iu = holding_ix(s.holdings, user_h);
        let iv = holding_ix(s.holdings, vault_h);
        lemma_holding_ix_props(s.holdings, user_h);
        lemma_holding_ix_props(s.holdings, vault_h);
        let k = locked_key_ix(s.locked, user, mint);
        lemma_locked_key_ix_props(s.locked, user, mint);
        let uh = s.holdings[iu];
        let vh = s.holdings[iv];
        assert(uh.owner == user && user != sg.address && vh.owner == sg.address);
        assert(iu != iv);
        let hs = s2.holdings;
        assert(hs == s.holdings.update(
            iu,
            HoldingV { amount: (uh.amount - amount) as u64, ..uh },
        ).update(iv, HoldingV { amount: (vh.amount + amount) as u64, ..vh }));
        assert(hs.len() == s.holdings.len());
        assert forall|x: int| 0 <= x < hs.len() implies (#[trigger] hs[x]).address
            == s.holdings[x].address && hs[x].owner == s.holdings[x].owner && hs[x].mint
            == s.holdings[x].mint by {}
        assert forall|a: int, b: int| 0 <= a < b < hs.len() implies (#[trigger] hs[a]).address != (
        #[trigger] hs[b]).address by {
            assert(s.holdings[a].address != s.holdings[b].address);
        }
        assert forall|a: int, b: int| 0 <= a < b < hs.len() implies !((#[trigger] hs[a]).owner == (
        #[trigger] hs[b]).owner && hs[a].mint == hs[b].mint) by {
            assert(!(s.holdings[a].owner == s.holdings[b].owner && s.holdings[a].mint
                == s.holdings[b].mint));
        }
        let ls = s2.locked;
        if k >= 0 {
            assert forall|a: int, b: int| 0 <= a < b < ls.len() implies (#[trigger] ls[a]).address
                != (#[trigger] ls[b]).address by {
                assert(ls[a].address == s.locked[a].address && ls[b].address
                    == s.locked[b].address);
            }
            assert forall|a: int, b: int| 0 <= a < b < ls.len() implies !((
            #[trigger] ls[a]).authority == (#[trigger] ls[b]).authority && ls[a].mint
                == ls[b].mint) by {
                assert(ls[a].authority == s.locked[a].authority && ls[a].mint == s.locked[a].mint);
                assert(ls[b].authority == s.locked[b].authority && ls[b].mint == s.locked[b].mint);
            }
        } else {
            let p = find_derived(locked_seeds_spec(user, sg.address, mint), s.program_id)->Some_0;
            lemma_locked_addr_ix_props(s.locked, p.0);
            let n = s.locked.len() as int;
            let l = LockedV { address: p.0, authority: user, mint: mint, amount };
            assert(ls == s.locked.push(l));
            assert forall|a: int, b: int| 0 <= a < b < ls.len() implies (#[trigger] ls[a]).address
                != (#[trigger] ls[b]).address by {
                if b < n {
                    assert(ls[a] == s.locked[a] && ls[b] == s.locked[b]);
                } else {
                    assert(ls[b] == l && ls[a] == s.locked[a]);
                }
            }
            assert forall|a: int, b: int| 0 <= a < b < ls.len() implies !((
            #[trigger] ls[a]).authority == (#[trigger] ls[b]).authority && ls[a].mint
                == ls[b].mint) by {
                if b < n {
                    assert(ls[a] == s.locked[a] && ls[b] == s.locked[b]);
                } else {
                    assert(ls[b] == l && ls[a] == s.locked[a]);
                }
            }
        }
        assert forall|m: Seq<u8>| #[trigger] sum_locked(s2.locked, m) <= vault_amount(s2, m) by {
            lemma_vault_ix_same_keys(hs, s.holdings, sg.address, m);
            let vix = vault_ix(s.holdings, sg.address, m);
            lemma_vault_ix_props(s.holdings, sg.address, m);
            if k >= 0 {
                lemma_sum_locked_update(
                    s.locked,
                    k,
                    LockedV { amount: (s.locked[k].amount + amount) as u64, ..s.locked[k] },
                    m,
                );
            } else {
                let p = find_derived(
                    locked_seeds_spec(user, sg.address, mint),
                    s.program_id,
                )->Some_0;
                lemma_sum_locked_push(
                    s.locked,
                    LockedV { address: p.0, authority: user, mint: mint, amount },
                    m,
                );
            }
            if m == mint {
                assert(vix >= 0) by {
                    assert(vh.owner == sg.address && vh.mint == m);
                }
                assert(vix == iv);
                assert(s2.holdings[iv].amount == vh.amount + amount);
                if k >= 0 {
                    assert(s.locked[k].amount + amount <= u64::MAX) by {
                        lemma_sum_locked_ge_elem(s.locked, k, mint);
                    }
                    assert(sum_locked(s2.locked, m) == sum_locked(s.locked, m) + amount);
                } else {
                    assert(sum_locked(s2.locked, m) == sum_locked(s.locked, m) + amount);
                }
            } else {
                assert(sum_locked(s2.locked, m) == sum_locked(s.locked, m));
                if vix >= 0 {
                    assert(vix != iu && vix != iv) by {
                        assert(s.holdings[vix].mint == m && uh.mint == mint && vh.mint == mint);
                    }
                    assert(s2.holdings[vix] == s.holdings[vix]);
                }
            }
        }
    }
}

/// The unstake step keeps the ledger well formed.
pub proof fn lemma_unstake_step_wf(
    s: LedgerV,
    user: Seq<u8>,
    user_h: Seq<u8>,
    vault_h: Seq<u8>,
    locked_addr: Seq<u8>,
    mint: Seq<u8>,
    amount: u64,
)
    requires
        wf_v(s),
    ensures
        wf_v(unstake_step(s, user, user_h, vault_h, locked_addr, mint, amount).0),
{
    let s2 = unstake_step(s, user, user_h, vault_h, locked_addr, mint, amount).0;
    if s2 != s {
        let sg = s.signer->Some_0;
        let iu = holding_ix(s.holdings, user_h);
        let iv = holding_ix(s.holdings, vault_h);
        lemma_holding_ix_props(s.holdings, user_h);
        lemma_holding_ix_props(s.holdings, vault_h);
        let k = locked_addr_ix(s.locked, locked_addr);
        lemma_locked_addr_ix_props(s.locked, locked_addr);
        let uh = s.holdings[iu];
        let vh = s.holdings[iv];
        assert(vh.owner == sg.address && vh.mint == mint);
        let hs = s2.holdings;
        let ls = s2.locked;
        assert(ls == s.locked.update(
            k,
            LockedV { amount: (s.locked[k].amount - amount) as u64, ..s.locked[k] },
        ));
        assert(hs.len() == s.holdings.len());
        assert forall|x: int| 0 <= x < hs.len() implies (#[trigger] hs[x]).address
            == s.holdings[x].address && hs[x].owner == s.holdings[x].owner && hs[x].mint
            == s.holdings[x].mint by {
            if user_h != vault_h {
                assert(iu != iv);
            }
        }
        assert forall|a: int, b: int| 0 <= a < b < hs.len() implies (#[trigger] hs[a]).address != (
        #[trigger] hs[b]).address by {
            assert(s.holdings[a].address != s.holdings[b].address);
        }
        assert forall|a: int, b: int| 0 <= a < b < hs.len() implies !((#[trigger] hs[a]).owner == (
        #[trigger] hs[b]).owner && hs[a].mint == hs[b].mint) by {
            assert(!(s.holdings[a].owner == s.holdings[b].owner && s.holdings[a].mint
                == s.holdings[b].mint));
        }
        assert forall|a: int, b: int| 0 <= a < b < ls.len() implies (#[trigger] ls[a]).address != (
        #[trigger] ls[b]).address by {
            assert(ls[a].address == s.locked[a].address && ls[b].address == s.locked[b].address);
        }
        assert forall|a: int, b: int| 0 <= a < b < ls.len() implies !((#[trigger] ls[a]).authority
            == (#[trigger] ls[b]).authority && ls[a].mint == ls[b].mint) by {
            assert(ls[a].authority == s.locked[a].authority && ls[a].mint == s.locked[a].mint);
            assert(ls[b].authority == s.locked[b].authority && ls[b].mint == s.locked[b].mint);
        }
        assert forall|m: Seq<u8>| #[trigger] sum_locked(s2.locked, m) <= vault_amount(s2, m) by {
            lemma_vault_ix_same_keys(hs, s.holdings, sg.address, m);
            let vix = vault_ix(s.holdings, sg.address, m);
            lemma_vault_ix_props(s.holdings, sg.address, m);
            lemma_sum_locked_update(
                s.locked,
                k,
                LockedV { amount: (s.locked[k].amount - amount) as u64, ..s.locked[k] },
                m,
            );
            if m == mint {
                assert(vix >= 0) by {
                    assert(vh.owner == sg.address && vh.mint == m);
                }
                assert(vix == iv);
                assert(sum_locked(s2.locked, m) == sum_locked(s.locked, m) - amount);
                if user_h == vault_h {
                    assert(s2.holdings[iv] == s.holdings[iv]);
                } else {
                    assert(iu != iv);
                    assert(s2.holdings[iv].amount == vh.amount - amount);
                }
            } else {
                assert(sum_locked(s2.locked, m) == sum_locked(s.locked, m));
                if vix >= 0 {
                    if user_h != vault_h {
                        assert(vix != iu && vix != iv) by {
                            assert(s.holdings[vix].mint == m && uh.mint == mint && vh.mint == mint);
                        }
                        assert(s2.holdings[vix] == s.holdings[vix]);
                    } else {
                        assert(s2.holdings[vix] == s.holdings[vix]);
                    }
                }
            }
        }
    }
}

/// The signer step keeps the ledger well formed.
pub proof fn lemma_initialize_signer_step_wf(s: LedgerV)
    requires
        wf_v(s),
    ensures
        wf_v(initialize_signer_step(s).0),
{
    if s.signer is None {
        match find_derived(signer_seeds_spec(), s.program_id) {
            None => {},
            Some(p) => {
                let s2 = initialize_signer_step(s).0;
                assert(s2.locked.len() == 0);
                assert forall|m: Seq<u8>| #[trigger] sum_locked(s2.locked, m) <= vault_amount(
                    s2,
                    m,
                ) by {
                    assert(sum_locked(s2.locked, m) == 0);
                    lemma_vault_ix_props(s2.holdings, p.0, m);
                }
            },
        }
    }
}

/// The holding-creation step keeps the ledger well formed.
pub proof fn lemma_create_holding_step_wf(s: LedgerV, owner: Seq<u8>, mint: Seq<u8>)
    requires
        wf_v(s),
    ensures
        wf_v(create_holding_step(s, owner, mint).0),
{
    match find_derived(
        holding_seeds_spec(owner, s.token_program_id, mint),
        s.associated_token_program_id,
    ) {
        None => {},
        Some(p) => {
            if holding_ix(s.holdings, p.0) < 0 && vault_ix(s.holdings, owner, mint) < 0 {
                let h = HoldingV { address: p.0, owner: owner, mint: mint, amount: 0 };
                let s2 = create_holding_step(s, owner, mint).0;
                lemma_holding_ix_props(s.holdings, p.0);
                lemma_vault_ix_props(s.holdings, owner, mint);
                let n = s.holdings.len() as int;
                assert(s2.holdings == s.holdings.push(h));
                assert forall|i: int, j: int| 0 <= i < j < s2.holdings.len() implies (
                #[trigger] s2.holdings[i]).address != (#[trigger] s2.holdings[j]).address by {
                    if j < n {
                        assert(s2.holdings[i] == s.holdings[i] && s2.holdings[j] == s.holdings[j]);
                    } else {
                        assert(s2.holdings[j] == h && s2.holdings[i] == s.holdings[i]);
                    }
                }
                assert forall|i: int, j: int| 0 <= i < j < s2.holdings.len() implies !((
                #[trigger] s2.holdings[i]).owner == (#[trigger] s2.holdings[j]).owner
                    && s2.holdings[i].mint == s2.holdings[j].mint) by {
                    if j < n {
                        assert(s2.holdings[i] == s.holdings[i] && s2.holdings[j] == s.holdings[j]);
                    } else {
                        assert(s2.holdings[j] == h && s2.holdings[i] == s.holdings[i]);
                    }
                }
                assert forall|m: Seq<u8>| #[trigger] sum_locked(s2.locked, m) <= vault_amount(
                    s2,
                    m,
                ) by {
                    lemma_sum_locked_nonneg(s.locked, m);
                    match s.signer {
                        None => {},
                        Some(sg) => {
                            lemma_vault_ix_push(s.holdings, h, sg.address, m);
                            lemma_vault_ix_props(s.holdings, sg.address, m);
                            let oldix = vault_ix(s.holdings, sg.address, m);
                            if oldix >= 0 {
                                assert(s2.holdings[oldix] == s.holdings[oldix]);
                            } else if h.owner == sg.address && h.mint == m {
                                assert(vault_amount(s, m) == 0);
                                assert(sum_locked(s.locked, m) == 0);
                                assert(s2.holdings[n] == h);
                            }
                        },
                    }
                }
            }
        },
    }
}

/// The locked-record creation step keeps the ledger well formed.
pub proof fn lemma_initialize_locked_step_wf(
    s: LedgerV,
    user: Seq<u8>,
    user_h: Seq<u8>,
    vault_h: Seq<u8>,
    mint: Seq<u8>,
)
    requires
        wf_v(s),
    ensures
        wf_v(initialize_locked_step(s, user, user_h, vault_h, mint).0),
{
    let s2 = initialize_locked_step(s, user, user_h, vault_h, mint).0;
    if s2 != s {
        match s.signer {
            None => {},
            Some(sg) => {
                match find_derived(locked_seeds_spec(user, sg.address, mint), s.program_id) {
                    None => {},
                    Some(p) => {
                        let l = LockedV { address: p.0, authority: user, mint: mint, amount: 0 };
                        let n = s.locked.len() as int;
                        if locked_addr_ix(s.locked, p.0) < 0 && locked_key_ix(s.locked, user, mint)
                            < 0 {
                            lemma_locked_addr_ix_props(s.locked, p.0);
                            lemma_locked_key_ix_props(s.locked, user, mint);
                            assert(s2.locked == s.locked.push(l));
                            assert forall|i: int, j: int| 0 <= i < j < s2.locked.len() implies (
                            #[trigger] s2.locked[i]).address != (
                            #[trigger] s2.locked[j]).address by {
                                if j < n {
                                    assert(s2.locked[i] == s.locked[i] && s2.locked[j]
                                        == s.locked[j]);
                                } else {
                                    assert(s2.locked[j] == l && s2.locked[i] == s.locked[i]);
                                }
                            }
                            assert forall|i: int, j: int| 0 <= i < j < s2.locked.len() implies !((
                            #[trigger] s2.locked[i]).authority == (
                            #[trigger] s2.locked[j]).authority && s2.locked[i].mint
                                == s2.locked[j].mint) by {
                                if j < n {
                                    assert(s2.locked[i] == s.locked[i] && s2.locked[j]
                                        == s.locked[j]);
                                } else {
                                    assert(s2.locked[j] == l && s2.locked[i] == s.locked[i]);
                                }
                            }
                            assert forall|m: Seq<u8>| #[trigger] sum_locked(s2.locked, m)
                                <= vault_amount(s2, m) by {
                                lemma_sum_locked_push(s.locked, l, m);
                                lemma_vault_ix_same_keys(s2.holdings, s.holdings, sg.address, m);
                                assert(sum_locked(s2.locked, m) == sum_locked(s.locked, m));
                                assert(vault_amount(s2, m) == vault_amount(s, m));
                            }
                        }
                    },
                }
            },
        }
    }
}

/// The airdrop step keeps the ledger well formed.
pub proof fn lemma_airdrop_step_wf(s: LedgerV, addr: Seq<u8>, amount: u64)
    requires
        wf_v(s),
    ensures
        wf_v(airdrop_step(s, addr, amount).0),
{
    let i = holding_ix(s.holdings, addr);
    if i >= 0 && s.holdings[i].amount + amount <= u64::MAX {
        lemma_holding_ix_props(s.holdings, addr);
        let h2 = HoldingV { amount: (s.holdings[i].amount + amount) as u64, ..s.holdings[i] };
        let s2 = airdrop_step(s, addr, amount).0;
        assert(s2.holdings == s.holdings.update(i, h2));
        assert forall|a: int, b: int| 0 <= a < b < s2.holdings.len() implies (
        #[trigger] s2.holdings[a]).address != (#[trigger] s2.holdings[b]).address by {
            assert(s2.holdings[a].address == s.holdings[a].address);
            assert(s2.holdings[b].address == s.holdings[b].address);
        }
        assert forall|a: int, b: int| 0 <= a < b < s2.holdings.len() implies !((
        #[trigger] s2.holdings[a]).owner == (#[trigger] s2.holdings[b]).owner && s2.holdings[a].mint
            == s2.holdings[b].mint) by {
            assert(s2.holdings[a].owner == s.holdings[a].owner && s2.holdings[a].mint
                == s.holdings[a].mint);
            assert(s2.holdings[b].owner == s.holdings[b].owner && s2.holdings[b].mint
                == s.holdings[b].mint);
        }
        assert forall|m: Seq<u8>| #[trigger] sum_locked(s2.locked, m) <= vault_amount(s2, m) by {
            match s.signer {
                None => {},
                Some(sg) => {
                    assert forall|x: int| 0 <= x < s2.holdings.len() implies (
                    #[trigger] s2.holdings[x]).owner == s.holdings[x].owner && s2.holdings[x].mint
                        == s.holdings[x].mint by {}
                    lemma_vault_ix_same_keys(s2.holdings, s.holdings, sg.address, m);
                    let vix = vault_ix(s.holdings, sg.address, m);
                    if vix >= 0 {
                        lemma_vault_ix_props(s.holdings, sg.address, m);
                        if vix == i {
                            assert(s2.holdings[vix].amount == h2.amount);
                        } else {
                            assert(s2.holdings[vix] == s.holdings[vix]);
                        }
                    }
                },
            }
        }
    }
}

/// The staking ledger and the records it custodies.
pub struct Ledger {
    program_id: Address,
    token_program_id: Address,
    associated_token_program_id: Address,
    signer: Option<SignerEntry>,
    holdings: Vec<HoldingEntry>,
    locked: Vec<LockedEntry>,
}

impl View for Ledger {
    type V = LedgerV;

    closed spec fn view(&self) -> LedgerV {
        LedgerV {
            program_id: self.program_id@,
            token_program_id: self.token_program_id@,
            associated_token_program_id: self.associated_token_program_id@,
            signer: match self.signer {
                Option::Some(e) => Some(e@),
                Option::None => None,
            },
            holdings: self.holdings@.map_values(|h: HoldingEntry| h@),
            locked: self.locked@.map_values(|l: LockedEntry| l@),
        }
    }
}

impl Ledger {
    pub open spec fn wf(&self) -> bool {
        wf_v(self@)
    }

    /// A fresh deployment: no signer, no holdings, no locked records.
    pub fn new(
        program_id: Address,
        token_program_id: Address,
        associated_token_program_id: Address,
    ) -> (r: Ledger)
        requires
            program_id.wf(),
            token_program_id.wf(),
            associated_token_program_id.wf(),
        ensures
            r.wf(),
            r@.program_id == program_id@,
            r@.token_program_id == token_program_id@,
            r@.associated_token_program_id == associated_token_program_id@,
            r@.signer is None,
            r@.holdings.len() == 0,
            r@.locked.len() == 0,
    {
        let r = Ledger {
            program_id,
            token_program_id,
            associated_token_program_id,
            signer: None,
            holdings: Vec::new(),
            locked: Vec::new(),
        };
        proof {
            assert forall|m: Seq<u8>| #[trigger] sum_locked(r@.locked, m) <= vault_amount(
                r@,
                m,
            ) by {
                assert(sum_locked(r@.locked, m) == 0);
            }
        }
        r
    }

    /// Index of the holding stored at `addr`, by linear scan.
    fn find_holding(&self, addr: &Address) -> (r: Option<usize>)
        ensures
            (r matches Some(i) ==> holding_ix(self@.holdings, addr@) == i as int && (i as int)
                < self@.holdings.len()),
            r is None ==> holding_ix(self@.holdings, addr@) < 0,
    {
        let mut i: usize = 0;
        while i < self.holdings.len()
            invariant
                i <= self.holdings@.len(),
                forall|j: int| 0 <= j < i ==> (#[trigger] self@.holdings[j]).address != addr@,
            decreases self.holdings@.len() - i,
        {
            if self.holdings[i].address.eq_addr(addr) {
                proof {
                    assert(self@.holdings[i as int].address == addr@);
                    lemma_holding_ix_props(self@.holdings, addr@);
                }
                return Some(i);
            }
            proof {
                assert(self@.holdings[i as int].address != addr@);
            }
            i += 1;
        }
        proof {
            lemma_holding_ix_props(self@.holdings, addr@);
        }
        None
    }

    /// Index of the holding of (owner, asset), by linear scan.
    fn find_holding_by_key(&self, owner: &Address, mint: &Address) -> (r: Option<usize>)
        ensures
            (r matches Some(i) ==> vault_ix(self@.holdings, owner@, mint@) == i as int && (i as int)
                < self@.holdings.len()),
            r is None ==> vault_ix(self@.holdings, owner@, mint@) < 0,
    {
        let mut i: usize = 0;
        while i < self.holdings.len()
            invariant
                i <= self.holdings@.len(),
                forall|j: int|
                    0 <= j < i ==> !((#[trigger] self@.holdings[j]).owner == owner@
                        && self@.holdings[j].mint == mint@),
            decreases self.holdings@.len() - i,
        {
            if self.holdings[i].account.owner.eq_addr(owner) && self.holdings[i].account.mint.eq_addr(
                mint,
            ) {
                proof {
                    assert(self@.holdings[i as int].owner == owner@ && self@.holdings[i as int].mint
                        == mint@);
                    lemma_vault_ix_props(self@.holdings, owner@, mint@);
                }
                return Some(i);
            }
            proof {
                assert(!(self@.holdings[i as int].owner == owner@ && self@.holdings[i as int].mint
                    == mint@));
            }
            i += 1;
        }
        proof {
            lemma_vault_ix_props(self@.holdings, owner@, mint@);
        }
        None
    }

    /// Index of the locked record stored at `addr`, by linear scan.
    fn find_locked(&self, addr: &Address) -> (r: Option<usize>)
        ensures
            (r matches Some(i) ==> locked_addr_ix(self@.locked, addr@) == i as int && (i as int)
                < self@.locked.len()),
            r is None ==> locked_addr_ix(self@.locked, addr@) < 0,
    {
        let mut i: usize = 0;
        while i < self.locked.len()
            invariant
                i <= self.locked@.len(),
                forall|j: int| 0 <= j < i ==> (#[trigger] self@.locked[j]).address != addr@,
            decreases self.locked@.len() - i,
        {
            if self.locked[i].address.eq_addr(addr) {
                proof {
                    assert(self@.locked[i as int].address == addr@);
                    lemma_locked_addr_ix_props(self@.locked, addr@);
                }
                return Some(i);
            }
            proof {
                assert(self@.locked[i as int].address != addr@);
            }
            i += 1;
        }
        proof {
            lemma_locked_addr_ix_props(self@.locked, addr@);
        }
        None
    }

    /// Index of the locked record of (user, asset), by linear scan.
    fn find_locked_by_key(&self, user: &Address, mint: &Address) -> (r: Option<usize>)
        ensures
            (r matches Some(i) ==> locked_key_ix(self@.locked, user@, mint@) == i as int && (
            i as int) < self@.locked.len()),
            r is None ==> locked_key_ix(self@.locked, user@, mint@) < 0,
    {
        let mut i: usize = 0;
        while i < self.locked.len()
            invariant
                i <= self.locked@.len(),
                forall|j: int|
                    0 <= j < i ==> !((#[trigger] self@.locked[j]).authority == user@
                        && self@.locked[j].mint == mint@),
            decreases self.locked@.len() - i,
        {
            if self.locked[i].account.authority.eq_addr(user) && self.locked[i].account.token_mint.eq_addr(
                mint,
            ) {
                proof {
                    assert(self@.locked[i as int].authority == user@ && self@.locked[i as int].mint
                        == mint@);
                    lemma_locked_key_ix_props(self@.locked, user@, mint@);
                }
                return Some(i);
            }
            proof {
                assert(!(self@.locked[i as int].authority == user@ && self@.locked[i as int].mint
                    == mint@));
            }
            i += 1;
        }
        proof {
            lemma_locked_key_ix_props(self@.locked, user@, mint@);
        }
        None
    }

    /// Create the vault signer registry record at the address derived from
    /// the "signer" seed. One-time: a second call fails and changes nothing,
    /// so the stored nonce can never be altered.
    pub fn initialize_program_signer(&mut self, ctx: &InitializeProgramSigner) -> (r: Result<
        (),
        MyError,
    >)
        requires
            old(self).wf(),
        ensures
            final(self).wf(),
            final(self)@ == initialize_signer_step(old(self)@).0,
            r == initialize_signer_step(old(self)@).1,
            (old(self)@.signer is None ==> (find_derived(
                signer_seeds_spec(),
                old(self)@.program_id,
            ) matches Some(p) ==> proof_valid(
                signer_seeds_spec(),
                p.1,
                p.0,
                old(self)@.program_id,
            ))),
    {
        let _ = &ctx.payer;
        if self.signer.is_some() {
            return Err(MyError::AlreadyInitialized);
        }
        let seeds = signer_seeds();
        match derive_address(&seeds, &self.program_id) {
            Err(_) => Err(MyError::DerivationExhausted),
            Ok((a, bump)) => {
                proof {
                    lemma_initialize_signer_step_wf(old(self)@);
                }
                self.signer = Some(
                    SignerEntry {
                        address: a,
                        account: SignerAccount { is_initialized: true, is_signer: true, bump },
                    },
                );
                proof {
                    assert(self@ =~= initialize_signer_step(old(self)@).0);
                }
                Ok(())
            },
        }
    }

    /// Create the canonical zero-balance holding of `owner` for `mint`
    /// through the associated-account registry. Fails when the canonical
    /// address is already in use.
    pub fn create_holding(&mut self, payer: &Address, owner: &Address, mint: &Address) -> (r:
        Result<Address, MyError>)
        requires
            old(self).wf(),
        ensures
            final(self).wf(),
            final(self)@ == create_holding_step(old(self)@, owner@, mint@).0,
            (r matches Ok(a) ==> create_holding_step(old(self)@, owner@, mint@).1 == Ok::<
                Seq<u8>,
                MyError,
            >(a@)),
            (r matches Err(e) ==> create_holding_step(old(self)@, owner@, mint@).1 == Err::<
                Seq<u8>,
                MyError,
            >(e)),
    {
        let _ = &payer;
        let seeds = holding_seeds(owner, &self.token_program_id, mint);
        match derive_address(&seeds, &self.associated_token_program_id) {
            Err(_) => Err(MyError::DerivationExhausted),
            Ok((a, _bump)) => {
                if self.find_holding(&a).is_some() {
                    return Err(MyError::AlreadyExists);
                }
                if self.find_holding_by_key(owner, mint).is_some() {
                    return Err(MyError::AlreadyExists);
                }
                proof {
                    lemma_create_holding_step_wf(old(self)@, owner@, mint@);
                }
                let ghost av = a@;
                let entry = HoldingEntry {
                    address: a.clone_addr(),
                    account: TokenHolding {
                        owner: owner.clone_addr(),
                        mint: mint.clone_addr(),
                        amount: 0,
                    },
                };
                self.holdings.push(entry);
                proof {
                    assert(self@.holdings =~= old(self)@.holdings.push(
                        HoldingV { address: av, owner: owner@, mint: mint@, amount: 0 },
                    ));
                    assert(self@ =~= create_holding_step(old(self)@, owner@, mint@).0);
                }
                Ok(a)
            },
        }
    }

    /// Create the vault's pool holding for `mint`, owned by the vault signer.
    pub fn initialize_program_associate_token_account(
        &mut self,
        ctx: &InitializeProgramAssociatedTokenAccount,
    ) -> (r: Result<(), MyError>)
        requires
            old(self).wf(),
        ensures
            final(self).wf(),
            final(self)@ == initialize_holding_step(old(self)@, ctx.token_mint@).0,
            r == drop_ok(initialize_holding_step(old(self)@, ctx.token_mint@).1),
    {
        let signer_addr = match &self.signer {
            None => {
                return Err(MyError::InvalidOwner);
            },
            Some(e) => {
                if !e.account.is_initialized {
                    return Err(MyError::InvalidOwner);
                }
                e.address.clone_addr()
            },
        };
        proof {
            assert(old(self)@.signer matches Some(sg) && sg.address == signer_addr@);
        }
        match self.create_holding(&ctx.payer.clone_addr(), &signer_addr, &ctx.token_mint) {
            Ok(_) => Ok(()),
            Err(e) => Err(e),
        }
    }

    /// Create a user's zeroed locked-balance record for one asset, at the
    /// address derived from (user, signer, asset, "locked").
    pub fn initialize_locked_token_account(&mut self, ctx: &InitializeLockedTokenAccount) -> (r:
        Result<(), MyError>)
        requires
            old(self).wf(),
        ensures
            final(self).wf(),
            final(self)@ == initialize_locked_step(
                old(self)@,
                ctx.user@,
                ctx.user_associated_token@,
                ctx.program_associated_token@,
                ctx.token_mint@,
            ).0,
            r == drop_ok(
                initialize_locked_step(
                    old(self)@,
                    ctx.user@,
                    ctx.user_associated_token@,
                    ctx.program_associated_token@,
                    ctx.token_mint@,
                ).1,
            ),
    {
        let signer_addr = match &self.signer {
            None => {
                return Err(MyError::AccountMissing);
            },
            Some(e) => e.address.clone_addr(),
        };
        let iu = match self.find_holding(&ctx.user_associated_token) {
            None => {
                return Err(MyError::AccountMissing);
            },
            Some(i) => i,
        };
        let iv = match self.find_holding(&ctx.program_associated_token) {
            None => {
                return Err(MyError::AccountMissing);
            },
            Some(i) => i,
        };
        if !self.holdings[iu].account.mint.eq_addr(&ctx.token_mint) || !self.holdings[iv].account.mint.eq_addr(
            &ctx.token_mint,
        ) {
            return Err(MyError::MintMismatch);
        }
        let seeds = locked_seeds(&ctx.user, &signer_addr, &ctx.token_mint);
        let (a, _bump) = match derive_address(&seeds, &self.program_id) {
            Err(_) => {
                return Err(MyError::DerivationExhausted);
            },
            Ok(p) => p,
        };
        if self.find_locked(&a).is_some() {
            return Err(MyError::AlreadyExists);
        }
        if self.find_locked_by_key(&ctx.user, &ctx.token_mint).is_some() {
            return Err(MyError::AlreadyExists);
        }
        proof {
            lemma_initialize_locked_step_wf(
                old(self)@,
                ctx.user@,
                ctx.user_associated_token@,
                ctx.program_associated_token@,
                ctx.token_mint@,
            );
        }
        let ghost av = a@;
        let entry = LockedEntry {
            address: a,
            account: LockedTokenAccount {
                authority: ctx.user.clone_addr(),
                token_mint: ctx.token_mint.clone_addr(),
                amount: 0,
            },
        };
        self.locked.push(entry);
        proof {
            assert(self@.locked =~= old(self)@.locked.push(
                LockedV { address: av, authority: ctx.user@, mint: ctx.token_mint@, amount: 0 },
            ));
            assert(self@ =~= initialize_locked_step(
                old(self)@,
                ctx.user@,
                ctx.user_associated_token@,
                ctx.program_associated_token@,
                ctx.token_mint@,
            ).0);
        }
        Ok(())
    }

    /// Credit a holding from outside the staking machine: the airdrop with
    /// which users fund their accounts before staking.
    pub fn airdrop(&mut self, holding: &Address, amount: u64) -> (r: Result<(), MyError>)
        requires
            old(self).wf(),
        ensures
            final(self).wf(),
            final(self)@ == airdrop_step(old(self)@, holding@, amount).0,
            r == airdrop_step(old(self)@, holding@, amount).1,
    {
        let i = match self.find_holding(holding) {
            None => {
                return Err(MyError::AccountMissing);
            },
            Some(i) => i,
        };
        let cur = self.holdings[i].account.amount;
        let next = match cur.checked_add(amount) {
            None => {
                return Err(MyError::BalanceOverflow);
            },
            Some(v) => v,
        };
        proof {
            lemma_airdrop_step_wf(old(self)@, holding@, amount);
        }
        self.holdings[i].account.amount = next;
        proof {
            assert(self@.holdings =~= old(self)@.holdings.update(
                i as int,
                HoldingV { amount: next, ..old(self)@.holdings[i as int] },
            ));
            assert(self@ =~= airdrop_step(old(self)@, holding@, amount).0);
        }
        Ok(())
    }

    /// Stake `amount` of the asset: transfer it from the user's holding into
    /// the vault's pool holding, with the user as authorizer, and raise the
    /// user's locked record by the same amount (created on first stake). The
    /// transfer and the ledger increment happen together or not at all.
    pub fn stake_token(&mut self, ctx: &StakeToken, amount: u64) -> (r: Result<(), MyError>)
        requires
            old(self).wf(),
        ensures
            final(self).wf(),
            final(self)@ == stake_step(
                old(self)@,
                ctx.user@,
                ctx.user_associated_token@,
                ctx.program_associated_token@,
                ctx.token_mint@,
                amount,
            ).0,
            r == stake_step(
                old(self)@,
                ctx.user@,
                ctx.user_associated_token@,
                ctx.program_associated_token@,
                ctx.token_mint@,
                amount,
            ).1,
    {
        let signer_addr = match &self.signer {
            None => {
                return Err(MyError::AccountMissing);
            },
            Some(e) => e.address.clone_addr(),
        };
        let iu = match self.find_holding(&ctx.user_associated_token) {
            None => {
                return Err(MyError::AccountMissing);
            },
            Some(i) => i,
        };
        let iv = match self.find_holding(&ctx.program_associated_token) {
            None => {
                return Err(MyError::AccountMissing);
            },
            Some(i) => i,
        };
        if !self.holdings[iu].account.mint.eq_addr(&ctx.token_mint) || !self.holdings[iv].account.mint.eq_addr(
            &ctx.token_mint,
        ) {
            return Err(MyError::MintMismatch);
        }
        if !self.holdings[iv].account.owner.eq_addr(&signer_addr) {
            return Err(MyError::InvalidOwner);
        }
        let k_opt = self.find_locked_by_key(&ctx.user, &ctx.token_mint);
        let mut new_addr = Address { bytes: Vec::new() };
        if k_opt.is_none() {
            let seeds = locked_seeds(&ctx.user, &signer_addr, &ctx.token_mint);
            match derive_address(&seeds, &self.program_id) {
                Err(_) => {
                    return Err(MyError::DerivationExhausted);
                },
                Ok((a, _bump)) => {
                    if self.find_locked(&a).is_some() {
                        return Err(MyError::AlreadyExists);
                    }
                    new_addr = a;
                },
            }
        }
        if !self.holdings[iu].account.owner.eq_addr(&ctx.user) || ctx.user.eq_addr(&signer_addr) {
            return Err(MyError::Unauthorized);
        }
        let ua = self.holdings[iu].account.amount;
        if amount > ua {
            return Err(MyError::InsufficientFunds);
        }
        let va = self.holdings[iv].account.amount;
        let new_va = match va.checked_add(amount) {
            None => {
                return Err(MyError::BalanceOverflow);
            },
            Some(v) => v,
        };
        proof {
            lemma_stake_step_wf(
                old(self)@,
                ctx.user@,
                ctx.user_associated_token@,
                ctx.program_associated_token@,
                ctx.token_mint@,
                amount,
            );
            lemma_holding_ix_props(old(self)@.holdings, ctx.user_associated_token@);
            lemma_holding_ix_props(old(self)@.holdings, ctx.program_associated_token@);
            assert(iu != iv);
        }
        self.holdings[iu].account.amount = ua - amount;
        self.holdings[iv].account.amount = new_va;
        match k_opt {
            Some(k) => {
                let cur = self.locked[k].account.amount;
                proof {
                    let s0 = old(self)@;
                    let sg = s0.signer->Some_0;
                    lemma_locked_key_ix_props(s0.locked, ctx.user@, ctx.token_mint@);
                    lemma_sum_locked_ge_elem(s0.locked, k as int, ctx.token_mint@);
                    lemma_vault_ix_props(s0.holdings, sg.address, ctx.token_mint@);
                    assert(vault_ix(s0.holdings, sg.address, ctx.token_mint@) == iv as int);
                    assert(sum_locked(s0.locked, ctx.token_mint@) <= vault_amount(
                        s0,
                        ctx.token_mint@,
                    ));
                    assert(cur + amount <= va + amount);
                }
                self.locked[k].account.amount = cur + amount;
                proof {
                    assert(self@.locked =~= old(self)@.locked.update(
                        k as int,
                        LockedV {
                            amount: (old(self)@.locked[k as int].amount + amount) as u64,
                            ..old(self)@.locked[k as int]
                        },
                    ));
                }
            },
            None => {
                let entry = LockedEntry {
                    address: new_addr,
                    account: LockedTokenAccount {
                        authority: ctx.user.clone_addr(),
                        token_mint: ctx.token_mint.clone_addr(),
                        amount,
                    },
                };
                let ghost av = entry.address@;
                self.locked.push(entry);
                proof {
                    assert(self@.locked =~= old(self)@.locked.push(
                        LockedV {
                            address: av,
                            authority: ctx.user@,
                            mint: ctx.token_mint@,
                            amount,
                        },
                    ));
                }
            },
        }
        proof {
            assert(self@.holdings =~= old(self)@.holdings.update(
                iu as int,
                HoldingV { amount: (ua - amount) as u64, ..old(self)@.holdings[iu as int] },
            ).update(
                iv as int,
                HoldingV { amount: (va + amount) as u64, ..old(self)@.holdings[iv as int] },
            ));
            assert(self@ =~= stake_step(
                old(self)@,
                ctx.user@,
                ctx.user_associated_token@,
                ctx.program_associated_token@,
                ctx.token_mint@,
                amount,
            ).0);
        }
        Ok(())
    }

    /// Unstake `amount` of the asset: the vault signer re-derives its own
    /// address from the stored seeds and nonce to authorize the transfer back
    /// to the user's holding, and the locked record drops by the same amount.
    /// The checks run against the same pre-transfer amount that the transfer
    /// observes, in order: authority, then amount, then the delegated proof.
    pub fn unstake_token(&mut self, ctx: &UnstakeToken, amount: u64) -> (r: Result<(), MyError>)
        requires
            old(self).wf(),
        ensures
            final(self).wf(),
            final(self)@ == unstake_step(
                old(self)@,
                ctx.user@,
                ctx.user_associated_token@,
                ctx.program_associated_token@,
                ctx.locked_token@,
                ctx.token_mint@,
                amount,
            ).0,
            r == unstake_step(
                old(self)@,
                ctx.user@,
                ctx.user_associated_token@,
                ctx.program_associated_token@,
                ctx.locked_token@,
                ctx.token_mint@,
                amount,
            ).1,
    {
        let (signer_addr, signer_bump) = match &self.signer {
            None => {
                return Err(MyError::AccountMissing);
            },
            Some(e) => (e.address.clone_addr(), e.account.bump),
        };
        let iu = match self.find_holding(&ctx.user_associated_token) {
            None => {
                return Err(MyError::AccountMissing);
            },
            Some(i) => i,
        };
        let iv = match self.find_holding(&ctx.program_associated_token) {
            None => {
                return Err(MyError::AccountMissing);
            },
            Some(i) => i,
        };
        if !self.holdings[iu].account.mint.eq_addr(&ctx.token_mint) || !self.holdings[iv].account.mint.eq_addr(
            &ctx.token_mint,
        ) {
            return Err(MyError::MintMismatch);
        }
        let k = match self.find_locked(&ctx.locked_token) {
            None => {
                return Err(MyError::AccountMissing);
            },
            Some(i) => i,
        };
        if !self.locked[k].account.token_mint.eq_addr(&ctx.token_mint) {
            return Err(MyError::MintMismatch);
        }
        if !self.locked[k].account.authority.eq_addr(&ctx.user) {
            return Err(MyError::UnauthorizedUnstake);
        }
        let cur = self.locked[k].account.amount;
        if amount > cur {
            return Err(MyError::AmountTooLarge);
        }
        let delegated = crate::addr::DelegatedProof { seeds: signer_seeds(), nonce: signer_bump };
        if !crate::addr::validate_delegated_proof(&delegated, &signer_addr, &self.program_id) {
            return Err(MyError::InvalidProof);
        }
        if !self.holdings[iv].account.owner.eq_addr(&signer_addr) {
            return Err(MyError::Unauthorized);
        }
        let va = self.holdings[iv].account.amount;
        if amount > va {
            return Err(MyError::InsufficientFunds);
        }
        proof {
            lemma_unstake_step_wf(
                old(self)@,
                ctx.user@,
                ctx.user_associated_token@,
                ctx.program_associated_token@,
                ctx.locked_token@,
                ctx.token_mint@,
                amount,
            );
            lemma_holding_ix_props(old(self)@.holdings, ctx.user_associated_token@);
            lemma_holding_ix_props(old(self)@.holdings, ctx.program_associated_token@);
        }
        if !ctx.user_associated_token.eq_addr(&ctx.program_associated_token) {
            let ua = self.holdings[iu].account.amount;
            let new_ua = match ua.checked_add(amount) {
                None => {
                    return Err(MyError::BalanceOverflow);
                },
                Some(v) => v,
            };
            proof {
                assert(iu != iv);
            }
            self.holdings[iv].account.amount = va - amount;
            self.holdings[iu].account.amount = new_ua;
            proof {
                assert(self@.holdings =~= old(self)@.holdings.update(
                    iv as int,
                    HoldingV { amount: (va - amount) as u64, ..old(self)@.holdings[iv as int] },
                ).update(
                    iu as int,
                    HoldingV { amount: (ua + amount) as u64, ..old(self)@.holdings[iu as int] },
                ));
            }
        } else {
            proof {
                assert(self@.holdings =~= old(self)@.holdings);
            }
        }
        let cur2 = self.locked[k].account.amount;
        self.locked[k].account.amount = cur2 - amount;
        proof {
            assert(cur2 == cur);
            assert(self@.locked =~= old(self)@.locked.update(
                k as int,
                LockedV {
                    amount: (old(self)@.locked[k as int].amount - amount) as u64,
                    ..old(self)@.locked[k as int]
                },
            ));
            assert(self@ =~= unstake_step(
                old(self)@,
                ctx.user@,
                ctx.user_associated_token@,
                ctx.program_associated_token@,
                ctx.locked_token@,
                ctx.token_mint@,
                amount,
            ).0);
        }
        Ok(())
    }

    /// The signer's derived address, once initialized.
    pub fn signer_address(&self) -> (r: Option<Address>)
        ensures
            (r matches Some(a) ==> self@.signer matches Some(sg) && a@ == sg.address),
            r is None <==> self@.signer is None,
    {
        match &self.signer {
            Some(e) => Some(e.address.clone_addr()),
            None => None,
        }
    }

    /// The signer's stored derivation nonce, once initialized.
    pub fn signer_bump(&self) -> (r: Option<u8>)
        ensures
            (r matches Some(b) ==> self@.signer matches Some(sg) && b == sg.bump),
            r is None <==> self@.signer is None,
    {
        match &self.signer {
            Some(e) => Some(e.account.bump),
            None => None,
        }
    }

    /// Amount carried by the holding at `addr`.
    pub fn holding_amount(&self, addr: &Address) -> (r: Option<u64>)
        ensures
            (r matches Some(a) ==> holding_ix(self@.holdings, addr@) >= 0 && a
                == self@.holdings[holding_ix(self@.holdings, addr@)].amount),
            r is None <==> holding_ix(self@.holdings, addr@) < 0,
    {
        match self.find_holding(addr) {
            Some(i) => Some(self.holdings[i].account.amount),
            None => None,
        }
    }

    /// The locked amount of (user, asset), if a record exists.
    pub fn locked_amount(&self, user: &Address, mint: &Address) -> (r: Option<u64>)
        ensures
            (r matches Some(a) ==> locked_key_ix(self@.locked, user@, mint@) >= 0 && a
                == self@.locked[locked_key_ix(self@.locked, user@, mint@)].amount),
            r is None <==> locked_key_ix(self@.locked, user@, mint@) < 0,
    {
        match self.find_locked_by_key(user, mint) {
            Some(i) => Some(self.locked[i].account.amount),
            None => None,
        }
    }

    /// The derived address of the locked record of (user, asset).
    pub fn locked_address(&self, user: &Address, mint: &Address) -> (r: Option<Address>)
        ensures
            (r matches Some(a) ==> locked_key_ix(self@.locked, user@, mint@) >= 0 && a@
                == self@.locked[locked_key_ix(self@.locked, user@, mint@)].address),
            r is None <==> locked_key_ix(self@.locked, user@, mint@) < 0,
    {
        match self.find_locked_by_key(user, mint) {
            Some(i) => Some(self.locked[i].address.clone_addr()),
            None => None,
        }
    }

    /// The canonical vault holding address for an asset, once created.
    pub fn vault_holding_address(&self, mint: &Address) -> (r: Option<Address>)
        ensures
            (r matches Some(a) ==> self@.signer matches Some(sg) && vault_ix(
                self@.holdings,
                sg.address,
                mint@,
            ) >= 0 && a@ == self@.holdings[vault_ix(self@.holdings, sg.address, mint@)].address),
    {
        let signer_addr = match &self.signer {
            None => {
                return None;
            },
            Some(e) => e.address.clone_addr(),
        };
        match self.find_holding_by_key(&signer_addr, mint) {
            Some(i) => Some(self.holdings[i].address.clone_addr()),
            None => None,
        }
    }
}

} // verus!
