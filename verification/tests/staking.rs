use token_program::accounts::{
    InitializeLockedTokenAccount, InitializeProgramAssociatedTokenAccount, InitializeProgramSigner,
    StakeToken, UnstakeToken,
};
use token_program::addr::{derive_address, validate_delegated_proof, Address, DelegatedProof};
use token_program::errors::MyError;
use token_program::ledger::{signer_seeds, Ledger};

fn addr(n: u8) -> Address {
    Address::new(vec![n; 32])
}

fn new_ledger() -> Ledger {
    Ledger::new(addr(1), addr(2), addr(3))
}

/// A ledger with signer, a vault holding for `mint`, and a funded user
/// holding; returns (ledger, user holding address, vault holding address).
fn funded(user: &Address, mint: &Address, balance: u64) -> (Ledger, Address, Address) {
    let mut l = new_ledger();
    l.initialize_program_signer(&InitializeProgramSigner { payer: addr(9) })
        .unwrap();
    l.initialize_program_associate_token_account(&InitializeProgramAssociatedTokenAccount {
        payer: addr(9),
        token_mint: mint.clone_addr(),
    })
    .unwrap();
    let user_h = l
        .create_holding(&addr(9), user, mint)
        .unwrap();
    l.airdrop(&user_h, balance).unwrap();
    let vault_h = l.vault_holding_address(mint).unwrap();
    (l, user_h, vault_h)
}

fn stake_ctx(user: &Address, user_h: &Address, vault_h: &Address, mint: &Address) -> StakeToken {
    StakeToken {
        user: user.clone_addr(),
        user_associated_token: user_h.clone_addr(),
        program_associated_token: vault_h.clone_addr(),
        token_mint: mint.clone_addr(),
    }
}

fn unstake_ctx(
    user: &Address,
    user_h: &Address,
    vault_h: &Address,
    locked: &Address,
    mint: &Address,
) -> UnstakeToken {
    UnstakeToken {
        user: user.clone_addr(),
        user_associated_token: user_h.clone_addr(),
        program_associated_token: vault_h.clone_addr(),
        locked_token: locked.clone_addr(),
        token_mint: mint.clone_addr(),
    }
}

#[test]
fn initialize_signer_derives_an_address_of_its_own() {
    let mut l = new_ledger();
    assert!(l.signer_address().is_none());
    l.initialize_program_signer(&InitializeProgramSigner { payer: addr(9) })
        .unwrap();
    let sa = l.signer_address().unwrap();
    assert_eq!(sa.bytes.len(), 32);
    // the derivation hashes: the signer address is not the program id
    assert!(!sa.eq_addr(&addr(1)));
    assert!(l.signer_bump().is_some());
}

#[test]
fn initialize_signer_twice_fails_and_keeps_nonce() {
    let mut l = new_ledger();
    l.initialize_program_signer(&InitializeProgramSigner { payer: addr(9) })
        .unwrap();
    let bump = l.signer_bump().unwrap();
    let r = l.initialize_program_signer(&InitializeProgramSigner { payer: addr(8) });
    assert_eq!(r, Err(MyError::AlreadyInitialized));
    assert_eq!(l.signer_bump().unwrap(), bump);
}

#[test]
fn vault_holding_before_signer_is_invalid_owner() {
    let mut l = new_ledger();
    let r = l.initialize_program_associate_token_account(
        &InitializeProgramAssociatedTokenAccount { payer: addr(9), token_mint: addr(7) },
    );
    assert_eq!(r, Err(MyError::InvalidOwner));
}

#[test]
fn create_holding_twice_is_already_exists() {
    let mut l = new_ledger();
    let user = addr(10);
    let mint = addr(7);
    l.create_holding(&addr(9), &user, &mint).unwrap();
    let r = l.create_holding(&addr(9), &user, &mint);
    assert_eq!(r, Err(MyError::AlreadyExists));
}

#[test]
fn stake_moves_funds_and_raises_locked() {
    let user = addr(10);
    let mint = addr(7);
    let (mut l, user_h, vault_h) = funded(&user, &mint, 500);
    l.stake_token(&stake_ctx(&user, &user_h, &vault_h, &mint), 100)
        .unwrap();
    assert_eq!(l.holding_amount(&user_h).unwrap(), 400);
    assert_eq!(l.holding_amount(&vault_h).unwrap(), 100);
    assert_eq!(l.locked_amount(&user, &mint).unwrap(), 100);
}

#[test]
fn stake_more_than_held_is_insufficient_funds() {
    let user = addr(10);
    let mint = addr(7);
    let (mut l, user_h, vault_h) = funded(&user, &mint, 500);
    let r = l.stake_token(&stake_ctx(&user, &user_h, &vault_h, &mint), 600);
    assert_eq!(r, Err(MyError::InsufficientFunds));
    assert_eq!(l.holding_amount(&user_h).unwrap(), 500);
    assert_eq!(l.holding_amount(&vault_h).unwrap(), 0);
}

#[test]
fn stake_with_wrong_mint_is_mint_mismatch() {
    let user = addr(10);
    let mint = addr(7);
    let other = addr(8);
    let (mut l, user_h, vault_h) = funded(&user, &mint, 500);
    let r = l.stake_token(&stake_ctx(&user, &user_h, &vault_h, &other), 100);
    assert_eq!(r, Err(MyError::MintMismatch));
}

#[test]
fn stake_from_anothers_holding_is_unauthorized() {
    let user = addr(10);
    let thief = addr(11);
    let mint = addr(7);
    let (mut l, user_h, vault_h) = funded(&user, &mint, 500);
    let r = l.stake_token(&stake_ctx(&thief, &user_h, &vault_h, &mint), 100);
    assert_eq!(r, Err(MyError::Unauthorized));
    assert_eq!(l.holding_amount(&user_h).unwrap(), 500);
}

#[test]
fn initialize_locked_record_and_duplicate() {
    let user = addr(10);
    let mint = addr(7);
    let (mut l, user_h, vault_h) = funded(&user, &mint, 500);
    let ctx = InitializeLockedTokenAccount {
        user: user.clone_addr(),
        user_associated_token: user_h.clone_addr(),
        program_associated_token: vault_h.clone_addr(),
        token_mint: mint.clone_addr(),
    };
    l.initialize_locked_token_account(&ctx).unwrap();
    assert_eq!(l.locked_amount(&user, &mint).unwrap(), 0);
    let r = l.initialize_locked_token_account(&ctx);
    assert_eq!(r, Err(MyError::AlreadyExists));
}

#[test]
fn unstake_without_accounts_is_account_missing() {
    let mut l = new_ledger();
    let r = l.unstake_token(
        &unstake_ctx(&addr(10), &addr(20), &addr(21), &addr(22), &addr(7)),
        5,
    );
    assert_eq!(r, Err(MyError::AccountMissing));
}

#[test]
fn unstake_more_than_locked_is_amount_too_large() {
    let user = addr(10);
    let mint = addr(7);
    let (mut l, user_h, vault_h) = funded(&user, &mint, 500);
    l.stake_token(&stake_ctx(&user, &user_h, &vault_h, &mint), 100)
        .unwrap();
    let locked = l.locked_address(&user, &mint).unwrap();
    let r = l.unstake_token(&unstake_ctx(&user, &user_h, &vault_h, &locked, &mint), 150);
    assert_eq!(r, Err(MyError::AmountTooLarge));
    assert_eq!(l.holding_amount(&user_h).unwrap(), 400);
    assert_eq!(l.holding_amount(&vault_h).unwrap(), 100);
    assert_eq!(l.locked_amount(&user, &mint).unwrap(), 100);
}

#[test]
fn unstake_by_another_identity_is_unauthorized_unstake() {
    let user = addr(10);
    let thief = addr(11);
    let mint = addr(7);
    let (mut l, user_h, vault_h) = funded(&user, &mint, 500);
    l.stake_token(&stake_ctx(&user, &user_h, &vault_h, &mint), 100)
        .unwrap();
    let locked = l.locked_address(&user, &mint).unwrap();
    let thief_h = l.create_holding(&addr(9), &thief, &mint).unwrap();
    let r = l.unstake_token(&unstake_ctx(&thief, &thief_h, &vault_h, &locked, &mint), 100);
    assert_eq!(r, Err(MyError::UnauthorizedUnstake));
    assert_eq!(l.locked_amount(&user, &mint).unwrap(), 100);
    assert_eq!(l.holding_amount(&thief_h).unwrap(), 0);
}

#[test]
fn stake_then_unstake_round_trip_restores_balances() {
    let user = addr(10);
    let mint = addr(7);
    let (mut l, user_h, vault_h) = funded(&user, &mint, 500);
    l.stake_token(&stake_ctx(&user, &user_h, &vault_h, &mint), 321)
        .unwrap();
    let locked = l.locked_address(&user, &mint).unwrap();
    l.unstake_token(&unstake_ctx(&user, &user_h, &vault_h, &locked, &mint), 321)
        .unwrap();
    assert_eq!(l.holding_amount(&user_h).unwrap(), 500);
    assert_eq!(l.holding_amount(&vault_h).unwrap(), 0);
    assert_eq!(l.locked_amount(&user, &mint).unwrap(), 0);
}

#[test]
fn two_full_unstakes_cannot_both_succeed() {
    let user = addr(10);
    let mint = addr(7);
    let (mut l, user_h, vault_h) = funded(&user, &mint, 500);
    l.stake_token(&stake_ctx(&user, &user_h, &vault_h, &mint), 200)
        .unwrap();
    let locked = l.locked_address(&user, &mint).unwrap();
    let first = l.unstake_token(&unstake_ctx(&user, &user_h, &vault_h, &locked, &mint), 200);
    assert_eq!(first, Ok(()));
    let second = l.unstake_token(&unstake_ctx(&user, &user_h, &vault_h, &locked, &mint), 200);
    assert_eq!(second, Err(MyError::AmountTooLarge));
    assert_eq!(l.holding_amount(&user_h).unwrap(), 500);
}

#[test]
fn unstake_against_wrong_asset_record_is_mint_mismatch() {
    let user = addr(10);
    let mint = addr(7);
    let other = addr(8);
    let (mut l, user_h, vault_h) = funded(&user, &mint, 500);
    l.stake_token(&stake_ctx(&user, &user_h, &vault_h, &mint), 100)
        .unwrap();
    let locked_of_mint = l.locked_address(&user, &mint).unwrap();
    // accounts for the other asset
    l.initialize_program_associate_token_account(&InitializeProgramAssociatedTokenAccount {
        payer: addr(9),
        token_mint: other.clone_addr(),
    })
    .unwrap();
    let user_h2 = l.create_holding(&addr(9), &user, &other).unwrap();
    let vault_h2 = l.vault_holding_address(&other).unwrap();
    let r = l.unstake_token(
        &unstake_ctx(&user, &user_h2, &vault_h2, &locked_of_mint, &other),
        100,
    );
    assert_eq!(r, Err(MyError::MintMismatch));
    assert_eq!(l.locked_amount(&user, &mint).unwrap(), 100);
}

#[test]
fn airdrop_overflow_is_balance_overflow() {
    let user = addr(10);
    let mint = addr(7);
    let (mut l, user_h, _vault_h) = funded(&user, &mint, u64::MAX);
    let r = l.airdrop(&user_h, 1);
    assert_eq!(r, Err(MyError::BalanceOverflow));
    assert_eq!(l.holding_amount(&user_h).unwrap(), u64::MAX);
}

#[test]
fn delegated_proof_accepts_only_the_stored_nonce() {
    let mut l = new_ledger();
    l.initialize_program_signer(&InitializeProgramSigner { payer: addr(9) })
        .unwrap();
    let sa = l.signer_address().unwrap();
    let bump = l.signer_bump().unwrap();
    let good = DelegatedProof { seeds: signer_seeds(), nonce: bump };
    assert!(validate_delegated_proof(&good, &sa, &addr(1)));
    let bad = DelegatedProof { seeds: signer_seeds(), nonce: bump.wrapping_add(1) };
    assert!(!validate_delegated_proof(&bad, &sa, &addr(1)));
}

#[test]
fn derivation_is_deterministic_and_namespaced() {
    let seeds = signer_seeds();
    let (a1, n1) = derive_address(&seeds, &addr(1)).unwrap();
    let (a2, n2) = derive_address(&seeds, &addr(1)).unwrap();
    assert!(a1.eq_addr(&a2));
    assert_eq!(n1, n2);
    let (a3, _n3) = derive_address(&seeds, &addr(4)).unwrap();
    assert!(!a1.eq_addr(&a3));
}

/// The full scenario on a deployment whose signer nonce derives to 254:
/// stake 100, an over-large unstake fails untouched, then unstake 100.
#[test]
fn scenario_with_nonce_254() {
    // search the namespace for a program id whose signer bump is 254
    let mut pid = None;
    for b in 0..=255u8 {
        let candidate = Address::new(vec![b; 32]);
        let (_a, bump) = derive_address(&signer_seeds(), &candidate).unwrap();
        if bump == 254 {
            pid = Some(candidate);
            break;
        }
    }
    let pid = pid.expect("some namespace derives the signer with nonce 254");
    let mut l = Ledger::new(pid, addr(2), addr(3));
    l.initialize_program_signer(&InitializeProgramSigner { payer: addr(9) })
        .unwrap();
    assert_eq!(l.signer_bump().unwrap(), 254);
    let user = addr(10);
    let mint = addr(7);
    l.initialize_program_associate_token_account(&InitializeProgramAssociatedTokenAccount {
        payer: addr(9),
        token_mint: mint.clone_addr(),
    })
    .unwrap();
    let user_h = l.create_holding(&addr(9), &user, &mint).unwrap();
    l.airdrop(&user_h, 100).unwrap();
    let vault_h = l.vault_holding_address(&mint).unwrap();
    l.stake_token(&stake_ctx(&user, &user_h, &vault_h, &mint), 100)
        .unwrap();
    assert_eq!(l.holding_amount(&user_h).unwrap(), 0);
    assert_eq!(l.holding_amount(&vault_h).unwrap(), 100);
    assert_eq!(l.locked_amount(&user, &mint).unwrap(), 100);
    let locked = l.locked_address(&user, &mint).unwrap();
    let r = l.unstake_token(&unstake_ctx(&user, &user_h, &vault_h, &locked, &mint), 150);
    assert_eq!(r, Err(MyError::AmountTooLarge));
    assert_eq!(l.holding_amount(&user_h).unwrap(), 0);
    assert_eq!(l.holding_amount(&vault_h).unwrap(), 100);
    l.unstake_token(&unstake_ctx(&user, &user_h, &vault_h, &locked, &mint), 100)
        .unwrap();
    assert_eq!(l.holding_amount(&user_h).unwrap(), 100);
    assert_eq!(l.holding_amount(&vault_h).unwrap(), 0);
    assert_eq!(l.locked_amount(&user, &mint).unwrap(), 0);
}

#[test]
fn accounting_over_a_sequence_of_calls() {
    let user = addr(10);
    let mint = addr(7);
    let (mut l, user_h, vault_h) = funded(&user, &mint, 1000);
    let sctx = stake_ctx(&user, &user_h, &vault_h, &mint);
    l.stake_token(&sctx, 10).unwrap();
    l.stake_token(&sctx, 20).unwrap();
    let locked = l.locked_address(&user, &mint).unwrap();
    let uctx = unstake_ctx(&user, &user_h, &vault_h, &locked, &mint);
    l.unstake_token(&uctx, 5).unwrap();
    // a failed call contributes nothing
    assert_eq!(l.unstake_token(&uctx, 100), Err(MyError::AmountTooLarge));
    assert_eq!(l.stake_token(&sctx, 2000), Err(MyError::InsufficientFunds));
    // locked equals the staked sum minus the successfully unstaked sum
    assert_eq!(l.locked_amount(&user, &mint).unwrap(), 10 + 20 - 5);
    assert_eq!(l.holding_amount(&vault_h).unwrap(), 25);
    assert_eq!(l.holding_amount(&user_h).unwrap(), 975);
}

#[test]
fn stake_creates_the_locked_record_on_first_use() {
    let user = addr(10);
    let mint = addr(7);
    let (mut l, user_h, vault_h) = funded(&user, &mint, 500);
    assert!(l.locked_amount(&user, &mint).is_none());
    l.stake_token(&stake_ctx(&user, &user_h, &vault_h, &mint), 42)
        .unwrap();
    assert_eq!(l.locked_amount(&user, &mint).unwrap(), 42);
    // a second stake raises the same record
    l.stake_token(&stake_ctx(&user, &user_h, &vault_h, &mint), 8)
        .unwrap();
    assert_eq!(l.locked_amount(&user, &mint).unwrap(), 50);
}
