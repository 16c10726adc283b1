//! The laws the staking core obeys, proved against the step functions that
//! the executable operations are verified to implement exactly.
use vstd::prelude::*;

use crate::accounts::LockedV;
use crate::errors::MyError;
use crate::ledger::{
    initialize_signer_step, lemma_stake_step_wf, lemma_unstake_step_wf, locked_seeds_spec,
    signer_seeds_spec, stake_step, unstake_step, vault_amount, wf_v, LedgerV,
};
use crate::addr::{find_derived, proof_valid};
use crate::lookup::{
    holding_ix, lemma_holding_ix_props, lemma_holding_ix_same_addrs, lemma_locked_addr_ix_props,
    lemma_locked_addr_ix_same_addrs, lemma_locked_key_ix_props, lemma_locked_key_ix_push,
    lemma_locked_key_ix_same_keys, lemma_sum_locked_ge_elem, lemma_vault_ix_props, locked_addr_ix,
    locked_key_ix, sum_locked, vault_ix,
};

verus! {

/// One client call against the staking machine.
pub ghost enum StakingOp {
    Stake { user: Seq<u8>, user_h: Seq<u8>, vault_h: Seq<u8>, mint: Seq<u8>, amount: u64 },
    Unstake {
        user: Seq<u8>,
        user_h: Seq<u8>,
        vault_h: Seq<u8>,
        locked_addr: Seq<u8>,
        mint: Seq<u8>,
        amount: u64,
    },
}

/// The state and outcome one call leaves behind.
pub open spec fn op_apply(s: LedgerV, op: StakingOp) -> (LedgerV, Result<(), MyError>) {
    match op {
        StakingOp::Stake { user, user_h, vault_h, mint, amount } => stake_step(
            s,
            user,
            user_h,
            vault_h,
            mint,
            amount,
        ),
        StakingOp::Unstake { user, user_h, vault_h, locked_addr, mint, amount } => unstake_step(
            s,
            user,
            user_h,
            vault_h,
            locked_addr,
            mint,
            amount,
        ),
    }
}

/// The state after a whole sequence of calls.
pub open spec fn apply_ops(s: LedgerV, ops: Seq<StakingOp>) -> LedgerV
    decreases ops.len(),
{
    if ops.len() == 0 {
        s
    } else {
        apply_ops(op_apply(s, ops[0]).0, ops.drop_first())
    }
}

/// The locked amount of (user, asset): the record's amount, or 0 without one.
pub open spec fn locked_amount_of(s: LedgerV, user: Seq<u8>, mint: Seq<u8>) -> int {
    let k = locked_key_ix(s.locked, user, mint);
    if k >= 0 {
        s.locked[k].amount as int
    } else {
        0
    }
}

/// What one call contributes to (user, asset)'s locked amount: its amount if
/// it is a successful stake for that pair, the negation for a successful
/// unstake, and nothing otherwise.
pub open spec fn op_delta(s: LedgerV, op: StakingOp, user: Seq<u8>, mint: Seq<u8>) -> int {
    if op_apply(s, op).1 is Ok {
        match op {
            StakingOp::Stake { user: u, mint: m, amount, .. } => if u == user && m == mint {
                amount as int
            } else {
                0
            },
            StakingOp::Unstake { user: u, mint: m, amount, .. } => if u == user && m == mint {
                -(amount as int)
            } else {
                0
            },
        }
    } else {
        0
    }
}

/// Successful stakes minus successful unstakes for (user, asset) over a
/// sequence of calls, each judged against the state it actually ran in.
pub open spec fn net_staked(s: LedgerV, ops: Seq<StakingOp>, user: Seq<u8>, mint: Seq<u8>) -> int
    decreases ops.len(),
{
    if ops.len() == 0 {
        0
    } else {
        op_delta(s, ops[0], user, mint) + net_staked(
            op_apply(s, ops[0]).0,
            ops.drop_first(),
            user,
            mint,
        )
    }
}

/// Every call keeps the ledger well formed.
pub proof fn lemma_op_wf(s: LedgerV, op: StakingOp)
    requires
        wf_v(s),
    ensures
        wf_v(op_apply(s, op).0),
{
    match op {
        StakingOp::Stake { user, user_h, vault_h, mint, amount } => {
            lemma_stake_step_wf(s, user, user_h, vault_h, mint, amount);
        },
        StakingOp::Unstake { user, user_h, vault_h, locked_addr, mint, amount } => {
            lemma_unstake_step_wf(s, user, user_h, vault_h, locked_addr, mint, amount);
        },
    }
}

/// One call moves (user, asset)'s locked amount by exactly its contribution.
pub proof fn lemma_op_locked_delta(s: LedgerV, op: StakingOp, user: Seq<u8>, mint: Seq<u8>)
    requires
        wf_v(s),
    ensures
        locked_amount_of(op_apply(s, op).0, user, mint) == locked_amount_of(s, user, mint)
            + op_delta(s, op, user, mint),
{
    let s2 = op_apply(s, op).0;
    if op_apply(s, op).1 is Ok {
        match op {
            StakingOp::Stake { user: u, user_h, vault_h, mint: m, amount } => {
                let sg = s.signer->Some_0;
                let k = locked_key_ix(s.locked, u, m);
                lemma_locked_key_ix_props(s.locked, u, m);
                lemma_locked_key_ix_props(s.locked, user, mint);
                if k >= 0 {
                    let iv = holding_ix(s.holdings, vault_h);
                    lemma_holding_ix_props(s.holdings, vault_h);
                    lemma_vault_ix_props(s.holdings, sg.address, m);
                    lemma_sum_locked_ge_elem(s.locked, k, m);
                    let vix = vault_ix(s.holdings, sg.address, m);
                    assert(vix >= 0) by {
                        assert(s.holdings[iv].owner == sg.address && s.holdings[iv].mint == m);
                    }
                    assert(vix == iv);
                    assert(sum_locked(s.locked, m) <= vault_amount(s, m));
                    assert(s.locked[k].amount + amount <= u64::MAX);
                    let l2 = LockedV { amount: (s.locked[k].amount + amount) as u64, ..s.locked[k] };
                    assert(s2.locked == s.locked.update(k, l2));
                    assert forall|i: int| 0 <= i < s2.locked.len() implies (
                    #[trigger] s2.locked[i]).authority == s.locked[i].authority && s2.locked[i].mint
                        == s.locked[i].mint by {}
                    lemma_locked_key_ix_same_keys(s2.locked, s.locked, user, mint);
                    lemma_locked_key_ix_props(s2.locked, user, mint);
                    let kq = locked_key_ix(s.locked, user, mint);
                    if u == user && m == mint {
                        assert(kq == k);
                        assert(s2.locked[k].amount == s.locked[k].amount + amount);
                    } else {
                        if kq >= 0 {
                            assert(kq != k) by {
                                assert(s.locked[k].authority == u && s.locked[k].mint == m);
                                assert(s.locked[kq].authority == user && s.locked[kq].mint == mint);
                            }
                            assert(s2.locked[kq] == s.locked[kq]);
                        }
                    }
                } else {
                    let p = find_derived(locked_seeds_spec(u, sg.address, m), s.program_id)->Some_0;
                    let l = LockedV { address: p.0, authority: u, mint: m, amount };
                    assert(s2.locked == s.locked.push(l));
                    lemma_locked_key_ix_push(s.locked, l, user, mint);
                    let kq = locked_key_ix(s.locked, user, mint);
                    if u == user && m == mint {
                        assert(kq < 0);
                        assert(locked_key_ix(s2.locked, user, mint) == s.locked.len() as int);
                        assert(s2.locked[s.locked.len() as int] == l);
                    } else {
                        if kq >= 0 {
                            assert(locked_key_ix(s2.locked, user, mint) == kq);
                            assert(s2.locked[kq] == s.locked[kq]);
                        } else {
                            assert(locked_key_ix(s2.locked, user, mint) < 0);
                        }
                    }
                }
            },
            StakingOp::Unstake { user: u, user_h, vault_h, locked_addr, mint: m, amount } => {
                let k = locked_addr_ix(s.locked, locked_addr);
                lemma_locked_addr_ix_props(s.locked, locked_addr);
                let l2 = LockedV { amount: (s.locked[k].amount - amount) as u64, ..s.locked[k] };
                assert(s2.locked == s.locked.update(k, l2));
                assert forall|i: int| 0 <= i < s2.locked.len() implies (
                #[trigger] s2.locked[i]).authority == s.locked[i].authority && s2.locked[i].mint
                    == s.locked[i].mint by {}
                lemma_locked_key_ix_same_keys(s2.locked, s.locked, user, mint);
                lemma_locked_key_ix_props(s.locked, user, mint);
                lemma_locked_key_ix_props(s2.locked, user, mint);
                let kq = locked_key_ix(s.locked, user, mint);
                assert(s.locked[k].authority == u && s.locked[k].mint == m);
                if u == user && m == mint {
                    assert(kq >= 0) by {
                        if kq < 0 {
                            assert(!(s.locked[k].authority == user && s.locked[k].mint == mint));
                        }
                    }
                    assert(kq == k) by {
                        if kq != k {
                            assert(s.locked[kq].authority == s.locked[k].authority
                                && s.locked[kq].mint == s.locked[k].mint);
                        }
                    }
                    assert(s2.locked[k].amount == s.locked[k].amount - amount);
                } else {
                    if kq >= 0 {
                        assert(kq != k) by {
                            assert(s.locked[kq].authority == user && s.locked[kq].mint == mint);
                        }
                        assert(s2.locked[kq] == s.locked[kq]);
                    }
                }
            },
        }
    }
}

/// Accounting: after any sequence of stake and unstake calls, each
/// (user, asset)'s locked amount equals what it started at plus the
/// successful stakes minus the successful unstakes, and is never negative.
pub proof fn lemma_locked_accounting(s: LedgerV, ops: Seq<StakingOp>, user: Seq<u8>, mint: Seq<u8>)
    requires
        wf_v(s),
    ensures
        locked_amount_of(apply_ops(s, ops), user, mint) == locked_amount_of(s, user, mint)
            + net_staked(s, ops, user, mint),
        locked_amount_of(apply_ops(s, ops), user, mint) >= 0,
    decreases ops.len(),
{
    if ops.len() == 0 {
    } else {
        let s1 = op_apply(s, ops[0]).0;
        lemma_op_wf(s, ops[0]);
        lemma_op_locked_delta(s, ops[0], user, mint);
        lemma_locked_accounting(s1, ops.drop_first(), user, mint);
    }
}

/// An unstake of more than the locked amount fails with AmountTooLarge and
/// leaves the whole ledger unchanged, however the vault stands. The earlier
/// account checks are assumed to pass, so the amount check is what decides.
pub proof fn lemma_unstake_amount_too_large(
    s: LedgerV,
    user: Seq<u8>,
    user_h: Seq<u8>,
    vault_h: Seq<u8>,
    locked_addr: Seq<u8>,
    mint: Seq<u8>,
    amount: u64,
)
    requires
        s.signer is Some,
        holding_ix(s.holdings, user_h) >= 0,
        holding_ix(s.holdings, vault_h) >= 0,
        s.holdings[holding_ix(s.holdings, user_h)].mint == mint,
        s.holdings[holding_ix(s.holdings, vault_h)].mint == mint,
        locked_addr_ix(s.locked, locked_addr) >= 0,
        s.locked[locked_addr_ix(s.locked, locked_addr)].mint == mint,
        s.locked[locked_addr_ix(s.locked, locked_addr)].authority == user,
        amount > s.locked[locked_addr_ix(s.locked, locked_addr)].amount,
    ensures
        unstake_step(s, user, user_h, vault_h, locked_addr, mint, amount) == (
            s,
            Err::<(), MyError>(MyError::AmountTooLarge),
        ),
{
}

/// An unstake invoked by any identity other than the record's authority
/// fails with UnauthorizedUnstake and leaves the whole ledger unchanged,
/// whatever the amount.
pub proof fn lemma_unstake_unauthorized(
    s: LedgerV,
    caller: Seq<u8>,
    user_h: Seq<u8>,
    vault_h: Seq<u8>,
    locked_addr: Seq<u8>,
    mint: Seq<u8>,
    amount: u64,
)
    requires
        s.signer is Some,
        holding_ix(s.holdings, user_h) >= 0,
        holding_ix(s.holdings, vault_h) >= 0,
        s.holdings[holding_ix(s.holdings, user_h)].mint == mint,
        s.holdings[holding_ix(s.holdings, vault_h)].mint == mint,
        locked_addr_ix(s.locked, locked_addr) >= 0,
        s.locked[locked_addr_ix(s.locked, locked_addr)].mint == mint,
        caller != s.locked[locked_addr_ix(s.locked, locked_addr)].authority,
    ensures
        unstake_step(s, caller, user_h, vault_h, locked_addr, mint, amount) == (
            s,
            Err::<(), MyError>(MyError::UnauthorizedUnstake),
        ),
{
}

/// Re-invoking the signer initialization fails with AlreadyInitialized and
/// alters nothing, so the stored nonce survives untouched.
pub proof fn lemma_initialize_signer_once(s: LedgerV)
    requires
        s.signer is Some,
    ensures
        initialize_signer_step(s) == (s, Err::<(), MyError>(MyError::AlreadyInitialized)),
        initialize_signer_step(s).0.signer->Some_0.bump == s.signer->Some_0.bump,
{
}

/// The pool can always cover an authorized unstake: with a well-formed
/// ledger the unstake step never fails for insufficient vault funds.
pub proof fn lemma_unstake_never_insufficient(
    s: LedgerV,
    user: Seq<u8>,
    user_h: Seq<u8>,
    vault_h: Seq<u8>,
    locked_addr: Seq<u8>,
    mint: Seq<u8>,
    amount: u64,
)
    requires
        wf_v(s),
    ensures
        unstake_step(s, user, user_h, vault_h, locked_addr, mint, amount).1 != Err::<(), MyError>(
            MyError::InsufficientFunds,
        ),
{
    match s.signer {
        None => {},
        Some(sg) => {
            let iu = holding_ix(s.holdings, user_h);
            let iv = holding_ix(s.holdings, vault_h);
            lemma_holding_ix_props(s.holdings, vault_h);
            let k = locked_addr_ix(s.locked, locked_addr);
            if iu >= 0 && iv >= 0 && s.holdings[iu].mint == mint && s.holdings[iv].mint == mint && k
                >= 0 && s.locked[k].mint == mint && s.locked[k].authority == user && amount
                <= s.locked[k].amount && proof_valid(
                signer_seeds_spec(),
                sg.bump,
                sg.address,
                s.program_id,
            ) && s.holdings[iv].owner == sg.address {
                lemma_locked_addr_ix_props(s.locked, locked_addr);
                lemma_sum_locked_ge_elem(s.locked, k, mint);
                lemma_vault_ix_props(s.holdings, sg.address, mint);
                let vix = vault_ix(s.holdings, sg.address, mint);
                assert(vix >= 0) by {
                    assert(s.holdings[iv].owner == sg.address && s.holdings[iv].mint == mint);
                }
                assert(vix == iv);
                assert(sum_locked(s.locked, mint) <= vault_amount(s, mint));
                assert(amount <= s.holdings[iv].amount);
            }
        },
    }
}

/// A signer whose stored nonce re-derives its address — which is what the
/// initialization call guarantees it wrote — always validates its own
/// delegated proof: an unstake never fails with InvalidProof.
pub proof fn lemma_unstake_never_invalid_proof(
    s: LedgerV,
    user: Seq<u8>,
    user_h: Seq<u8>,
    vault_h: Seq<u8>,
    locked_addr: Seq<u8>,
    mint: Seq<u8>,
    amount: u64,
)
    requires
        (s.signer matches Some(sg) ==> proof_valid(
            signer_seeds_spec(),
            sg.bump,
            sg.address,
            s.program_id,
        )),
    ensures
        unstake_step(s, user, user_h, vault_h, locked_addr, mint, amount).1 != Err::<(), MyError>(
            MyError::InvalidProof,
        ),
{
}

/// Round trip: a successful stake of N followed by an unstake of N against
/// the same accounts restores every holding exactly; the locked record
/// returns to its pre-stake amount, or persists at zero if the stake created
/// it. No residue is left anywhere.
pub proof fn lemma_stake_unstake_round_trip(
    s: LedgerV,
    user: Seq<u8>,
    user_h: Seq<u8>,
    vault_h: Seq<u8>,
    mint: Seq<u8>,
    amount: u64,
)
    requires
        wf_v(s),
        s.signer matches Some(sg) && proof_valid(
            signer_seeds_spec(),
            sg.bump,
            sg.address,
            s.program_id,
        ),
        stake_step(s, user, user_h, vault_h, mint, amount).1 is Ok,
    ensures
        ({
            let s1 = stake_step(s, user, user_h, vault_h, mint, amount).0;
            let k1 = locked_key_ix(s1.locked, user, mint);
            let back = unstake_step(
                s1,
                user,
                user_h,
                vault_h,
                s1.locked[k1].address,
                mint,
                amount,
            );
            &&& back.1 is Ok
            &&& back.0.holdings == s.holdings
            &&& locked_amount_of(back.0, user, mint) == locked_amount_of(s, user, mint)
        }),
{
    let sg = s.signer->Some_0;
    let s1 = stake_step(s, user, user_h, vault_h, mint, amount).0;
    lemma_stake_step_wf(s, user, user_h, vault_h, mint, amount);
    let iu = holding_ix(s.holdings, user_h);
    let iv = holding_ix(s.holdings, vault_h);
    lemma_holding_ix_props(s.holdings, user_h);
    lemma_holding_ix_props(s.holdings, vault_h);
    let uh = s.holdings[iu];
    let vh = s.holdings[iv];
    assert(uh.owner == user && user != sg.address && vh.owner == sg.address);
    assert(iu != iv);
    assert(user_h != vault_h) by {
        assert(uh.address == user_h && vh.address == vault_h);
    }
    // the holdings keep their addresses, so the same accounts resolve
    assert(s1.holdings.len() == s.holdings.len());
    assert forall|x: int| 0 <= x < s1.holdings.len() implies (#[trigger] s1.holdings[x]).address
        == s.holdings[x].address by {}
    lemma_holding_ix_same_addrs(s1.holdings, s.holdings, user_h);
    lemma_holding_ix_same_addrs(s1.holdings, s.holdings, vault_h);
    assert(s1.holdings[iu].amount == uh.amount - amount);
    assert(s1.holdings[iv].amount == vh.amount + amount);
    assert(s1.holdings[iu].mint == mint && s1.holdings[iv].mint == mint);
    // locate the locked record the stake raised or created
    let k = locked_key_ix(s.locked, user, mint);
    lemma_locked_key_ix_props(s.locked, user, mint);
    let k1 = locked_key_ix(s1.locked, user, mint);
    if k >= 0 {
        assert forall|i: int| 0 <= i < s1.locked.len() implies (#[trigger] s1.locked[i]).authority
            == s.locked[i].authority && s1.locked[i].mint == s.locked[i].mint by {}
        lemma_locked_key_ix_same_keys(s1.locked, s.locked, user, mint);
        assert(k1 == k);
        lemma_vault_ix_props(s.holdings, sg.address, mint);
        lemma_sum_locked_ge_elem(s.locked, k, mint);
        let vix = vault_ix(s.holdings, sg.address, mint);
        assert(vix >= 0) by {
            assert(vh.owner == sg.address && vh.mint == mint);
        }
        assert(vix == iv);
        assert(sum_locked(s.locked, mint) <= vault_amount(s, mint));
        assert(s.locked[k].amount + amount <= u64::MAX);
        assert(s1.locked[k1].amount == s.locked[k].amount + amount);
    } else {
        let p = find_derived(locked_seeds_spec(user, sg.address, mint), s.program_id)->Some_0;
        let l = LockedV { address: p.0, authority: user, mint: mint, amount };
        assert(s1.locked == s.locked.push(l));
        lemma_locked_key_ix_push(s.locked, l, user, mint);
        assert(k1 == s.locked.len() as int);
        assert(s1.locked[k1] == l);
    }
    lemma_locked_key_ix_props(s1.locked, user, mint);
    let locked_addr = s1.locked[k1].address;
    // the unstake finds that record by its address
    lemma_locked_addr_ix_props(s1.locked, locked_addr);
    let k2 = locked_addr_ix(s1.locked, locked_addr);
    assert(k2 >= 0) by {
        if k2 < 0 {
            assert(s1.locked[k1].address != locked_addr);
        }
    }
    assert(k2 == k1) by {
        if k2 != k1 {
            assert(s1.locked[k2].address == s1.locked[k1].address);
        }
    }
    assert(s1.locked[k2].authority == user && s1.locked[k2].mint == mint);
    assert(amount <= s1.locked[k2].amount);
    assert(s1.holdings[iv].owner == sg.address);
    assert(amount <= s1.holdings[iv].amount);
    assert(s1.holdings[iu].amount + amount == uh.amount);
    let back = unstake_step(s1, user, user_h, vault_h, locked_addr, mint, amount);
    assert(back.1 is Ok);
    let s2 = back.0;
    assert(s2.holdings =~= s.holdings) by {
        assert(s2.holdings.len() == s.holdings.len());
        assert forall|x: int| 0 <= x < s2.holdings.len() implies s2.holdings[x] == s.holdings[x] by {
            if x == iu {
                assert(s2.holdings[iu].amount == uh.amount);
            } else if x == iv {
                assert(s2.holdings[iv].amount == vh.amount);
            }
        }
    }
    assert forall|i: int| 0 <= i < s2.locked.len() implies (#[trigger] s2.locked[i]).authority
        == s1.locked[i].authority && s2.locked[i].mint == s1.locked[i].mint by {}
    lemma_locked_key_ix_same_keys(s2.locked, s1.locked, user, mint);
    assert(s2.locked[k1].amount == s1.locked[k1].amount - amount);
}

/// No double spend: two unstakes of the full locked amount cannot both
/// succeed. After the first drains the record, the second fails with
/// AmountTooLarge against the post-first-call state and changes nothing.
pub proof fn lemma_no_double_unstake(
    s: LedgerV,
    user: Seq<u8>,
    user_h: Seq<u8>,
    vault_h: Seq<u8>,
    locked_addr: Seq<u8>,
    mint: Seq<u8>,
    amount: u64,
)
    requires
        wf_v(s),
        amount > 0,
        amount == s.locked[locked_addr_ix(s.locked, locked_addr)].amount,
        unstake_step(s, user, user_h, vault_h, locked_addr, mint, amount).1 is Ok,
    ensures
        ({
            let s1 = unstake_step(s, user, user_h, vault_h, locked_addr, mint, amount).0;
            unstake_step(s1, user, user_h, vault_h, locked_addr, mint, amount) == (
                s1,
                Err::<(), MyError>(MyError::AmountTooLarge),
            )
        }),
{
    let s1 = unstake_step(s, user, user_h, vault_h, locked_addr, mint, amount).0;
    lemma_unstake_step_wf(s, user, user_h, vault_h, locked_addr, mint, amount);
    let iu = holding_ix(s.holdings, user_h);
    let iv = holding_ix(s.holdings, vault_h);
    lemma_holding_ix_props(s.holdings, user_h);
    lemma_holding_ix_props(s.holdings, vault_h);
    let k = locked_addr_ix(s.locked, locked_addr);
    lemma_locked_addr_ix_props(s.locked, locked_addr);
    assert(s1.holdings.len() == s.holdings.len());
    assert forall|x: int| 0 <= x < s1.holdings.len() implies (#[trigger] s1.holdings[x]).address
        == s.holdings[x].address && s1.holdings[x].mint == s.holdings[x].mint by {
        if user_h != vault_h {
            assert(iu != iv);
        }
    }
    lemma_holding_ix_same_addrs(s1.holdings, s.holdings, user_h);
    lemma_holding_ix_same_addrs(s1.holdings, s.holdings, vault_h);
    assert forall|i: int| 0 <= i < s1.locked.len() implies (#[trigger] s1.locked[i]).address
        == s.locked[i].address by {}
    lemma_locked_addr_ix_same_addrs(s1.locked, s.locked, locked_addr);
    assert(s1.locked[k].amount == 0);
    assert(s1.locked[k].authority == user && s1.locked[k].mint == mint);
}

} // verus!
