//! First-match lookups and per-asset sums over stored records, with the
//! lemmas that characterize them. These are the ghost-level counterparts of
//! the linear scans the ledger performs.
use vstd::prelude::*;

use crate::accounts::{HoldingV, LockedV};

verus! {

/// Index of the first holding stored at `addr`, or -1.
pub open spec fn holding_ix(hs: Seq<HoldingV>, addr: Seq<u8>) -> int
    decreases hs.len(),
{
    if hs.len() == 0 {
        -1
    } else if hs[0].address == addr {
        0
    } else if holding_ix(hs.drop_first(), addr) < 0 {
        -1
    } else {
        1 + holding_ix(hs.drop_first(), addr)
    }
}

/// Index of the first holding owned by `owner` for asset `mint`, or -1.
pub open spec fn vault_ix(hs: Seq<HoldingV>, owner: Seq<u8>, mint: Seq<u8>) -> int
    decreases hs.len(),
{
    if hs.len() == 0 {
        -1
    } else if hs[0].owner == owner && hs[0].mint == mint {
        0
    } else if vault_ix(hs.drop_first(), owner, mint) < 0 {
        -1
    } else {
        1 + vault_ix(hs.drop_first(), owner, mint)
    }
}

/// Index of the first locked record stored at `addr`, or -1.
pub open spec fn locked_addr_ix(ls: Seq<LockedV>, addr: Seq<u8>) -> int
    decreases ls.len(),
{
    if ls.len() == 0 {
        -1
    } else if ls[0].address == addr {
        0
    } else if locked_addr_ix(ls.drop_first(), addr) < 0 {
        -1
    } else {
        1 + locked_addr_ix(ls.drop_first(), addr)
    }
}

/// Index of the first locked record of `authority` for asset `mint`, or -1.
pub open spec fn locked_key_ix(ls: Seq<LockedV>, authority: Seq<u8>, mint: Seq<u8>) -> int
    decreases ls.len(),
{
    if ls.len() == 0 {
        -1
    } else if ls[0].authority == authority && ls[0].mint == mint {
        0
    } else if locked_key_ix(ls.drop_first(), authority, mint) < 0 {
        -1
    } else {
        1 + locked_key_ix(ls.drop_first(), authority, mint)
    }
}

/// Total amount locked across all records of one asset.
pub open spec fn sum_locked(ls: Seq<LockedV>, mint: Seq<u8>) -> int
    decreases ls.len(),
{
    if ls.len() == 0 {
        0
    } else {
        (if ls[0].mint == mint {
            ls[0].amount as int
        } else {
            0
        }) + sum_locked(ls.drop_first(), mint)
    }
}

pub proof fn lemma_holding_ix_props(hs: Seq<HoldingV>, addr: Seq<u8>)
    ensures
        holding_ix(hs, addr) >= 0 ==> 0 <= holding_ix(hs, addr) < hs.len() && hs[holding_ix(
            hs,
            addr,
        )].address == addr && (forall|j: int|
            0 <= j < holding_ix(hs, addr) ==> (#[trigger] hs[j]).address != addr),
        holding_ix(hs, addr) < 0 ==> (forall|j: int|
            0 <= j < hs.len() ==> (#[trigger] hs[j]).address != addr),
    decreases hs.len(),
{
    if hs.len() > 0 {
        let tail = hs.drop_first();
        lemma_holding_ix_props(tail, addr);
        if hs[0].address != addr {
            let tix = holding_ix(tail, addr);
            if tix < 0 {
                assert forall|j: int| 0 <= j < hs.len() implies (#[trigger] hs[j]).address
                    != addr by {
                    if j > 0 {
                        assert(tail[j - 1].address != addr);
                        assert(tail[j - 1] == hs[j]);
                    }
                }
            } else {
                assert(hs[1 + tix] == tail[tix]);
                assert forall|j: int| 0 <= j < 1 + tix implies (#[trigger] hs[j]).address
                    != addr by {
                    if j > 0 {
                        assert(tail[j - 1].address != addr);
                        assert(tail[j - 1] == hs[j]);
                    }
                }
            }
        }
    }
}

pub proof fn lemma_vault_ix_props(hs: Seq<HoldingV>, owner: Seq<u8>, mint: Seq<u8>)
    ensures
        vault_ix(hs, owner, mint) >= 0 ==> 0 <= vault_ix(hs, owner, mint) < hs.len() && hs[vault_ix(
            hs,
            owner,
            mint,
        )].owner == owner && hs[vault_ix(hs, owner, mint)].mint == mint && (forall|j: int|
            0 <= j < vault_ix(hs, owner, mint) ==> !((#[trigger] hs[j]).owner == owner && hs[j].mint
                == mint)),
        vault_ix(hs, owner, mint) < 0 ==> (forall|j: int|
            0 <= j < hs.len() ==> !((#[trigger] hs[j]).owner == owner && hs[j].mint == mint)),
    decreases hs.len(),
{
    if hs.len() > 0 {
        let tail = hs.drop_first();
        lemma_vault_ix_props(tail, owner, mint);
        if !(hs[0].owner == owner && hs[0].mint == mint) {
            let tix = vault_ix(tail, owner, mint);
            if tix < 0 {
                assert forall|j: int| 0 <= j < hs.len() implies !((#[trigger] hs[j]).owner == owner
                    && hs[j].mint == mint) by {
                    if j > 0 {
                        assert(!(tail[j - 1].owner == owner && tail[j - 1].mint == mint));
                        assert(tail[j - 1] == hs[j]);
                    }
                }
            } else {
                assert(hs[1 + tix] == tail[tix]);
                assert forall|j: int| 0 <= j < 1 + tix implies !((#[trigger] hs[j]).owner == owner
                    && hs[j].mint == mint) by {
                    if j > 0 {
                        assert(!(tail[j - 1].owner == owner && tail[j - 1].mint == mint));
                        assert(tail[j - 1] == hs[j]);
                    }
                }
            }
        }
    }
}

pub proof fn lemma_locked_addr_ix_props(ls: Seq<LockedV>, addr: Seq<u8>)
    ensures
        locked_addr_ix(ls, addr) >= 0 ==> 0 <= locked_addr_ix(ls, addr) < ls.len()
            && ls[locked_addr_ix(ls, addr)].address == addr && (forall|j: int|
            0 <= j < locked_addr_ix(ls, addr) ==> (#[trigger] ls[j]).address != addr),
        locked_addr_ix(ls, addr) < 0 ==> (forall|j: int|
            0 <= j < ls.len() ==> (#[trigger] ls[j]).address != addr),
    decreases ls.len(),
{
    if ls.len() > 0 {
        let tail = ls.drop_first();
        lemma_locked_addr_ix_props(tail, addr);
        if ls[0].address != addr {
            let tix = locked_addr_ix(tail, addr);
            if tix < 0 {
                assert forall|j: int| 0 <= j < ls.len() implies (#[trigger] ls[j]).address
                    != addr by {
                    if j > 0 {
                        assert(tail[j - 1].address != addr);
                        assert(tail[j - 1] == ls[j]);
                    }
                }
            } else {
                assert(ls[1 + tix] == tail[tix]);
                assert forall|j: int| 0 <= j < 1 + tix implies (#[trigger] ls[j]).address
                    != addr by {
                    if j > 0 {
                        assert(tail[j - 1].address != addr);
                        assert(tail[j - 1] == ls[j]);
                    }
                }
            }
        }
    }
}

pub proof fn lemma_locked_key_ix_props(ls: Seq<LockedV>, authority: Seq<u8>, mint: Seq<u8>)
    ensures
        locked_key_ix(ls, authority, mint) >= 0 ==> 0 <= locked_key_ix(ls, authority, mint)
            < ls.len() && ls[locked_key_ix(ls, authority, mint)].authority == authority
            && ls[locked_key_ix(ls, authority, mint)].mint == mint && (forall|j: int|
            0 <= j < locked_key_ix(ls, authority, mint) ==> !((#[trigger] ls[j]).authority
                == authority && ls[j].mint == mint)),
        locked_key_ix(ls, authority, mint) < 0 ==> (forall|j: int|
            0 <= j < ls.len() ==> !((#[trigger] ls[j]).authority == authority && ls[j].mint
                == mint)),
    decreases ls.len(),
{
    if ls.len() > 0 {
        let tail = ls.drop_first();
        lemma_locked_key_ix_props(tail, authority, mint);
        if !(ls[0].authority == authority && ls[0].mint == mint) {
            let tix = locked_key_ix(tail, authority, mint);
            if tix < 0 {
                assert forall|j: int| 0 <= j < ls.len() implies !((#[trigger] ls[j]).authority
                    == authority && ls[j].mint == mint) by {
                    if j > 0 {
                        assert(!(tail[j - 1].authority == authority && tail[j - 1].mint == mint));
                        assert(tail[j - 1] == ls[j]);
                    }
                }
            } else {
                assert(ls[1 + tix] == tail[tix]);
                assert forall|j: int| 0 <= j < 1 + tix implies !((#[trigger] ls[j]).authority
                    == authority && ls[j].mint == mint) by {
                    if j > 0 {
                        assert(!(tail[j - 1].authority == authority && tail[j - 1].mint == mint));
                        assert(tail[j - 1] == ls[j]);
                    }
                }
            }
        }
    }
}

/// Two holding lists with the same owners and assets position for position
/// select the same vault holding.
pub proof fn lemma_vault_ix_same_keys(
    hs1: Seq<HoldingV>,
    hs2: Seq<HoldingV>,
    owner: Seq<u8>,
    mint: Seq<u8>,
)
    requires
        hs1.len() == hs2.len(),
        forall|i: int|
            0 <= i < hs1.len() ==> (#[trigger] hs1[i]).owner == hs2[i].owner && hs1[i].mint
                == hs2[i].mint,
    ensures
        vault_ix(hs1, owner, mint) == vault_ix(hs2, owner, mint),
    decreases hs1.len(),
{
    if hs1.len() > 0 {
        assert(hs1[0].owner == hs2[0].owner && hs1[0].mint == hs2[0].mint);
        assert forall|i: int| 0 <= i < hs1.drop_first().len() implies (#[trigger] hs1.drop_first()[i]).owner
            == hs2.drop_first()[i].owner && hs1.drop_first()[i].mint
            == hs2.drop_first()[i].mint by {
            assert(hs1[i + 1].owner == hs2[i + 1].owner && hs1[i + 1].mint == hs2[i + 1].mint);
            assert(hs1.drop_first()[i] == hs1[i + 1]);
            assert(hs2.drop_first()[i] == hs2[i + 1]);
        }
        lemma_vault_ix_same_keys(hs1.drop_first(), hs2.drop_first(), owner, mint);
    }
}

/// Appending a holding leaves the selected vault holding in place, or selects
/// the new one only when none was present and it matches.
pub proof fn lemma_vault_ix_push(hs: Seq<HoldingV>, h: HoldingV, owner: Seq<u8>, mint: Seq<u8>)
    ensures
        vault_ix(hs.push(h), owner, mint) == (if vault_ix(hs, owner, mint) >= 0 {
            vault_ix(hs, owner, mint)
        } else if h.owner == owner && h.mint == mint {
            hs.len() as int
        } else {
            -1
        }),
    decreases hs.len(),
{
    if hs.len() == 0 {
        assert(hs.push(h)[0] == h);
        assert(hs.push(h).drop_first() =~= Seq::<HoldingV>::empty());
        assert(vault_ix(Seq::<HoldingV>::empty(), owner, mint) == -1);
    } else {
        assert(hs.push(h)[0] == hs[0]);
        assert(hs.push(h).drop_first() =~= hs.drop_first().push(h));
        lemma_vault_ix_push(hs.drop_first(), h, owner, mint);
    }
}

/// Two holding lists with the same addresses position for position locate
/// every address at the same index.
pub proof fn lemma_holding_ix_same_addrs(hs1: Seq<HoldingV>, hs2: Seq<HoldingV>, addr: Seq<u8>)
    requires
        hs1.len() == hs2.len(),
        forall|i: int| 0 <= i < hs1.len() ==> (#[trigger] hs1[i]).address == hs2[i].address,
    ensures
        holding_ix(hs1, addr) == holding_ix(hs2, addr),
    decreases hs1.len(),
{
    if hs1.len() > 0 {
        assert(hs1[0].address == hs2[0].address);
        assert forall|i: int| 0 <= i < hs1.drop_first().len() implies (
        #[trigger] hs1.drop_first()[i]).address == hs2.drop_first()[i].address by {
            assert(hs1[i + 1].address == hs2[i + 1].address);
            assert(hs1.drop_first()[i] == hs1[i + 1]);
            assert(hs2.drop_first()[i] == hs2[i + 1]);
        }
        lemma_holding_ix_same_addrs(hs1.drop_first(), hs2.drop_first(), addr);
    }
}

/// Two locked lists with the same addresses position for position locate
/// every address at the same index.
pub proof fn lemma_locked_addr_ix_same_addrs(ls1: Seq<LockedV>, ls2: Seq<LockedV>, addr: Seq<u8>)
    requires
        ls1.len() == ls2.len(),
        forall|i: int| 0 <= i < ls1.len() ==> (#[trigger] ls1[i]).address == ls2[i].address,
    ensures
        locked_addr_ix(ls1, addr) == locked_addr_ix(ls2, addr),
    decreases ls1.len(),
{
    if ls1.len() > 0 {
        assert(ls1[0].address == ls2[0].address);
        assert forall|i: int| 0 <= i < ls1.drop_first().len() implies (
        #[trigger] ls1.drop_first()[i]).address == ls2.drop_first()[i].address by {
            assert(ls1[i + 1].address == ls2[i + 1].address);
            assert(ls1.drop_first()[i] == ls1[i + 1]);
            assert(ls2.drop_first()[i] == ls2[i + 1]);
        }
        lemma_locked_addr_ix_same_addrs(ls1.drop_first(), ls2.drop_first(), addr);
    }
}

/// Two locked lists with the same authorities and assets position for
/// position locate every (user, asset) record at the same index.
pub proof fn lemma_locked_key_ix_same_keys(
    ls1: Seq<LockedV>,
    ls2: Seq<LockedV>,
    authority: Seq<u8>,
    mint: Seq<u8>,
)
    requires
        ls1.len() == ls2.len(),
        forall|i: int|
            0 <= i < ls1.len() ==> (#[trigger] ls1[i]).authority == ls2[i].authority && ls1[i].mint
                == ls2[i].mint,
    ensures
        locked_key_ix(ls1, authority, mint) == locked_key_ix(ls2, authority, mint),
    decreases ls1.len(),
{
    if ls1.len() > 0 {
        assert(ls1[0].authority == ls2[0].authority && ls1[0].mint == ls2[0].mint);
        assert forall|i: int| 0 <= i < ls1.drop_first().len() implies (
        #[trigger] ls1.drop_first()[i]).authority == ls2.drop_first()[i].authority
            && ls1.drop_first()[i].mint == ls2.drop_first()[i].mint by {
            assert(ls1[i + 1].authority == ls2[i + 1].authority && ls1[i + 1].mint == ls2[i
                + 1].mint);
            assert(ls1.drop_first()[i] == ls1[i + 1]);
            assert(ls2.drop_first()[i] == ls2[i + 1]);
        }
        lemma_locked_key_ix_same_keys(ls1.drop_first(), ls2.drop_first(), authority, mint);
    }
}

/// Appending a locked record leaves the selected (user, asset) record in
/// place, or selects the new one only when none was present and it matches.
pub proof fn lemma_locked_key_ix_push(
    ls: Seq<LockedV>,
    l: LockedV,
    authority: Seq<u8>,
    mint: Seq<u8>,
)
    ensures
        locked_key_ix(ls.push(l), authority, mint) == (if locked_key_ix(ls, authority, mint)
            >= 0 {
            locked_key_ix(ls, authority, mint)
        } else if l.authority == authority && l.mint == mint {
            ls.len() as int
        } else {
            -1
        }),
    decreases ls.len(),
{
    if ls.len() == 0 {
        assert(ls.push(l)[0] == l);
        assert(ls.push(l).drop_first() =~= Seq::<LockedV>::empty());
        assert(locked_key_ix(Seq::<LockedV>::empty(), authority, mint) == -1);
    } else {
        assert(ls.push(l)[0] == ls[0]);
        assert(ls.push(l).drop_first() =~= ls.drop_first().push(l));
        lemma_locked_key_ix_push(ls.drop_first(), l, authority, mint);
    }
}

pub proof fn lemma_sum_locked_nonneg(ls: Seq<LockedV>, mint: Seq<u8>)
    ensures
        sum_locked(ls, mint) >= 0,
    decreases ls.len(),
{
    if ls.len() > 0 {
        lemma_sum_locked_nonneg(ls.drop_first(), mint);
    }
}

/// Replacing one record changes the per-asset sum by exactly the change in
/// that record's contribution.
pub proof fn lemma_sum_locked_update(ls: Seq<LockedV>, k: int, l: LockedV, mint: Seq<u8>)
    requires
        0 <= k < ls.len(),
    ensures
        sum_locked(ls.update(k, l), mint) == sum_locked(ls, mint) - (if ls[k].mint == mint {
            ls[k].amount as int
        } else {
            0
        }) + (if l.mint == mint {
            l.amount as int
        } else {
            0
        }),
    decreases ls.len(),
{
    assert(ls.update(k, l).len() == ls.len());
    if k == 0 {
        assert(ls.update(0, l)[0] == l);
        assert(ls.update(0, l).drop_first() =~= ls.drop_first());
    } else {
        assert(ls.update(k, l)[0] == ls[0]);
        assert(ls.update(k, l).drop_first() =~= ls.drop_first().update(k - 1, l));
        assert(ls.drop_first()[k - 1] == ls[k]);
        lemma_sum_locked_update(ls.drop_first(), k - 1, l, mint);
    }
}

/// Appending a record adds exactly its contribution to the per-asset sum.
pub proof fn lemma_sum_locked_push(ls: Seq<LockedV>, l: LockedV, mint: Seq<u8>)
    ensures
        sum_locked(ls.push(l), mint) == sum_locked(ls, mint) + (if l.mint == mint {
            l.amount as int
        } else {
            0
        }),
    decreases ls.len(),
{
    assert(ls.push(l).len() == ls.len() + 1);
    if ls.len() == 0 {
        assert(ls.push(l)[0] == l);
        assert(ls.push(l).drop_first() =~= Seq::<LockedV>::empty());
        assert(sum_locked(Seq::<LockedV>::empty(), mint) == 0);
    } else {
        assert(ls.push(l)[0] == ls[0]);
        assert(ls.push(l).drop_first() =~= ls.drop_first().push(l));
        lemma_sum_locked_push(ls.drop_first(), l, mint);
    }
}

/// Each record's amount is at most the per-asset sum it contributes to.
pub proof fn lemma_sum_locked_ge_elem(ls: Seq<LockedV>, k: int, mint: Seq<u8>)
    requires
        0 <= k < ls.len(),
        ls[k].mint == mint,
    ensures
        sum_locked(ls, mint) >= ls[k].amount,
    decreases ls.len(),
{
    lemma_sum_locked_nonneg(ls.drop_first(), mint);
    if k > 0 {
        assert(ls.drop_first()[k - 1] == ls[k]);
        lemma_sum_locked_ge_elem(ls.drop_first(), k - 1, mint);
    }
}

} // verus!
