//! The mathematical model of the balance table.
//!
//! A balance table is a sequence of [`BalanceEntry`] rows.  A key
//! `(owner, tao, token)` is read at its first matching row and is absent
//! when no row matches; an absent key reads as zero.  The spec functions
//! here define lookup ([`bal_of`]), update ([`set_bal`]) and the per-pair
//! total supply ([`pair_total`]), together with the lemmas that relate
//! them.

use vstd::prelude::*;

verus! {

/// One row of the balance table: `(owner, tao, token)` holds `amount`.
#[derive(Clone, Copy, PartialEq, Eq, Structural, Debug)]
pub struct BalanceEntry {
    pub owner: u64,
    pub tao: u64,
    pub token: u64,
    pub amount: u128,
}

/// Does the row carry the key `(owner, tao, token)`?
pub open spec fn key_matches(e: BalanceEntry, owner: u64, tao: u64, token: u64) -> bool {
    e.owner == owner && e.tao == tao && e.token == token
}

/// Index of the first row for the key, or `-1` when the key is absent.
pub open spec fn idx_of(s: Seq<BalanceEntry>, owner: u64, tao: u64, token: u64) -> int
    decreases s.len(),
{
    if s.len() == 0 {
        -1
    } else if key_matches(s[0], owner, tao, token) {
        0
    } else if idx_of(s.drop_first(), owner, tao, token) == -1 {
        -1
    } else {
        idx_of(s.drop_first(), owner, tao, token) + 1
    }
}

/// The balance recorded for the key; an absent key reads as zero.
pub open spec fn bal_of(s: Seq<BalanceEntry>, owner: u64, tao: u64, token: u64) -> u128 {
    if idx_of(s, owner, tao, token) == -1 {
        0
    } else {
        s[idx_of(s, owner, tao, token)].amount
    }
}

/// The table after writing `amount` for the key: the first matching row is
/// replaced, or a fresh row is appended when the key is absent.
pub open spec fn set_bal(
    s: Seq<BalanceEntry>,
    owner: u64,
    tao: u64,
    token: u64,
    amount: u128,
) -> Seq<BalanceEntry> {
    let e = BalanceEntry { owner, tao, token, amount };
    if idx_of(s, owner, tao, token) == -1 {
        s.push(e)
    } else {
        s.update(idx_of(s, owner, tao, token), e)
    }
}

/// What one row contributes to the total supply of `(tao, token)`.
pub open spec fn pair_part(e: BalanceEntry, tao: u64, token: u64) -> int {
    if e.tao == tao && e.token == token {
        e.amount as int
    } else {
        0
    }
}

/// The sum of all balances held under the pair `(tao, token)`.
pub open spec fn pair_total(s: Seq<BalanceEntry>, tao: u64, token: u64) -> int
    decreases s.len(),
{
    if s.len() == 0 {
        0
    } else {
        pair_total(s.drop_last(), tao, token) + pair_part(s.last(), tao, token)
    }
}

/// No two rows of the table carry the same key.
pub open spec fn unique_keys(s: Seq<BalanceEntry>) -> bool {
    forall|i: int, j: int|
        0 <= i < j < s.len() ==> !((#[trigger] s[i]).owner == (#[trigger] s[j]).owner
            && s[i].tao == s[j].tao && s[i].token == s[j].token)
}

/// `idx_of` finds a matching row when one exists, and the earliest one.
pub proof fn lemma_idx_of(s: Seq<BalanceEntry>, owner: u64, tao: u64, token: u64)
    ensures
        idx_of(s, owner, tao, token) == -1 ==> forall|i: int|
            0 <= i < s.len() ==> !key_matches(#[trigger] s[i], owner, tao, token),
        idx_of(s, owner, tao, token) != -1 ==> 0 <= idx_of(s, owner, tao, token) < s.len()
            && key_matches(s[idx_of(s, owner, tao, token)], owner, tao, token) && forall|i: int|
            0 <= i < idx_of(s, owner, tao, token) ==> !key_matches(
                #[trigger] s[i],
                owner,
                tao,
                token,
            ),
    decreases s.len(),
{
    if s.len() != 0 && !key_matches(s[0], owner, tao, token) {
        let sdf = s.drop_first();
        lemma_idx_of(sdf, owner, tao, token);
        if idx_of(sdf, owner, tao, token) == -1 {
            assert forall|i: int| 0 <= i < s.len() implies !key_matches(
                #[trigger] s[i],
                owner,
                tao,
                token,
            ) by {
                if i >= 1 {
                    assert(sdf[i - 1] == s[i]);
                }
            }
        } else {
            let k = idx_of(sdf, owner, tao, token);
            assert(sdf[k] == s[k + 1]);
            assert forall|i: int| 0 <= i < k + 1 implies !key_matches(
                #[trigger] s[i],
                owner,
                tao,
                token,
            ) by {
                if i >= 1 {
                    assert(sdf[i - 1] == s[i]);
                }
            }
        }
    }
}

/// The first matching row is exactly what `idx_of` returns.
pub proof fn lemma_idx_of_first_match(
    s: Seq<BalanceEntry>,
    owner: u64,
    tao: u64,
    token: u64,
    k: int,
)
    requires
        0 <= k < s.len(),
        key_matches(s[k], owner, tao, token),
        forall|i: int| 0 <= i < k ==> !key_matches(#[trigger] s[i], owner, tao, token),
    ensures
        idx_of(s, owner, tao, token) == k,
    decreases s.len(),
{
    if k > 0 {
        let sdf = s.drop_first();
        assert(sdf[k - 1] == s[k]);
        assert forall|i: int| 0 <= i < k - 1 implies !key_matches(
            #[trigger] sdf[i],
            owner,
            tao,
            token,
        ) by {
            assert(sdf[i] == s[i + 1]);
        }
        lemma_idx_of_first_match(sdf, owner, tao, token, k - 1);
    }
}

/// `idx_of` reads only the key fields: tables that agree on every key
/// agree on every index.
pub proof fn lemma_idx_of_same_keys(
    s1: Seq<BalanceEntry>,
    s2: Seq<BalanceEntry>,
    owner: u64,
    tao: u64,
    token: u64,
)
    requires
        s1.len() == s2.len(),
        forall|i: int|
            0 <= i < s1.len() ==> (#[trigger] s1[i]).owner == (#[trigger] s2[i]).owner
                && s1[i].tao == s2[i].tao && s1[i].token == s2[i].token,
    ensures
        idx_of(s1, owner, tao, token) == idx_of(s2, owner, tao, token),
    decreases s1.len(),
{
    if s1.len() != 0 {
        let d1 = s1.drop_first();
        let d2 = s2.drop_first();
        assert forall|i: int|
            0 <= i < d1.len() implies (#[trigger] d1[i]).owner == (#[trigger] d2[i]).owner
            && d1[i].tao == d2[i].tao && d1[i].token == d2[i].token by {
            assert(d1[i] == s1[i + 1]);
            assert(d2[i] == s2[i + 1]);
        }
        lemma_idx_of_same_keys(d1, d2, owner, tao, token);
        assert(key_matches(s1[0], owner, tao, token) == key_matches(s2[0], owner, tao, token));
    }
}

/// Writing one key changes exactly that key's balance and no other.
pub proof fn lemma_set_bal_bal(s: Seq<BalanceEntry>, owner: u64, tao: u64, token: u64, amount: u128)
    ensures
        forall|o2: u64, c2: u64, t2: u64|
            #[trigger] bal_of(set_bal(s, owner, tao, token, amount), o2, c2, t2) == if o2 == owner
                && c2 == tao && t2 == token {
                amount
            } else {
                bal_of(s, o2, c2, t2)
            },
{
    let e = BalanceEntry { owner, tao, token, amount };
    let s2 = set_bal(s, owner, tao, token, amount);
    lemma_idx_of(s, owner, tao, token);
    assert forall|o2: u64, c2: u64, t2: u64|
        #[trigger] bal_of(s2, o2, c2, t2) == if o2 == owner && c2 == tao && t2 == token {
            amount
        } else {
            bal_of(s, o2, c2, t2)
        } by {
        lemma_idx_of(s, o2, c2, t2);
        if idx_of(s, owner, tao, token) == -1 {
            // the fresh row sits at the end of the table
            if o2 == owner && c2 == tao && t2 == token {
                lemma_idx_of_first_match(s2, o2, c2, t2, s.len() as int);
            } else {
                let j = idx_of(s, o2, c2, t2);
                if j == -1 {
                    lemma_idx_of(s2, o2, c2, t2);
                } else {
                    lemma_idx_of_first_match(s2, o2, c2, t2, j);
                }
            }
        } else {
            // an existing row is replaced by one with the same key
            let k = idx_of(s, owner, tao, token);
            lemma_idx_of_same_keys(s, s2, o2, c2, t2);
            let j = idx_of(s, o2, c2, t2);
            if !(o2 == owner && c2 == tao && t2 == token) && j != -1 {
                assert(j != k);
            }
        }
    }
}

/// Replacing the row at `i` shifts each pair's total by the difference of
/// the two rows' contributions.
pub proof fn lemma_pair_total_update(
    s: Seq<BalanceEntry>,
    i: int,
    e: BalanceEntry,
    tao: u64,
    token: u64,
)
    requires
        0 <= i < s.len(),
    ensures
        pair_total(s.update(i, e), tao, token) == pair_total(s, tao, token) - pair_part(
            s[i],
            tao,
            token,
        ) + pair_part(e, tao, token),
    decreases s.len(),
{
    if i == s.len() - 1 {
        assert(s.update(i, e).drop_last() =~= s.drop_last());
    } else {
        assert(s.update(i, e).drop_last() =~= s.drop_last().update(i, e));
        lemma_pair_total_update(s.drop_last(), i, e, tao, token);
    }
}

/// Appending a row adds its contribution to each pair's total.
pub proof fn lemma_pair_total_push(s: Seq<BalanceEntry>, e: BalanceEntry, tao: u64, token: u64)
    ensures
        pair_total(s.push(e), tao, token) == pair_total(s, tao, token) + pair_part(e, tao, token),
{
    assert(s.push(e).drop_last() =~= s);
}

/// Writing `amount` for a key moves that key's pair total from the old
/// balance to `amount` and leaves every other pair's total alone.
pub proof fn lemma_set_bal_total(
    s: Seq<BalanceEntry>,
    owner: u64,
    tao: u64,
    token: u64,
    amount: u128,
)
    ensures
        forall|c2: u64, t2: u64|
            #[trigger] pair_total(set_bal(s, owner, tao, token, amount), c2, t2) == pair_total(
                s,
                c2,
                t2,
            ) + if c2 == tao && t2 == token {
                amount as int - bal_of(s, owner, tao, token) as int
            } else {
                0
            },
{
    let e = BalanceEntry { owner, tao, token, amount };
    lemma_idx_of(s, owner, tao, token);
    assert forall|c2: u64, t2: u64|
        #[trigger] pair_total(set_bal(s, owner, tao, token, amount), c2, t2) == pair_total(
            s,
            c2,
            t2,
        ) + if c2 == tao && t2 == token {
            amount as int - bal_of(s, owner, tao, token) as int
        } else {
            0
        } by {
        if idx_of(s, owner, tao, token) == -1 {
            lemma_pair_total_push(s, e, c2, t2);
        } else {
            lemma_pair_total_update(s, idx_of(s, owner, tao, token), e, c2, t2);
        }
    }
}

/// Writing a key never introduces a duplicate key.
pub proof fn lemma_set_bal_unique(
    s: Seq<BalanceEntry>,
    owner: u64,
    tao: u64,
    token: u64,
    amount: u128,
)
    requires
        unique_keys(s),
    ensures
        unique_keys(set_bal(s, owner, tao, token, amount)),
{
    lemma_idx_of(s, owner, tao, token);
}

} // verus!
