//! The mathematical model of the operator-approval table.
//!
//! An approval table is a sequence of [`ApprovalRecord`] rows.  The flag
//! for a pair `(owner, operator)` is read at its first matching row; a
//! pair with no row reads as `false`, so clearing an approval and never
//! having granted one are indistinguishable.

use vstd::prelude::*;

verus! {

/// One row of the approval table: `operator` may act for `owner` iff
/// `approved` holds.
#[derive(Clone, Copy, PartialEq, Eq, Structural, Debug)]
pub struct ApprovalRecord {
    pub owner: u64,
    pub operator: u64,
    pub approved: bool,
}

/// Does the row carry the pair `(owner, operator)`?
pub open spec fn apr_matches(e: ApprovalRecord, owner: u64, operator: u64) -> bool {
    e.owner == owner && e.operator == operator
}

/// Index of the first row for the pair, or `-1` when the pair is absent.
pub open spec fn apr_idx_of(s: Seq<ApprovalRecord>, owner: u64, operator: u64) -> int
    decreases s.len(),
{
    if s.len() == 0 {
        -1
    } else if apr_matches(s[0], owner, operator) {
        0
    } else if apr_idx_of(s.drop_first(), owner, operator) == -1 {
        -1
    } else {
        apr_idx_of(s.drop_first(), owner, operator) + 1
    }
}

/// The approval flag recorded for the pair; an absent pair reads as
/// `false`.
pub open spec fn approval_of(s: Seq<ApprovalRecord>, owner: u64, operator: u64) -> bool {
    if apr_idx_of(s, owner, operator) == -1 {
        false
    } else {
        s[apr_idx_of(s, owner, operator)].approved
    }
}

/// The table after writing `approved` for the pair: the first matching
/// row is replaced, or a fresh row is appended when the pair is absent.
pub open spec fn set_approval_seq(
    s: Seq<ApprovalRecord>,
    owner: u64,
    operator: u64,
    approved: bool,
) -> Seq<ApprovalRecord> {
    let e = ApprovalRecord { owner, operator, approved };
    if apr_idx_of(s, owner, operator) == -1 {
        s.push(e)
    } else {
        s.update(apr_idx_of(s, owner, operator), e)
    }
}

/// `apr_idx_of` finds a matching row when one exists, and the earliest
/// one.
pub proof fn lemma_apr_idx_of(s: Seq<ApprovalRecord>, owner: u64, operator: u64)
    ensures
        apr_idx_of(s, owner, operator) == -1 ==> forall|i: int|
            0 <= i < s.len() ==> !apr_matches(#[trigger] s[i], owner, operator),
        apr_idx_of(s, owner, operator) != -1 ==> 0 <= apr_idx_of(s, owner, operator) < s.len()
            && apr_matches(s[apr_idx_of(s, owner, operator)], owner, operator) && forall|i: int|
            0 <= i < apr_idx_of(s, owner, operator) ==> !apr_matches(
                #[trigger] s[i],
                owner,
                operator,
            ),
    decreases s.len(),
{
    if s.len() != 0 && !apr_matches(s[0], owner, operator) {
        let sdf = s.drop_first();
        lemma_apr_idx_of(sdf, owner, operator);
        if apr_idx_of(sdf, owner, operator) == -1 {
            assert forall|i: int| 0 <= i < s.len() implies !apr_matches(
                #[trigger] s[i],
                owner,
                operator,
            ) by {
                if i >= 1 {
                    assert(sdf[i - 1] == s[i]);
                }
            }
        } else {
            let k = apr_idx_of(sdf, owner, operator);
            assert(sdf[k] == s[k + 1]);
            assert forall|i: int| 0 <= i < k + 1 implies !apr_matches(
                #[trigger] s[i],
                owner,
                operator,
            ) by {
                if i >= 1 {
                    assert(sdf[i - 1] == s[i]);
                }
            }
        }
    }
}

/// The first matching row is exactly what `apr_idx_of` returns.
pub proof fn lemma_apr_idx_of_first_match(
    s: Seq<ApprovalRecord>,
    owner: u64,
    operator: u64,
    k: int,
)
    requires
        0 <= k < s.len(),
        apr_matches(s[k], owner, operator),
        forall|i: int| 0 <= i < k ==> !apr_matches(#[trigger] s[i], owner, operator),
    ensures
        apr_idx_of(s, owner, operator) == k,
    decreases s.len(),
{
    if k > 0 {
        let sdf = s.drop_first();
        assert(sdf[k - 1] == s[k]);
        assert forall|i: int| 0 <= i < k - 1 implies !apr_matches(
            #[trigger] sdf[i],
            owner,
            operator,
        ) by {
            assert(sdf[i] == s[i + 1]);
        }
        lemma_apr_idx_of_first_match(sdf, owner, operator, k - 1);
    }
}

/// `apr_idx_of` reads only the pair fields: tables that agree on every
/// pair agree on every index.
pub proof fn lemma_apr_idx_of_same_keys(
    s1: Seq<ApprovalRecord>,
    s2: Seq<ApprovalRecord>,
    owner: u64,
    operator: u64,
)
    requires
        s1.len() == s2.len(),
        forall|i: int|
            0 <= i < s1.len() ==> (#[trigger] s1[i]).owner == (#[trigger] s2[i]).owner
                && s1[i].operator == s2[i].operator,
    ensures
        apr_idx_of(s1, owner, operator) == apr_idx_of(s2, owner, operator),
    decreases s1.len(),
{
    if s1.len() != 0 {
        let d1 = s1.drop_first();
        let d2 = s2.drop_first();
        assert forall|i: int|
            0 <= i < d1.len() implies (#[trigger] d1[i]).owner == (#[trigger] d2[i]).owner
            && d1[i].operator == d2[i].operator by {
            assert(d1[i] == s1[i + 1]);
            assert(d2[i] == s2[i + 1]);
        }
        lemma_apr_idx_of_same_keys(d1, d2, owner, operator);
        assert(apr_matches(s1[0], owner, operator) == apr_matches(s2[0], owner, operator));
    }
}

/// Writing one pair changes exactly that pair's flag and no other.
pub proof fn lemma_set_approval(s: Seq<ApprovalRecord>, owner: u64, operator: u64, approved: bool)
    ensures
        forall|o2: u64, p2: u64|
            #[trigger] approval_of(set_approval_seq(s, owner, operator, approved), o2, p2)
                == if o2 == owner && p2 == operator {
                approved
            } else {
                approval_of(s, o2, p2)
            },
{
    let s2 = set_approval_seq(s, owner, operator, approved);
    lemma_apr_idx_of(s, owner, operator);
    assert forall|o2: u64, p2: u64|
        #[trigger] approval_of(s2, o2, p2) == if o2 == owner && p2 == operator {
            approved
        } else {
            approval_of(s, o2, p2)
        } by {
        lemma_apr_idx_of(s, o2, p2);
        if apr_idx_of(s, owner, operator) == -1 {
            if o2 == owner && p2 == operator {
                lemma_apr_idx_of_first_match(s2, o2, p2, s.len() as int);
            } else {
                let j = apr_idx_of(s, o2, p2);
                if j == -1 {
                    lemma_apr_idx_of(s2, o2, p2);
                } else {
                    lemma_apr_idx_of_first_match(s2, o2, p2, j);
                }
            }
        } else {
            let k = apr_idx_of(s, owner, operator);
            lemma_apr_idx_of_same_keys(s, s2, o2, p2);
            let j = apr_idx_of(s, o2, p2);
            if !(o2 == owner && p2 == operator) && j != -1 {
                assert(j != k);
            }
        }
    }
}

} // verus!
