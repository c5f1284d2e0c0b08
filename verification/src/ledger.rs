//! The multi-token ledger.
//!
//! A [`Ledger`] keeps a registry of collections ("taos") and of token
//! types scoped to a collection, a table of per-owner balances keyed by
//! `(owner, tao, token)`, and a table of blanket operator approvals.
//! Every operation is total over its abstract view [`LedgerView`]: it
//! either commits and its effect is stated exactly, or it fails with a
//! typed [`LedgerError`] and leaves the view untouched.

use vstd::pervasive::VecAdditionalExecFns;
use vstd::prelude::*;

use crate::approval::{
    apr_idx_of, apr_matches, approval_of, lemma_apr_idx_of, lemma_apr_idx_of_first_match,
    lemma_set_approval, set_approval_seq, ApprovalRecord,
};
use crate::model::{
    bal_of, key_matches, lemma_idx_of, lemma_idx_of_first_match, lemma_set_bal_bal,
    lemma_set_bal_total, lemma_set_bal_unique, pair_total, set_bal, unique_keys, BalanceEntry,
};

verus! {

/// An account address.  The ledger never inspects an address beyond
/// comparing it for equality, so a plain numeric identifier stands for
/// the host chain's opaque address type.
pub type AccountId = u64;

/// A collection ("tao") identifier.
pub type TaoId = u64;

/// A token-type identifier, always scoped to one collection.
pub type TokenId = u64;

/// A balance amount.
pub type Balance = u128;

/// The typed, recoverable failures of the ledger.  Every failing
/// operation returns one of these and leaves the ledger unchanged.
#[derive(Clone, Copy, PartialEq, Eq, Structural, Debug)]
pub enum LedgerError {
    /// A collection identifier is not registered.
    CollectionNotFound,
    /// A token is not registered under the named collection.
    InvalidToken,
    /// A burn or transfer asks for more than the owner holds.
    InsufficientBalance,
    /// The caller is neither the owner nor an approved operator.
    NotAuthorized,
    /// Parallel input sequences differ in length.
    LengthMismatch,
}

/// A registered collection: its identifier and the opaque bytes supplied
/// at creation.
pub struct TaoRecord {
    pub id: u64,
    pub data: Vec<u8>,
}

/// A registered token type: its identifier and the collection it is
/// scoped to.
#[derive(Clone, Copy, PartialEq, Eq, Structural, Debug)]
pub struct TokenRecord {
    pub tao: u64,
    pub token: u64,
}

/// The abstract state of a ledger: what every contract is stated over.
#[verifier::ext_equal]
pub struct LedgerView {
    /// The next collection identifier to hand out.
    pub next_tao: u64,
    /// The next token identifier to hand out.
    pub next_token: u64,
    /// Registered collections, each with its opaque creation data.
    pub taos: Map<u64, Seq<u8>>,
    /// Registered `(collection, token)` pairs.
    pub tokens: Set<(u64, u64)>,
    /// Pairs `(owner, operator)` whose blanket approval is in force.
    pub approved: Set<(u64, u64)>,
    /// The balance table, row by row.
    pub balances: Seq<BalanceEntry>,
}

/// The collection registry as a map from identifier to creation data.
pub open spec fn taos_map(s: Seq<TaoRecord>) -> Map<u64, Seq<u8>>
    decreases s.len(),
{
    if s.len() == 0 {
        Map::empty()
    } else {
        taos_map(s.drop_last()).insert(s.last().id, s.last().data@)
    }
}

/// The token registry as a set of `(collection, token)` pairs.
pub open spec fn token_set(s: Seq<TokenRecord>) -> Set<(u64, u64)>
    decreases s.len(),
{
    if s.len() == 0 {
        Set::empty()
    } else {
        token_set(s.drop_last()).insert((s.last().tao, s.last().token))
    }
}

/// A collection identifier is registered exactly when some record
/// carries it.
pub proof fn lemma_taos_map_dom(s: Seq<TaoRecord>, id: u64)
    ensures
        taos_map(s).dom().contains(id) <==> exists|i: int|
            0 <= i < s.len() && (#[trigger] s[i]).id == id,
    decreases s.len(),
{
    if s.len() != 0 {
        lemma_taos_map_dom(s.drop_last(), id);
        assert(forall|i: int| 0 <= i < s.len() - 1 ==> #[trigger] s.drop_last()[i] == s[i]);
        if taos_map(s).dom().contains(id) {
            if s.last().id == id {
                assert(s[s.len() - 1].id == id);
            }
        }
        if exists|i: int| 0 <= i < s.len() && (#[trigger] s[i]).id == id {
            let i = choose|i: int| 0 <= i < s.len() && (#[trigger] s[i]).id == id;
            if i < s.len() - 1 {
                assert(s.drop_last()[i].id == id);
            }
        }
    }
}

/// A `(collection, token)` pair is registered exactly when some record
/// carries it.
pub proof fn lemma_token_set_mem(s: Seq<TokenRecord>, tao: u64, token: u64)
    ensures
        token_set(s).contains((tao, token)) <==> exists|i: int|
            0 <= i < s.len() && (#[trigger] s[i]).tao == tao && s[i].token == token,
    decreases s.len(),
{
    if s.len() != 0 {
        lemma_token_set_mem(s.drop_last(), tao, token);
        assert(forall|i: int| 0 <= i < s.len() - 1 ==> #[trigger] s.drop_last()[i] == s[i]);
        if token_set(s).contains((tao, token)) {
            if s.last().tao == tao && s.last().token == token {
                assert(s[s.len() - 1].tao == tao && s[s.len() - 1].token == token);
            }
        }
        if exists|i: int| 0 <= i < s.len() && (#[trigger] s[i]).tao == tao && s[i].token == token {
            let i = choose|i: int|
                0 <= i < s.len() && (#[trigger] s[i]).tao == tao && s[i].token == token;
            if i < s.len() - 1 {
                assert(s.drop_last()[i].tao == tao && s.drop_last()[i].token == token);
            }
        }
    }
}

/// Is `caller` allowed to move `owner`'s balances?  An owner is always
/// allowed; anyone else needs a blanket approval from the owner.
pub open spec fn spec_approved_or_owner(v: LedgerView, caller: u64, owner: u64) -> bool {
    caller == owner || v.approved.contains((owner, caller))
}

/// The outcome of a single mint on the abstract state.
pub open spec fn mint_result(
    v: LedgerView,
    to: u64,
    tao: u64,
    token: u64,
    amount: u128,
) -> Result<LedgerView, LedgerError> {
    if !v.tokens.contains((tao, token)) {
        Err(LedgerError::InvalidToken)
    } else {
        Ok(
            LedgerView {
                balances: set_bal(
                    v.balances,
                    to,
                    tao,
                    token,
                    (bal_of(v.balances, to, tao, token) + amount) as u128,
                ),
                ..v
            },
        )
    }
}

/// The outcome of a single burn on the abstract state.
pub open spec fn burn_result(
    v: LedgerView,
    from: u64,
    tao: u64,
    token: u64,
    amount: u128,
) -> Result<LedgerView, LedgerError> {
    if bal_of(v.balances, from, tao, token) < amount {
        Err(LedgerError::InsufficientBalance)
    } else {
        Ok(
            LedgerView {
                balances: set_bal(
                    v.balances,
                    from,
                    tao,
                    token,
                    (bal_of(v.balances, from, tao, token) - amount) as u128,
                ),
                ..v
            },
        )
    }
}

/// The outcome of a single transfer on the abstract state: the caller
/// must be owner-or-approved, the source balance must suffice, and the
/// moved amount leaves the source and reaches the destination in one
/// step.
pub open spec fn transfer_result(
    v: LedgerView,
    caller: u64,
    from: u64,
    to: u64,
    tao: u64,
    token: u64,
    amount: u128,
) -> Result<LedgerView, LedgerError> {
    if !spec_approved_or_owner(v, caller, from) {
        Err(LedgerError::NotAuthorized)
    } else if bal_of(v.balances, from, tao, token) < amount {
        Err(LedgerError::InsufficientBalance)
    } else {
        let b1 = set_bal(
            v.balances,
            from,
            tao,
            token,
            (bal_of(v.balances, from, tao, token) - amount) as u128,
        );
        let b2 = set_bal(b1, to, tao, token, (bal_of(b1, to, tao, token) + amount) as u128);
        Ok(LedgerView { balances: b2, ..v })
    }
}

/// Does one mint stay within the machine's balance range?  Minting can
/// only overflow when the token is registered, since it fails first
/// otherwise.
pub open spec fn mint_fits(v: LedgerView, to: u64, tao: u64, token: u64, amount: u128) -> bool {
    v.tokens.contains((tao, token)) ==> bal_of(v.balances, to, tao, token) + amount <= u128::MAX
}

/// Does every step of a mint batch, run in order, stay within the
/// machine's balance range?
pub open spec fn mints_fit(
    v: LedgerView,
    to: u64,
    tao: u64,
    tokens: Seq<u64>,
    amounts: Seq<u128>,
) -> bool
    decreases tokens.len(),
{
    tokens.len() > 0 ==> (mint_fits(v, to, tao, tokens[0], amounts[0]) && (match mint_result(
        v,
        to,
        tao,
        tokens[0],
        amounts[0],
    ) {
        Ok(v2) => mints_fit(v2, to, tao, tokens.drop_first(), amounts.drop_first()),
        Err(_) => true,
    }))
}

/// The outcome of a mint batch: each element applied in sequence order,
/// stopping at the first failure.
pub open spec fn run_mints(
    v: LedgerView,
    to: u64,
    tao: u64,
    tokens: Seq<u64>,
    amounts: Seq<u128>,
) -> Result<LedgerView, LedgerError>
    decreases tokens.len(),
{
    if tokens.len() == 0 {
        Ok(v)
    } else {
        match mint_result(v, to, tao, tokens[0], amounts[0]) {
            Ok(v2) => run_mints(v2, to, tao, tokens.drop_first(), amounts.drop_first()),
            Err(e) => Err(e),
        }
    }
}

/// The outcome of a burn batch: each element applied in sequence order,
/// stopping at the first failure.
pub open spec fn run_burns(
    v: LedgerView,
    from: u64,
    tao: u64,
    tokens: Seq<u64>,
    amounts: Seq<u128>,
) -> Result<LedgerView, LedgerError>
    decreases tokens.len(),
{
    if tokens.len() == 0 {
        Ok(v)
    } else {
        match burn_result(v, from, tao, tokens[0], amounts[0]) {
            Ok(v2) => run_burns(v2, from, tao, tokens.drop_first(), amounts.drop_first()),
            Err(e) => Err(e),
        }
    }
}

/// Does one transfer stay within the machine's balance range?  Only a
/// transfer that will actually move value to a different owner can
/// overflow the destination.
pub open spec fn transfer_fits(
    v: LedgerView,
    caller: u64,
    from: u64,
    to: u64,
    tao: u64,
    token: u64,
    amount: u128,
) -> bool {
    (spec_approved_or_owner(v, caller, from) && bal_of(v.balances, from, tao, token) >= amount
        && from != to) ==> bal_of(v.balances, to, tao, token) + amount <= u128::MAX
}

/// Does every step of a transfer batch, run in order, stay within the
/// machine's balance range?
pub open spec fn transfers_fit(
    v: LedgerView,
    caller: u64,
    from: u64,
    to: u64,
    tao: u64,
    tokens: Seq<u64>,
    amounts: Seq<u128>,
) -> bool
    decreases tokens.len(),
{
    tokens.len() > 0 ==> (transfer_fits(v, caller, from, to, tao, tokens[0], amounts[0]) && (
    match transfer_result(v, caller, from, to, tao, tokens[0], amounts[0]) {
        Ok(v2) => transfers_fit(v2, caller, from, to, tao, tokens.drop_first(), amounts.drop_first()),
        Err(_) => true,
    }))
}

/// The outcome of a transfer batch: each element applied in sequence
/// order, stopping at the first failure.
pub open spec fn run_transfers(
    v: LedgerView,
    caller: u64,
    from: u64,
    to: u64,
    tao: u64,
    tokens: Seq<u64>,
    amounts: Seq<u128>,
) -> Result<LedgerView, LedgerError>
    decreases tokens.len(),
{
    if tokens.len() == 0 {
        Ok(v)
    } else {
        match transfer_result(v, caller, from, to, tao, tokens[0], amounts[0]) {
            Ok(v2) => run_transfers(
                v2,
                caller,
                from,
                to,
                tao,
                tokens.drop_first(),
                amounts.drop_first(),
            ),
            Err(e) => Err(e),
        }
    }
}

/// The abstract state after setting or clearing one approval.
pub open spec fn approve_step(
    v: LedgerView,
    owner: u64,
    operator: u64,
    approved: bool,
) -> LedgerView {
    LedgerView {
        approved: if approved {
            v.approved.insert((owner, operator))
        } else {
            v.approved.remove((owner, operator))
        },
        ..v
    }
}

/// The multi-token ledger.
pub struct Ledger {
    next_tao: u64,
    next_token: u64,
    taos: Vec<TaoRecord>,
    tokens: Vec<TokenRecord>,
    approvals: Vec<ApprovalRecord>,
    balances: Vec<BalanceEntry>,
}

impl View for Ledger {
    type V = LedgerView;

    closed spec fn view(&self) -> LedgerView {
        LedgerView {
            next_tao: self.next_tao,
            next_token: self.next_token,
            taos: taos_map(self.taos@),
            tokens: token_set(self.tokens@),
            approved: Set::new(|p: (u64, u64)| approval_of(self.approvals@, p.0, p.1)),
            balances: self.balances@,
        }
    }
}

impl Ledger {
    /// The ledger's internal integrity: identifiers already handed out
    /// stay below the allocation counters, every registered token's
    /// collection is itself registered, and no balance key is recorded
    /// twice.
    pub closed spec fn wf(self) -> bool {
        &&& forall|i: int|
            0 <= i < self.taos@.len() ==> (#[trigger] self.taos@[i]).id < self.next_tao
        &&& forall|i: int|
            0 <= i < self.tokens@.len() ==> (#[trigger] self.tokens@[i]).token < self.next_token
        &&& forall|i: int|
            0 <= i < self.tokens@.len() ==> taos_map(self.taos@).dom().contains(
                (#[trigger] self.tokens@[i]).tao,
            )
        &&& unique_keys(self.balances@)
    }

    /// An empty ledger: no collections, no tokens, no approvals, no
    /// balances.
    pub fn new() -> (r: Ledger)
        ensures
            r.wf(),
            r@.next_tao == 1,
            r@.next_token == 1,
            r@.taos == Map::<u64, Seq<u8>>::empty(),
            r@.tokens == Set::<(u64, u64)>::empty(),
            r@.approved == Set::<(u64, u64)>::empty(),
            r@.balances == Seq::<BalanceEntry>::empty(),
    {
        let r = Ledger {
            next_tao: 1,
            next_token: 1,
            taos: Vec::new(),
            tokens: Vec::new(),
            approvals: Vec::new(),
            balances: Vec::new(),
        };
        proof {
            assert(r@.approved =~= Set::<(u64, u64)>::empty());
            assert(r@.balances =~= Seq::<BalanceEntry>::empty());
        }
        r
    }

    /// Is the collection registered?
    fn has_tao(&self, id: TaoId) -> (r: bool)
        ensures
            r == self@.taos.dom().contains(id),
    {
        let n = self.taos.len();
        let mut i: usize = 0;
        while i < n
            invariant
                i <= n,
                n == self.taos@.len(),
                forall|j: int| 0 <= j < i ==> (#[trigger] self.taos@[j]).id != id,
            decreases n - i,
        {
            if self.taos[i].id == id {
                proof {
                    lemma_taos_map_dom(self.taos@, id);
                }
                return true;
            }
            i = i + 1;
        }
        proof {
            lemma_taos_map_dom(self.taos@, id);
        }
        false
    }

    /// Is the token registered under the collection?
    fn has_token(&self, tao_id: TaoId, token_id: TokenId) -> (r: bool)
        ensures
            r == self@.tokens.contains((tao_id, token_id)),
    {
        let n = self.tokens.len();
        let mut i: usize = 0;
        while i < n
            invariant
                i <= n,
                n == self.tokens@.len(),
                forall|j: int|
                    0 <= j < i ==> !((#[trigger] self.tokens@[j]).tao == tao_id
                        && self.tokens@[j].token == token_id),
            decreases n - i,
        {
            let rec = self.tokens[i];
            if rec.tao == tao_id && rec.token == token_id {
                proof {
                    lemma_token_set_mem(self.tokens@, tao_id, token_id);
                }
                return true;
            }
            i = i + 1;
        }
        proof {
            lemma_token_set_mem(self.tokens@, tao_id, token_id);
        }
        false
    }

    /// Does `operator` hold a blanket approval from `owner`?
    pub fn is_approved_for_all(&self, owner: AccountId, operator: AccountId) -> (r: bool)
        ensures
            r == self@.approved.contains((owner, operator)),
    {
        let n = self.approvals.len();
        let mut i: usize = 0;
        while i < n
            invariant
                i <= n,
                n == self.approvals@.len(),
                forall|j: int|
                    0 <= j < i ==> !apr_matches(#[trigger] self.approvals@[j], owner, operator),
            decreases n - i,
        {
            let rec = self.approvals[i];
            if rec.owner == owner && rec.operator == operator {
                proof {
                    lemma_apr_idx_of_first_match(self.approvals@, owner, operator, i as int);
                }
                return rec.approved;
            }
            i = i + 1;
        }
        proof {
            lemma_apr_idx_of(self.approvals@, owner, operator);
        }
        false
    }

    /// May `caller` act on `owner`'s balances?  True exactly when the
    /// caller is the owner or holds the owner's blanket approval.
    pub fn approved_or_owner(&self, caller: AccountId, owner: AccountId) -> (r: bool)
        ensures
            r == spec_approved_or_owner(self@, caller, owner),
    {
        if caller == owner {
            true
        } else {
            self.is_approved_for_all(owner, caller)
        }
    }

    /// Grant or revoke `operator`'s blanket authority over all of
    /// `owner`'s balances.  Writing the flag already in force changes
    /// nothing, so the operation is idempotent.
    pub fn set_approval_for_all(&mut self, owner: AccountId, operator: AccountId, approved: bool)
        requires
            old(self).wf(),
        ensures
            final(self).wf(),
            final(self)@ == approve_step(old(self)@, owner, operator, approved),
            final(self)@.approved == (if approved {
                old(self)@.approved.insert((owner, operator))
            } else {
                old(self)@.approved.remove((owner, operator))
            }),
            final(self)@.taos == old(self)@.taos,
            final(self)@.tokens == old(self)@.tokens,
            final(self)@.balances == old(self)@.balances,
    {
        let rec = ApprovalRecord { owner, operator, approved };
        match find_approval(&self.approvals, owner, operator) {
            Some(i) => {
                self.approvals.set(i, rec);
            },
            None => {
                self.approvals.push(rec);
            },
        }
        proof {
            assert(self.approvals@ == set_approval_seq(
                old(self).approvals@,
                owner,
                operator,
                approved,
            ));
            lemma_set_approval(old(self).approvals@, owner, operator, approved);
            lemma_set_approval_view(old(self)@, self.approvals@, owner, operator, approved);
            assert(self@ =~= approve_step(old(self)@, owner, operator, approved));
        }
    }

    /// Register a fresh collection and record its opaque creation data.
    /// The returned identifier is strictly increasing over calls, so it
    /// never collides with an existing collection.
    #[allow(unused_variables)]
    pub fn create_tao(&mut self, who: AccountId, data: Vec<u8>) -> (r: TaoId)
        requires
            old(self).wf(),
            old(self)@.next_tao < u64::MAX,
        ensures
            final(self).wf(),
            r == old(self)@.next_tao,
            !old(self)@.taos.dom().contains(r),
            final(self)@.taos == old(self)@.taos.insert(r, data@),
            final(self)@.next_tao == old(self)@.next_tao + 1,
            final(self)@.next_token == old(self)@.next_token,
            final(self)@.tokens == old(self)@.tokens,
            final(self)@.approved == old(self)@.approved,
            final(self)@.balances == old(self)@.balances,
    {
        let id = self.next_tao;
        self.next_tao = id + 1;
        proof {
            lemma_taos_map_dom(self.taos@, id);
        }
        self.taos.push(TaoRecord { id, data });
        proof {
            assert(self.taos@.drop_last() =~= old(self).taos@);
            assert forall|i: int|
                0 <= i < self.tokens@.len() implies taos_map(self.taos@).dom().contains(
                (#[trigger] self.tokens@[i]).tao,
            ) by {
                assert(taos_map(old(self).taos@).dom().contains(self.tokens@[i].tao));
            }
        }
        id
    }

    /// Register a fresh token type under an existing collection.  Fails
    /// with `CollectionNotFound`, and changes nothing, exactly when the
    /// collection is unknown; the returned identifier never collides
    /// with an existing token type.
    #[allow(unused_variables)]
    pub fn create_token(&mut self, who: AccountId, tao_id: TaoId) -> (r: Result<
        TokenId,
        LedgerError,
    >)
        requires
            old(self).wf(),
            old(self)@.taos.dom().contains(tao_id) ==> old(self)@.next_token < u64::MAX,
        ensures
            final(self).wf(),
            r is Ok <==> old(self)@.taos.dom().contains(tao_id),
            (match r {
                Ok(t) => {
                    &&& t == old(self)@.next_token
                    &&& !old(self)@.tokens.contains((tao_id, t))
                    &&& final(self)@.tokens == old(self)@.tokens.insert((tao_id, t))
                    &&& final(self)@.next_token == old(self)@.next_token + 1
                    &&& final(self)@.next_tao == old(self)@.next_tao
                    &&& final(self)@.taos == old(self)@.taos
                    &&& final(self)@.approved == old(self)@.approved
                    &&& final(self)@.balances == old(self)@.balances
                },
                Err(e) => e == LedgerError::CollectionNotFound && final(self)@ == old(self)@,
            }),
    {
        if !self.has_tao(tao_id) {
            return Err(LedgerError::CollectionNotFound);
        }
        let t = self.next_token;
        self.next_token = t + 1;
        proof {
            lemma_token_set_mem(self.tokens@, tao_id, t);
        }
        self.tokens.push(TokenRecord { tao: tao_id, token: t });
        proof {
            assert(self.tokens@.drop_last() =~= old(self).tokens@);
        }
        Ok(t)
    }

    /// Credit `amount` of `(tao_id, token_id)` to `to`.  Fails with
    /// `InvalidToken`, and changes nothing, exactly when the token is
    /// not registered under the collection; a zero amount succeeds and
    /// changes nothing.
    pub fn mint(&mut self, to: AccountId, tao_id: TaoId, token_id: TokenId, amount: Balance) -> (r:
        Result<(), LedgerError>)
        requires
            old(self).wf(),
            old(self)@.tokens.contains((tao_id, token_id)) ==> bal_of(
                old(self)@.balances,
                to,
                tao_id,
                token_id,
            ) + amount <= u128::MAX,
        ensures
            final(self).wf(),
            (match mint_result(old(self)@, to, tao_id, token_id, amount) {
                Ok(v2) => r is Ok && final(self)@ == v2,
                Err(e) => r == Err::<(), LedgerError>(e) && final(self)@ == old(self)@,
            }),
            r is Ok <==> old(self)@.tokens.contains((tao_id, token_id)),
            r is Ok ==> forall|o2: u64, c2: u64, t2: u64|
                #[trigger] bal_of(final(self)@.balances, o2, c2, t2) == if o2 == to && c2 == tao_id
                    && t2 == token_id {
                    (bal_of(old(self)@.balances, o2, c2, t2) + amount) as u128
                } else {
                    bal_of(old(self)@.balances, o2, c2, t2)
                },
            r is Ok ==> forall|c2: u64, t2: u64|
                #[trigger] pair_total(final(self)@.balances, c2, t2) == pair_total(
                    old(self)@.balances,
                    c2,
                    t2,
                ) + if c2 == tao_id && t2 == token_id {
                    amount as int
                } else {
                    0
                },
    {
        if !self.has_token(tao_id, token_id) {
            return Err(LedgerError::InvalidToken);
        }
        let b = vec_bal(&self.balances, to, tao_id, token_id);
        proof {
            lemma_set_bal_bal(self.balances@, to, tao_id, token_id, (b + amount) as u128);
            lemma_set_bal_total(self.balances@, to, tao_id, token_id, (b + amount) as u128);
            lemma_set_bal_unique(self.balances@, to, tao_id, token_id, (b + amount) as u128);
        }
        vec_set_bal(&mut self.balances, to, tao_id, token_id, b + amount);
        proof {
            assert(final(self)@ =~= mint_result(old(self)@, to, tao_id, token_id, amount)->Ok_0);
        }
        Ok(())
    }

    /// Debit `amount` of `(tao_id, token_id)` from `from`.  Fails with
    /// `InsufficientBalance`, and changes nothing, exactly when the
    /// owner holds less than `amount`; balances never wrap below zero.
    /// Caller authorization is the calling layer's duty: the ledger
    /// enforces balance sufficiency only.
    pub fn burn(&mut self, from: AccountId, tao_id: TaoId, token_id: TokenId, amount: Balance) -> (r:
        Result<(), LedgerError>)
        requires
            old(self).wf(),
        ensures
            final(self).wf(),
            (match burn_result(old(self)@, from, tao_id, token_id, amount) {
                Ok(v2) => r is Ok && final(self)@ == v2,
                Err(e) => r == Err::<(), LedgerError>(e) && final(self)@ == old(self)@,
            }),
            r is Ok <==> bal_of(old(self)@.balances, from, tao_id, token_id) >= amount,
            r is Err ==> r == Err::<(), LedgerError>(LedgerError::InsufficientBalance),
            r is Ok ==> forall|o2: u64, c2: u64, t2: u64|
                #[trigger] bal_of(final(self)@.balances, o2, c2, t2) == if o2 == from && c2
                    == tao_id && t2 == token_id {
                    (bal_of(old(self)@.balances, o2, c2, t2) - amount) as u128
                } else {
                    bal_of(old(self)@.balances, o2, c2, t2)
                },
            r is Ok ==> forall|c2: u64, t2: u64|
                #[trigger] pair_total(final(self)@.balances, c2, t2) == pair_total(
                    old(self)@.balances,
                    c2,
                    t2,
                ) - if c2 == tao_id && t2 == token_id {
                    amount as int
                } else {
                    0
                },
    {
        let b = vec_bal(&self.balances, from, tao_id, token_id);
        if b < amount {
            return Err(LedgerError::InsufficientBalance);
        }
        proof {
            lemma_set_bal_bal(self.balances@, from, tao_id, token_id, (b - amount) as u128);
            lemma_set_bal_total(self.balances@, from, tao_id, token_id, (b - amount) as u128);
            lemma_set_bal_unique(self.balances@, from, tao_id, token_id, (b - amount) as u128);
        }
        vec_set_bal(&mut self.balances, from, tao_id, token_id, b - amount);
        proof {
            assert(final(self)@ =~= burn_result(old(self)@, from, tao_id, token_id, amount)->Ok_0);
        }
        Ok(())
    }

    /// Move `amount` of `(tao_id, token_id)` from `from` to `to`, in one
    /// atomic step.  The caller must be `from` or an approved operator
    /// of `from` (`NotAuthorized` otherwise), and `from` must hold at
    /// least `amount` (`InsufficientBalance` otherwise); a failure
    /// changes nothing.
    pub fn transfer_from(
        &mut self,
        caller: AccountId,
        from: AccountId,
        to: AccountId,
        tao_id: TaoId,
        token_id: TokenId,
        amount: Balance,
    ) -> (r: Result<(), LedgerError>)
        requires
            old(self).wf(),
            (spec_approved_or_owner(old(self)@, caller, from) && bal_of(
                old(self)@.balances,
                from,
                tao_id,
                token_id,
            ) >= amount && from != to) ==> bal_of(old(self)@.balances, to, tao_id, token_id)
                + amount <= u128::MAX,
        ensures
            final(self).wf(),
            (match transfer_result(old(self)@, caller, from, to, tao_id, token_id, amount) {
                Ok(v2) => r is Ok && final(self)@ == v2,
                Err(e) => r == Err::<(), LedgerError>(e) && final(self)@ == old(self)@,
            }),
            r is Ok <==> (spec_approved_or_owner(old(self)@, caller, from) && bal_of(
                old(self)@.balances,
                from,
                tao_id,
                token_id,
            ) >= amount),
            !spec_approved_or_owner(old(self)@, caller, from) ==> r == Err::<(), LedgerError>(
                LedgerError::NotAuthorized,
            ),
            (spec_approved_or_owner(old(self)@, caller, from) && bal_of(
                old(self)@.balances,
                from,
                tao_id,
                token_id,
            ) < amount) ==> r == Err::<(), LedgerError>(LedgerError::InsufficientBalance),
            r is Ok ==> forall|o2: u64, c2: u64, t2: u64|
                #[trigger] bal_of(final(self)@.balances, o2, c2, t2) as int == bal_of(
                    old(self)@.balances,
                    o2,
                    c2,
                    t2,
                ) as int + (if o2 == to && c2 == tao_id && t2 == token_id {
                    amount as int
                } else {
                    0
                }) - (if o2 == from && c2 == tao_id && t2 == token_id {
                    amount as int
                } else {
                    0
                }),
            r is Ok ==> forall|c2: u64, t2: u64|
                #[trigger] pair_total(final(self)@.balances, c2, t2) == pair_total(
                    old(self)@.balances,
                    c2,
                    t2,
                ),
    {
        if !self.approved_or_owner(caller, from) {
            return Err(LedgerError::NotAuthorized);
        }
        let b_from = vec_bal(&self.balances, from, tao_id, token_id);
        if b_from < amount {
            return Err(LedgerError::InsufficientBalance);
        }
        proof {
            lemma_set_bal_bal(self.balances@, from, tao_id, token_id, (b_from - amount) as u128);
            lemma_set_bal_total(self.balances@, from, tao_id, token_id, (b_from - amount) as u128);
            lemma_set_bal_unique(self.balances@, from, tao_id, token_id, (b_from - amount) as u128);
        }
        vec_set_bal(&mut self.balances, from, tao_id, token_id, b_from - amount);
        let b_to = vec_bal(&self.balances, to, tao_id, token_id);
        proof {
            lemma_set_bal_bal(self.balances@, to, tao_id, token_id, (b_to + amount) as u128);
            lemma_set_bal_total(self.balances@, to, tao_id, token_id, (b_to + amount) as u128);
            lemma_set_bal_unique(self.balances@, to, tao_id, token_id, (b_to + amount) as u128);
        }
        vec_set_bal(&mut self.balances, to, tao_id, token_id, b_to + amount);
        proof {
            assert(final(self)@ =~= transfer_result(
                old(self)@,
                caller,
                from,
                to,
                tao_id,
                token_id,
                amount,
            )->Ok_0);
        }
        Ok(())
    }

    /// Mint a batch: parallel token and amount sequences, applied in
    /// order.  A length mismatch fails fast; if any element fails, the
    /// whole batch rolls back and that element's error is surfaced, so
    /// the ledger changes either for every element or for none.
    pub fn batch_mint(
        &mut self,
        to: AccountId,
        tao_id: TaoId,
        token_ids: Vec<TokenId>,
        amounts: Vec<Balance>,
    ) -> (r: Result<(), LedgerError>)
        requires
            old(self).wf(),
            token_ids@.len() == amounts@.len() ==> mints_fit(
                old(self)@,
                to,
                tao_id,
                token_ids@,
                amounts@,
            ),
        ensures
            final(self).wf(),
            token_ids@.len() != amounts@.len() ==> r == Err::<(), LedgerError>(
                LedgerError::LengthMismatch,
            ),
            token_ids@.len() == amounts@.len() ==> (match run_mints(
                old(self)@,
                to,
                tao_id,
                token_ids@,
                amounts@,
            ) {
                Ok(v2) => r is Ok && final(self)@ == v2,
                Err(e) => r == Err::<(), LedgerError>(e),
            }),
            r is Err ==> final(self)@ == old(self)@,
    {
        if token_ids.len() != amounts.len() {
            return Err(LedgerError::LengthMismatch);
        }
        let ghost v0 = self@;
        let snapshot = copy_entries(&self.balances);
        let n = token_ids.len();
        let mut i: usize = 0;
        proof {
            assert(token_ids@.subrange(0, n as int) =~= token_ids@);
            assert(amounts@.subrange(0, n as int) =~= amounts@);
        }
        while i < n
            invariant
                i <= n,
                n == token_ids@.len(),
                n == amounts@.len(),
                self.wf(),
                old(self).wf(),
                v0 == old(self)@,
                snapshot@ == v0.balances,
                self@.next_tao == v0.next_tao,
                self@.next_token == v0.next_token,
                self@.taos == v0.taos,
                self@.tokens == v0.tokens,
                self@.approved == v0.approved,
                mints_fit(
                    self@,
                    to,
                    tao_id,
                    token_ids@.subrange(i as int, n as int),
                    amounts@.subrange(i as int, n as int),
                ),
                run_mints(v0, to, tao_id, token_ids@, amounts@) == run_mints(
                    self@,
                    to,
                    tao_id,
                    token_ids@.subrange(i as int, n as int),
                    amounts@.subrange(i as int, n as int),
                ),
            decreases n - i,
        {
            let ghost toks = token_ids@.subrange(i as int, n as int);
            let ghost amts = amounts@.subrange(i as int, n as int);
            proof {
                assert(toks[0] == token_ids@[i as int]);
                assert(amts[0] == amounts@[i as int]);
                assert(toks.drop_first() =~= token_ids@.subrange(i as int + 1, n as int));
                assert(amts.drop_first() =~= amounts@.subrange(i as int + 1, n as int));
            }
            let res = self.mint(to, tao_id, token_ids[i], amounts[i]);
            if let Err(e) = res {
                self.balances = snapshot;
                proof {
                    assert(self@ =~= v0);
                }
                return Err(e);
            }
            i = i + 1;
        }
        proof {
            assert(token_ids@.subrange(n as int, n as int) =~= Seq::<u64>::empty());
            assert(amounts@.subrange(n as int, n as int) =~= Seq::<u128>::empty());
        }
        Ok(())
    }

    /// Burn a batch: parallel token and amount sequences, applied in
    /// order.  A length mismatch fails fast; if any element asks for
    /// more than the owner then holds, the whole batch rolls back and
    /// `InsufficientBalance` is surfaced.
    pub fn batch_burn(
        &mut self,
        from: AccountId,
        tao_id: TaoId,
        token_ids: Vec<TokenId>,
        amounts: Vec<Balance>,
    ) -> (r: Result<(), LedgerError>)
        requires
            old(self).wf(),
        ensures
            final(self).wf(),
            token_ids@.len() != amounts@.len() ==> r == Err::<(), LedgerError>(
                LedgerError::LengthMismatch,
            ),
            token_ids@.len() == amounts@.len() ==> (match run_burns(
                old(self)@,
                from,
                tao_id,
                token_ids@,
                amounts@,
            ) {
                Ok(v2) => r is Ok && final(self)@ == v2,
                Err(e) => r == Err::<(), LedgerError>(e),
            }),
            r is Err ==> final(self)@ == old(self)@,
    {
        if token_ids.len() != amounts.len() {
            return Err(LedgerError::LengthMismatch);
        }
        let ghost v0 = self@;
        let snapshot = copy_entries(&self.balances);
        let n = token_ids.len();
        let mut i: usize = 0;
        proof {
            assert(token_ids@.subrange(0, n as int) =~= token_ids@);
            assert(amounts@.subrange(0, n as int) =~= amounts@);
        }
        while i < n
            invariant
                i <= n,
                n == token_ids@.len(),
                n == amounts@.len(),
                self.wf(),
                old(self).wf(),
                v0 == old(self)@,
                snapshot@ == v0.balances,
                self@.next_tao == v0.next_tao,
                self@.next_token == v0.next_token,
                self@.taos == v0.taos,
                self@.tokens == v0.tokens,
                self@.approved == v0.approved,
                run_burns(v0, from, tao_id, token_ids@, amounts@) == run_burns(
                    self@,
                    from,
                    tao_id,
                    token_ids@.subrange(i as int, n as int),
                    amounts@.subrange(i as int, n as int),
                ),
            decreases n - i,
        {
            let ghost toks = token_ids@.subrange(i as int, n as int);
            let ghost amts = amounts@.subrange(i as int, n as int);
            proof {
                assert(toks[0] == token_ids@[i as int]);
                assert(amts[0] == amounts@[i as int]);
                assert(toks.drop_first() =~= token_ids@.subrange(i as int + 1, n as int));
                assert(amts.drop_first() =~= amounts@.subrange(i as int + 1, n as int));
            }
            let res = self.burn(from, tao_id, token_ids[i], amounts[i]);
            if let Err(e) = res {
                self.balances = snapshot;
                proof {
                    assert(self@ =~= v0);
                }
                return Err(e);
            }
            i = i + 1;
        }
        proof {
            assert(token_ids@.subrange(n as int, n as int) =~= Seq::<u64>::empty());
            assert(amounts@.subrange(n as int, n as int) =~= Seq::<u128>::empty());
        }
        Ok(())
    }

    /// Transfer a batch: parallel token and amount sequences, applied in
    /// order, all moving from `from` to `to` under `caller`'s authority.
    /// A length mismatch fails fast; if any element fails its
    /// authorization or balance check, the whole batch rolls back and
    /// that element's error is surfaced.
    pub fn batch_transfer_from(
        &mut self,
        caller: AccountId,
        from: AccountId,
        to: AccountId,
        tao_id: TaoId,
        token_ids: Vec<TokenId>,
        amounts: Vec<Balance>,
    ) -> (r: Result<(), LedgerError>)
        requires
            old(self).wf(),
            token_ids@.len() == amounts@.len() ==> transfers_fit(
                old(self)@,
                caller,
                from,
                to,
                tao_id,
                token_ids@,
                amounts@,
            ),
        ensures
            final(self).wf(),
            token_ids@.len() != amounts@.len() ==> r == Err::<(), LedgerError>(
                LedgerError::LengthMismatch,
            ),
            token_ids@.len() == amounts@.len() ==> (match run_transfers(
                old(self)@,
                caller,
                from,
                to,
                tao_id,
                token_ids@,
                amounts@,
            ) {
                Ok(v2) => r is Ok && final(self)@ == v2,
                Err(e) => r == Err::<(), LedgerError>(e),
            }),
            r is Err ==> final(self)@ == old(self)@,
    {
        if token_ids.len() != amounts.len() {
            return Err(LedgerError::LengthMismatch);
        }
        let ghost v0 = self@;
        let snapshot = copy_entries(&self.balances);
        let n = token_ids.len();
        let mut i: usize = 0;
        proof {
            assert(token_ids@.subrange(0, n as int) =~= token_ids@);
            assert(amounts@.subrange(0, n as int) =~= amounts@);
        }
        while i < n
            invariant
                i <= n,
                n == token_ids@.len(),
                n == amounts@.len(),
                self.wf(),
                old(self).wf(),
                v0 == old(self)@,
                snapshot@ == v0.balances,
                self@.next_tao == v0.next_tao,
                self@.next_token == v0.next_token,
                self@.taos == v0.taos,
                self@.tokens == v0.tokens,
                self@.approved == v0.approved,
                transfers_fit(
                    self@,
                    caller,
                    from,
                    to,
                    tao_id,
                    token_ids@.subrange(i as int, n as int),
                    amounts@.subrange(i as int, n as int),
                ),
                run_transfers(v0, caller, from, to, tao_id, token_ids@, amounts@) == run_transfers(
                    self@,
                    caller,
                    from,
                    to,
                    tao_id,
                    token_ids@.subrange(i as int, n as int),
                    amounts@.subrange(i as int, n as int),
                ),
            decreases n - i,
        {
            let ghost toks = token_ids@.subrange(i as int, n as int);
            let ghost amts = amounts@.subrange(i as int, n as int);
            proof {
                assert(toks[0] == token_ids@[i as int]);
                assert(amts[0] == amounts@[i as int]);
                assert(toks.drop_first() =~= token_ids@.subrange(i as int + 1, n as int));
                assert(amts.drop_first() =~= amounts@.subrange(i as int + 1, n as int));
            }
            let res = self.transfer_from(caller, from, to, tao_id, token_ids[i], amounts[i]);
            if let Err(e) = res {
                self.balances = snapshot;
                proof {
                    assert(self@ =~= v0);
                }
                return Err(e);
            }
            i = i + 1;
        }
        proof {
            assert(token_ids@.subrange(n as int, n as int) =~= Seq::<u64>::empty());
            assert(amounts@.subrange(n as int, n as int) =~= Seq::<u128>::empty());
        }
        Ok(())
    }

    /// The balance held by `owner` under `(tao_id, token_id)`.  A triple
    /// the ledger has never seen reads as zero; this query never fails.
    pub fn balance_of(&self, owner: AccountId, tao_id: TaoId, token_id: TokenId) -> (r: Balance)
        ensures
            r == bal_of(self@.balances, owner, tao_id, token_id),
    {
        vec_bal(&self.balances, owner, tao_id, token_id)
    }

    /// The pointwise balances for parallel owner and token sequences
    /// under one collection.  Fails with `LengthMismatch`, reading
    /// nothing, exactly when the sequences differ in length.
    pub fn balance_of_batch(
        &self,
        owners: Vec<AccountId>,
        tao_id: TaoId,
        token_ids: Vec<TokenId>,
    ) -> (r: Result<Vec<Balance>, LedgerError>)
        ensures
            owners@.len() != token_ids@.len() ==> r == Err::<Vec<Balance>, LedgerError>(
                LedgerError::LengthMismatch,
            ),
            owners@.len() == token_ids@.len() ==> (r matches Ok(out) && out@.len() == owners@.len()
                && forall|i: int|
                0 <= i < owners@.len() ==> out@[i] == bal_of(
                    self@.balances,
                    owners@[i],
                    tao_id,
                    token_ids@[i],
                )),
    {
        if owners.len() != token_ids.len() {
            return Err(LedgerError::LengthMismatch);
        }
        let n = owners.len();
        let mut out: Vec<Balance> = Vec::new();
        let mut i: usize = 0;
        while i < n
            invariant
                i <= n,
                n == owners@.len(),
                n == token_ids@.len(),
                out@.len() == i,
                forall|j: int|
                    0 <= j < i ==> out@[j] == bal_of(
                        self@.balances,
                        owners@[j],
                        tao_id,
                        token_ids@[j],
                    ),
            decreases n - i,
        {
            let b = vec_bal(&self.balances, owners[i], tao_id, token_ids[i]);
            out.push(b);
            i = i + 1;
        }
        Ok(out)
    }
}

/// Copies the balance table row by row, for the snapshot a batch falls
/// back to when one of its elements fails.
fn copy_entries(v: &Vec<BalanceEntry>) -> (r: Vec<BalanceEntry>)
    ensures
        r@ == v@,
{
    let n = v.len();
    let mut r: Vec<BalanceEntry> = Vec::new();
    let mut i: usize = 0;
    while i < n
        invariant
            i <= n,
            n == v@.len(),
            r@ == v@.subrange(0, i as int),
        decreases n - i,
    {
        r.push(v[i]);
        proof {
            assert(v@.subrange(0, i as int).push(v@[i as int]) =~= v@.subrange(0, i as int + 1));
        }
        i = i + 1;
    }
    proof {
        assert(v@.subrange(0, n as int) =~= v@);
    }
    r
}

/// Bridges the concrete approval write to the abstract `approve_step`:
/// once the table holds `set_approval_seq(..)`, the derived approval set
/// is the old set with the one pair inserted or removed.
proof fn lemma_set_approval_view(
    v0: LedgerView,
    s2: Seq<ApprovalRecord>,
    owner: u64,
    operator: u64,
    approved: bool,
)
    requires
        forall|o2: u64, p2: u64|
            #[trigger] approval_of(s2, o2, p2) == if o2 == owner && p2 == operator {
                approved
            } else {
                v0.approved.contains((o2, p2))
            },
    ensures
        Set::new(|p: (u64, u64)| approval_of(s2, p.0, p.1)) == (if approved {
            v0.approved.insert((owner, operator))
        } else {
            v0.approved.remove((owner, operator))
        }),
{
    let derived = Set::new(|p: (u64, u64)| approval_of(s2, p.0, p.1));
    if approved {
        assert(derived =~= v0.approved.insert((owner, operator)));
    } else {
        assert(derived =~= v0.approved.remove((owner, operator)));
    }
}

/// Finds the first row for an approval pair, if the pair has one.
fn find_approval(v: &Vec<ApprovalRecord>, owner: u64, operator: u64) -> (r: Option<usize>)
    ensures
        r matches Some(i) ==> i < v@.len() && apr_idx_of(v@, owner, operator) == i as int,
        r is None ==> apr_idx_of(v@, owner, operator) == -1,
{
    let n = v.len();
    let mut i: usize = 0;
    while i < n
        invariant
            i <= n,
            n == v@.len(),
            forall|j: int| 0 <= j < i ==> !apr_matches(#[trigger] v@[j], owner, operator),
        decreases n - i,
    {
        let cur = v[i];
        if cur.owner == owner && cur.operator == operator {
            proof {
                lemma_apr_idx_of_first_match(v@, owner, operator, i as int);
            }
            return Some(i);
        }
        i = i + 1;
    }
    proof {
        lemma_apr_idx_of(v@, owner, operator);
    }
    None
}

/// Reads the balance for a key out of the concrete table.
fn vec_bal(v: &Vec<BalanceEntry>, owner: u64, tao: u64, token: u64) -> (r: u128)
    ensures
        r == bal_of(v@, owner, tao, token),
{
    let n = v.len();
    let mut i: usize = 0;
    while i < n
        invariant
            i <= n,
            n == v@.len(),
            forall|j: int| 0 <= j < i ==> !key_matches(#[trigger] v@[j], owner, tao, token),
        decreases n - i,
    {
        let e = v[i];
        if e.owner == owner && e.tao == tao && e.token == token {
            proof {
                lemma_idx_of_first_match(v@, owner, tao, token, i as int);
            }
            return e.amount;
        }
        i = i + 1;
    }
    proof {
        lemma_idx_of(v@, owner, tao, token);
    }
    0
}

/// Writes the balance for a key into the concrete table: the first
/// matching row is replaced, or a fresh row is appended.
fn vec_set_bal(v: &mut Vec<BalanceEntry>, owner: u64, tao: u64, token: u64, amount: u128)
    ensures
        final(v)@ == set_bal(old(v)@, owner, tao, token, amount),
{
    let n = v.len();
    let mut i: usize = 0;
    while i < n
        invariant
            i <= n,
            n == v@.len(),
            v@ == old(v)@,
            forall|j: int| 0 <= j < i ==> !key_matches(#[trigger] v@[j], owner, tao, token),
        decreases n - i,
    {
        let cur = v[i];
        if cur.owner == owner && cur.tao == tao && cur.token == token {
            proof {
                lemma_idx_of_first_match(v@, owner, tao, token, i as int);
            }
            v.set(i, BalanceEntry { owner, tao, token, amount });
            return ;
        }
        i = i + 1;
    }
    proof {
        lemma_idx_of(v@, owner, tao, token);
    }
    v.push(BalanceEntry { owner, tao, token, amount });
}

} // verus!
