//! The ledger's global laws, stated over sequences of operations.
//!
//! A [`LedgerOp`] is one balance-moving call; [`step`] is its effect on
//! the abstract state, with a failed call leaving the state unchanged,
//! exactly as the executable operations promise.  The proof functions
//! here state the laws every ledger obeys: conservation of each pair's
//! total supply, rejection of overdrafts and of unauthorized transfers
//! with no state change, and idempotence of approval writes.

use vstd::prelude::*;

use crate::ledger::{
    approve_step, burn_result, mint_fits, mint_result, spec_approved_or_owner, transfer_fits,
    transfer_result, LedgerError, LedgerView,
};
use crate::model::{bal_of, lemma_set_bal_bal, lemma_set_bal_total, pair_total, set_bal};

verus! {

/// One balance-moving call: a mint, a burn, or a transfer.
pub enum LedgerOp {
    Mint { to: u64, tao: u64, token: u64, amount: u128 },
    Burn { from: u64, tao: u64, token: u64, amount: u128 },
    Transfer { caller: u64, from: u64, to: u64, tao: u64, token: u64, amount: u128 },
}

/// The state after one call: its effect when it succeeds, the state
/// unchanged when it fails.
pub open spec fn step(v: LedgerView, op: LedgerOp) -> LedgerView {
    match op {
        LedgerOp::Mint { to, tao: c, token: t, amount } => match mint_result(v, to, c, t, amount) {
            Ok(v2) => v2,
            Err(_) => v,
        },
        LedgerOp::Burn { from, tao: c, token: t, amount } => match burn_result(
            v,
            from,
            c,
            t,
            amount,
        ) {
            Ok(v2) => v2,
            Err(_) => v,
        },
        LedgerOp::Transfer { caller, from, to, tao: c, token: t, amount } => match transfer_result(
            v,
            caller,
            from,
            to,
            c,
            t,
            amount,
        ) {
            Ok(v2) => v2,
            Err(_) => v,
        },
    }
}

/// Does the call stay within the machine's balance range at this state?
pub open spec fn op_fits(v: LedgerView, op: LedgerOp) -> bool {
    match op {
        LedgerOp::Mint { to, tao: c, token: t, amount } => mint_fits(v, to, c, t, amount),
        LedgerOp::Burn { .. } => true,
        LedgerOp::Transfer { caller, from, to, tao: c, token: t, amount } => transfer_fits(
            v,
            caller,
            from,
            to,
            c,
            t,
            amount,
        ),
    }
}

/// The state after a sequence of calls, applied in order.
pub open spec fn run(v: LedgerView, ops: Seq<LedgerOp>) -> LedgerView
    decreases ops.len(),
{
    if ops.len() == 0 {
        v
    } else {
        step(run(v, ops.drop_last()), ops.last())
    }
}

/// Does every call of the sequence stay within the machine's balance
/// range at the state it runs in?
pub open spec fn ops_fit(v: LedgerView, ops: Seq<LedgerOp>) -> bool
    decreases ops.len(),
{
    ops.len() > 0 ==> (ops_fit(v, ops.drop_last()) && op_fits(run(v, ops.drop_last()), ops.last()))
}

/// What the call mints into the pair `(tao, token)`: its amount when it
/// is a mint of that pair and succeeds at this state, nothing otherwise.
pub open spec fn op_minted(v: LedgerView, op: LedgerOp, tao: u64, token: u64) -> int {
    match op {
        LedgerOp::Mint { to, tao: c, token: t, amount } => if c == tao && t == token
            && mint_result(v, to, c, t, amount) is Ok {
            amount as int
        } else {
            0
        },
        _ => 0,
    }
}

/// What the call burns out of the pair `(tao, token)`: its amount when
/// it is a burn of that pair and succeeds at this state, nothing
/// otherwise.
pub open spec fn op_burned(v: LedgerView, op: LedgerOp, tao: u64, token: u64) -> int {
    match op {
        LedgerOp::Burn { from, tao: c, token: t, amount } => if c == tao && t == token
            && burn_result(v, from, c, t, amount) is Ok {
            amount as int
        } else {
            0
        },
        _ => 0,
    }
}

/// Total minted into the pair over a sequence of calls.
pub open spec fn minted(v: LedgerView, ops: Seq<LedgerOp>, tao: u64, token: u64) -> int
    decreases ops.len(),
{
    if ops.len() == 0 {
        0
    } else {
        minted(v, ops.drop_last(), tao, token) + op_minted(
            run(v, ops.drop_last()),
            ops.last(),
            tao,
            token,
        )
    }
}

/// Total burned out of the pair over a sequence of calls.
pub open spec fn burned(v: LedgerView, ops: Seq<LedgerOp>, tao: u64, token: u64) -> int
    decreases ops.len(),
{
    if ops.len() == 0 {
        0
    } else {
        burned(v, ops.drop_last(), tao, token) + op_burned(
            run(v, ops.drop_last()),
            ops.last(),
            tao,
            token,
        )
    }
}

/// One call moves the pair's total supply by exactly what it mints
/// minus what it burns; in particular a transfer, successful or not,
/// leaves every total unchanged.
pub proof fn lemma_step_total(v: LedgerView, op: LedgerOp, tao: u64, token: u64)
    requires
        op_fits(v, op),
    ensures
        pair_total(step(v, op).balances, tao, token) == pair_total(v.balances, tao, token)
            + op_minted(v, op, tao, token) - op_burned(v, op, tao, token),
{
    match op {
        LedgerOp::Mint { to, tao: c, token: t, amount } => {
            if v.tokens.contains((c, t)) {
                lemma_set_bal_total(
                    v.balances,
                    to,
                    c,
                    t,
                    (bal_of(v.balances, to, c, t) + amount) as u128,
                );
            }
        },
        LedgerOp::Burn { from, tao: c, token: t, amount } => {
            if bal_of(v.balances, from, c, t) >= amount {
                lemma_set_bal_total(
                    v.balances,
                    from,
                    c,
                    t,
                    (bal_of(v.balances, from, c, t) - amount) as u128,
                );
            }
        },
        LedgerOp::Transfer { caller, from, to, tao: c, token: t, amount } => {
            if spec_approved_or_owner(v, caller, from) && bal_of(v.balances, from, c, t)
                >= amount {
                let b_from = bal_of(v.balances, from, c, t);
                let b1 = set_bal(v.balances, from, c, t, (b_from - amount) as u128);
                lemma_set_bal_total(v.balances, from, c, t, (b_from - amount) as u128);
                lemma_set_bal_bal(v.balances, from, c, t, (b_from - amount) as u128);
                lemma_set_bal_total(b1, to, c, t, (bal_of(b1, to, c, t) + amount) as u128);
            }
        },
    }
}

/// Conservation: over any sequence of mint, burn and transfer calls
/// from any starting state, the total supply of every `(tao, token)`
/// pair ends at its starting total plus everything minted into the pair
/// minus everything burned out of it.  Transfers move value between
/// owners and never create or destroy it.
pub proof fn lemma_conservation(v: LedgerView, ops: Seq<LedgerOp>, tao: u64, token: u64)
    requires
        ops_fit(v, ops),
    ensures
        pair_total(run(v, ops).balances, tao, token) == pair_total(v.balances, tao, token) + minted(
            v,
            ops,
            tao,
            token,
        ) - burned(v, ops, tao, token),
    decreases ops.len(),
{
    if ops.len() > 0 {
        lemma_conservation(v, ops.drop_last(), tao, token);
        lemma_step_total(run(v, ops.drop_last()), ops.last(), tao, token);
    }
}

/// Authorization gate: a transfer whose caller is neither the owner nor
/// an approved operator of the owner fails with `NotAuthorized` and
/// changes nothing.
pub proof fn lemma_authorization_gate(
    v: LedgerView,
    caller: u64,
    from: u64,
    to: u64,
    tao: u64,
    token: u64,
    amount: u128,
)
    requires
        caller != from,
        !v.approved.contains((from, caller)),
    ensures
        transfer_result(v, caller, from, to, tao, token, amount) == Err::<LedgerView, LedgerError>(
            LedgerError::NotAuthorized,
        ),
        step(v, LedgerOp::Transfer { caller, from, to, tao, token, amount }) == v,
{
}

/// No negative balance: a burn, or a transfer, that asks for more than
/// the owner holds fails with `InsufficientBalance` and changes
/// nothing; balances are unsigned, so no state ever records a negative
/// amount.
pub proof fn lemma_overdraw_rejected(
    v: LedgerView,
    caller: u64,
    from: u64,
    to: u64,
    tao: u64,
    token: u64,
    amount: u128,
)
    requires
        bal_of(v.balances, from, tao, token) < amount,
    ensures
        burn_result(v, from, tao, token, amount) == Err::<LedgerView, LedgerError>(
            LedgerError::InsufficientBalance,
        ),
        step(v, LedgerOp::Burn { from, tao, token, amount }) == v,
        spec_approved_or_owner(v, caller, from) ==> transfer_result(
            v,
            caller,
            from,
            to,
            tao,
            token,
            amount,
        ) == Err::<LedgerView, LedgerError>(LedgerError::InsufficientBalance),
        step(v, LedgerOp::Transfer { caller, from, to, tao, token, amount }) == v,
{
}

/// Idempotent approval: writing the same approval flag twice in
/// succession leaves exactly the state that writing it once leaves.
pub proof fn lemma_set_approval_idempotent(
    v: LedgerView,
    owner: u64,
    operator: u64,
    approved: bool,
)
    ensures
        approve_step(approve_step(v, owner, operator, approved), owner, operator, approved)
            == approve_step(v, owner, operator, approved),
{
    let p = (owner, operator);
    if approved {
        assert(v.approved.insert(p).insert(p) =~= v.approved.insert(p));
    } else {
        assert(v.approved.remove(p).remove(p) =~= v.approved.remove(p));
    }
    assert(approve_step(approve_step(v, owner, operator, approved), owner, operator, approved) =~=
    approve_step(v, owner, operator, approved));
}

} // verus!
