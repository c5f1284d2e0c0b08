use erc1155_ledger::ledger::{Ledger, LedgerError};

const ALICE: u64 = 100;
const BOB: u64 = 101;
const CAROL: u64 = 102;

fn ledger_with_tokens() -> (Ledger, u64, u64, u64) {
    let mut l = Ledger::new();
    let tao = l.create_tao(ALICE, vec![]);
    let t1 = l.create_token(ALICE, tao).unwrap();
    let t2 = l.create_token(ALICE, tao).unwrap();
    (l, tao, t1, t2)
}

#[test]
fn batch_mint_applies_every_element() {
    let (mut l, tao, t1, t2) = ledger_with_tokens();
    assert_eq!(l.batch_mint(ALICE, tao, vec![t1, t2], vec![10, 20]), Ok(()));
    assert_eq!(l.balance_of(ALICE, tao, t1), 10);
    assert_eq!(l.balance_of(ALICE, tao, t2), 20);
}

#[test]
fn batch_mint_accumulates_repeated_tokens() {
    let (mut l, tao, t1, _t2) = ledger_with_tokens();
    assert_eq!(l.batch_mint(ALICE, tao, vec![t1, t1, t1], vec![1, 2, 3]), Ok(()));
    assert_eq!(l.balance_of(ALICE, tao, t1), 6);
}

#[test]
fn batch_mint_length_mismatch_fails_fast() {
    let (mut l, tao, t1, t2) = ledger_with_tokens();
    assert_eq!(
        l.batch_mint(ALICE, tao, vec![t1, t2], vec![10]),
        Err(LedgerError::LengthMismatch)
    );
    assert_eq!(l.balance_of(ALICE, tao, t1), 0);
    assert_eq!(l.balance_of(ALICE, tao, t2), 0);
}

#[test]
fn batch_mint_rolls_back_on_invalid_token() {
    let (mut l, tao, t1, t2) = ledger_with_tokens();
    assert_eq!(
        l.batch_mint(ALICE, tao, vec![t1, 99, t2], vec![10, 20, 30]),
        Err(LedgerError::InvalidToken)
    );
    assert_eq!(l.balance_of(ALICE, tao, t1), 0);
    assert_eq!(l.balance_of(ALICE, tao, t2), 0);
}

#[test]
fn batch_burn_applies_every_element() {
    let (mut l, tao, t1, t2) = ledger_with_tokens();
    assert_eq!(l.batch_mint(ALICE, tao, vec![t1, t2], vec![10, 20]), Ok(()));
    assert_eq!(l.batch_burn(ALICE, tao, vec![t1, t2], vec![4, 5]), Ok(()));
    assert_eq!(l.balance_of(ALICE, tao, t1), 6);
    assert_eq!(l.balance_of(ALICE, tao, t2), 15);
}

#[test]
fn batch_burn_length_mismatch_fails_fast() {
    let (mut l, tao, t1, _t2) = ledger_with_tokens();
    assert_eq!(l.mint(ALICE, tao, t1, 10), Ok(()));
    assert_eq!(
        l.batch_burn(ALICE, tao, vec![t1], vec![1, 2]),
        Err(LedgerError::LengthMismatch)
    );
    assert_eq!(l.balance_of(ALICE, tao, t1), 10);
}

#[test]
fn batch_burn_rolls_back_when_one_element_overdraws() {
    let (mut l, tao, t1, t2) = ledger_with_tokens();
    assert_eq!(l.batch_mint(ALICE, tao, vec![t1, t2], vec![50, 5]), Ok(()));
    // the middle element overdraws token t2: the first element must not stick
    assert_eq!(
        l.batch_burn(ALICE, tao, vec![t1, t2, t1], vec![30, 6, 1]),
        Err(LedgerError::InsufficientBalance)
    );
    assert_eq!(l.balance_of(ALICE, tao, t1), 50);
    assert_eq!(l.balance_of(ALICE, tao, t2), 5);
}

#[test]
fn batch_burn_sequential_overdraw_rolls_back() {
    let (mut l, tao, t1, _t2) = ledger_with_tokens();
    assert_eq!(l.mint(ALICE, tao, t1, 50), Ok(()));
    // each element alone fits, together they overdraw: nothing may stick
    assert_eq!(
        l.batch_burn(ALICE, tao, vec![t1, t1], vec![30, 30]),
        Err(LedgerError::InsufficientBalance)
    );
    assert_eq!(l.balance_of(ALICE, tao, t1), 50);
}

#[test]
fn batch_transfer_applies_every_element() {
    let (mut l, tao, t1, t2) = ledger_with_tokens();
    assert_eq!(l.batch_mint(ALICE, tao, vec![t1, t2], vec![10, 20]), Ok(()));
    assert_eq!(
        l.batch_transfer_from(ALICE, ALICE, BOB, tao, vec![t1, t2], vec![3, 4]),
        Ok(())
    );
    assert_eq!(l.balance_of(ALICE, tao, t1), 7);
    assert_eq!(l.balance_of(ALICE, tao, t2), 16);
    assert_eq!(l.balance_of(BOB, tao, t1), 3);
    assert_eq!(l.balance_of(BOB, tao, t2), 4);
}

#[test]
fn batch_transfer_by_approved_operator() {
    let (mut l, tao, t1, t2) = ledger_with_tokens();
    assert_eq!(l.batch_mint(ALICE, tao, vec![t1, t2], vec![10, 20]), Ok(()));
    l.set_approval_for_all(ALICE, CAROL, true);
    assert_eq!(
        l.batch_transfer_from(CAROL, ALICE, BOB, tao, vec![t1, t2], vec![1, 2]),
        Ok(())
    );
    assert_eq!(l.balance_of(BOB, tao, t1), 1);
    assert_eq!(l.balance_of(BOB, tao, t2), 2);
}

#[test]
fn batch_transfer_unauthorized_rolls_back() {
    let (mut l, tao, t1, t2) = ledger_with_tokens();
    assert_eq!(l.batch_mint(ALICE, tao, vec![t1, t2], vec![10, 20]), Ok(()));
    assert_eq!(
        l.batch_transfer_from(CAROL, ALICE, BOB, tao, vec![t1, t2], vec![1, 2]),
        Err(LedgerError::NotAuthorized)
    );
    assert_eq!(l.balance_of(ALICE, tao, t1), 10);
    assert_eq!(l.balance_of(ALICE, tao, t2), 20);
    assert_eq!(l.balance_of(BOB, tao, t1), 0);
    assert_eq!(l.balance_of(BOB, tao, t2), 0);
}

#[test]
fn batch_transfer_rolls_back_when_one_element_overdraws() {
    let (mut l, tao, t1, t2) = ledger_with_tokens();
    assert_eq!(l.batch_mint(ALICE, tao, vec![t1, t2], vec![10, 3]), Ok(()));
    assert_eq!(
        l.batch_transfer_from(ALICE, ALICE, BOB, tao, vec![t1, t2], vec![5, 4]),
        Err(LedgerError::InsufficientBalance)
    );
    assert_eq!(l.balance_of(ALICE, tao, t1), 10);
    assert_eq!(l.balance_of(ALICE, tao, t2), 3);
    assert_eq!(l.balance_of(BOB, tao, t1), 0);
}

#[test]
fn batch_transfer_length_mismatch_fails_fast() {
    let (mut l, tao, t1, _t2) = ledger_with_tokens();
    assert_eq!(l.mint(ALICE, tao, t1, 10), Ok(()));
    assert_eq!(
        l.batch_transfer_from(ALICE, ALICE, BOB, tao, vec![t1], vec![]),
        Err(LedgerError::LengthMismatch)
    );
    assert_eq!(l.balance_of(ALICE, tao, t1), 10);
}

#[test]
fn balance_of_batch_reads_pointwise() {
    let (mut l, tao, t1, t2) = ledger_with_tokens();
    assert_eq!(l.batch_mint(ALICE, tao, vec![t1, t2], vec![10, 20]), Ok(()));
    assert_eq!(l.mint(BOB, tao, t2, 7), Ok(()));
    let out = l
        .balance_of_batch(vec![ALICE, BOB, CAROL], tao, vec![t1, t2, t1])
        .unwrap();
    assert_eq!(out, vec![10, 7, 0]);
}

#[test]
fn balance_of_batch_length_mismatch() {
    let (l, tao, t1, _t2) = ledger_with_tokens();
    assert_eq!(
        l.balance_of_batch(vec![ALICE, BOB], tao, vec![t1]),
        Err(LedgerError::LengthMismatch)
    );
}

#[test]
fn empty_batches_succeed_and_change_nothing() {
    let (mut l, tao, t1, _t2) = ledger_with_tokens();
    assert_eq!(l.mint(ALICE, tao, t1, 10), Ok(()));
    assert_eq!(l.batch_mint(ALICE, tao, vec![], vec![]), Ok(()));
    assert_eq!(l.batch_burn(ALICE, tao, vec![], vec![]), Ok(()));
    assert_eq!(
        l.batch_transfer_from(ALICE, ALICE, BOB, tao, vec![], vec![]),
        Ok(())
    );
    assert_eq!(l.balance_of(ALICE, tao, t1), 10);
    assert_eq!(l.balance_of_batch(vec![], tao, vec![]).unwrap(), Vec::<u128>::new());
}
