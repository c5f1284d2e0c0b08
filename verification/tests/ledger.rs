use erc1155_ledger::ledger::{Ledger, LedgerError};

const ALICE: u64 = 100;
const BOB: u64 = 101;
const CAROL: u64 = 102;

fn ledger_with_token() -> (Ledger, u64, u64) {
    let mut l = Ledger::new();
    let tao = l.create_tao(ALICE, vec![1, 2, 3]);
    let token = l.create_token(ALICE, tao).unwrap();
    (l, tao, token)
}

#[test]
fn mint_transfer_burn_scenario() {
    let (mut l, tao, token) = ledger_with_token();
    assert_eq!(l.mint(ALICE, tao, token, 100), Ok(()));
    assert_eq!(l.balance_of(ALICE, tao, token), 100);
    assert_eq!(l.transfer_from(ALICE, ALICE, BOB, tao, token, 40), Ok(()));
    assert_eq!(l.balance_of(ALICE, tao, token), 60);
    assert_eq!(l.balance_of(BOB, tao, token), 40);
    assert_eq!(l.burn(ALICE, tao, token, 61), Err(LedgerError::InsufficientBalance));
    assert_eq!(l.balance_of(ALICE, tao, token), 60);
    assert_eq!(l.balance_of(BOB, tao, token), 40);
}

#[test]
fn create_tao_ids_strictly_increase() {
    let mut l = Ledger::new();
    let a = l.create_tao(ALICE, vec![]);
    let b = l.create_tao(BOB, vec![7]);
    assert!(a < b);
    assert_eq!(a, 1);
    assert_eq!(b, 2);
}

#[test]
fn create_token_requires_collection() {
    let mut l = Ledger::new();
    assert_eq!(l.create_token(ALICE, 9), Err(LedgerError::CollectionNotFound));
    let tao = l.create_tao(ALICE, vec![]);
    let t1 = l.create_token(ALICE, tao).unwrap();
    let t2 = l.create_token(ALICE, tao).unwrap();
    assert!(t1 < t2);
}

#[test]
fn mint_unknown_token_fails() {
    let (mut l, tao, token) = ledger_with_token();
    assert_eq!(l.mint(ALICE, tao, token + 1, 5), Err(LedgerError::InvalidToken));
    assert_eq!(l.mint(ALICE, tao + 1, token, 5), Err(LedgerError::InvalidToken));
    assert_eq!(l.balance_of(ALICE, tao, token), 0);
}

#[test]
fn mint_zero_amount_succeeds() {
    let (mut l, tao, token) = ledger_with_token();
    assert_eq!(l.mint(ALICE, tao, token, 0), Ok(()));
    assert_eq!(l.balance_of(ALICE, tao, token), 0);
}

#[test]
fn balance_of_unknown_triple_is_zero() {
    let l = Ledger::new();
    assert_eq!(l.balance_of(ALICE, 1, 7), 0);
}

#[test]
fn burn_to_zero_and_not_below() {
    let (mut l, tao, token) = ledger_with_token();
    assert_eq!(l.mint(ALICE, tao, token, 30), Ok(()));
    assert_eq!(l.burn(ALICE, tao, token, 30), Ok(()));
    assert_eq!(l.balance_of(ALICE, tao, token), 0);
    assert_eq!(l.burn(ALICE, tao, token, 1), Err(LedgerError::InsufficientBalance));
    assert_eq!(l.balance_of(ALICE, tao, token), 0);
}

#[test]
fn transfer_requires_authorization() {
    let (mut l, tao, token) = ledger_with_token();
    assert_eq!(l.mint(ALICE, tao, token, 50), Ok(()));
    assert_eq!(
        l.transfer_from(CAROL, ALICE, BOB, tao, token, 10),
        Err(LedgerError::NotAuthorized)
    );
    assert_eq!(l.balance_of(ALICE, tao, token), 50);
    assert_eq!(l.balance_of(BOB, tao, token), 0);
}

#[test]
fn operator_can_transfer_after_approval() {
    let (mut l, tao, token) = ledger_with_token();
    assert_eq!(l.mint(ALICE, tao, token, 50), Ok(()));
    l.set_approval_for_all(ALICE, CAROL, true);
    assert!(l.is_approved_for_all(ALICE, CAROL));
    assert!(l.approved_or_owner(CAROL, ALICE));
    assert_eq!(l.transfer_from(CAROL, ALICE, BOB, tao, token, 10), Ok(()));
    assert_eq!(l.balance_of(ALICE, tao, token), 40);
    assert_eq!(l.balance_of(BOB, tao, token), 10);
}

#[test]
fn revoked_operator_is_rejected() {
    let (mut l, tao, token) = ledger_with_token();
    assert_eq!(l.mint(ALICE, tao, token, 50), Ok(()));
    l.set_approval_for_all(ALICE, CAROL, true);
    l.set_approval_for_all(ALICE, CAROL, false);
    assert!(!l.is_approved_for_all(ALICE, CAROL));
    assert_eq!(
        l.transfer_from(CAROL, ALICE, BOB, tao, token, 10),
        Err(LedgerError::NotAuthorized)
    );
    assert_eq!(l.balance_of(ALICE, tao, token), 50);
}

#[test]
fn approval_is_idempotent() {
    let mut once = Ledger::new();
    once.set_approval_for_all(ALICE, BOB, true);
    let mut twice = Ledger::new();
    twice.set_approval_for_all(ALICE, BOB, true);
    twice.set_approval_for_all(ALICE, BOB, true);
    assert!(once.is_approved_for_all(ALICE, BOB));
    assert!(twice.is_approved_for_all(ALICE, BOB));
    assert_eq!(
        once.is_approved_for_all(ALICE, BOB),
        twice.is_approved_for_all(ALICE, BOB)
    );
    assert_eq!(
        once.is_approved_for_all(BOB, ALICE),
        twice.is_approved_for_all(BOB, ALICE)
    );
}

#[test]
fn owner_is_always_authorized() {
    let l = Ledger::new();
    assert!(l.approved_or_owner(ALICE, ALICE));
    assert!(!l.approved_or_owner(ALICE, BOB));
    assert!(!l.is_approved_for_all(ALICE, ALICE));
}

#[test]
fn self_approval_changes_nothing_for_authorization() {
    let mut l = Ledger::new();
    l.set_approval_for_all(ALICE, ALICE, true);
    assert!(l.approved_or_owner(ALICE, ALICE));
    l.set_approval_for_all(ALICE, ALICE, false);
    assert!(l.approved_or_owner(ALICE, ALICE));
}

#[test]
fn transfer_insufficient_balance_fails() {
    let (mut l, tao, token) = ledger_with_token();
    assert_eq!(l.mint(ALICE, tao, token, 5), Ok(()));
    assert_eq!(
        l.transfer_from(ALICE, ALICE, BOB, tao, token, 6),
        Err(LedgerError::InsufficientBalance)
    );
    assert_eq!(l.balance_of(ALICE, tao, token), 5);
    assert_eq!(l.balance_of(BOB, tao, token), 0);
}

#[test]
fn transfer_to_self_keeps_balance() {
    let (mut l, tao, token) = ledger_with_token();
    assert_eq!(l.mint(ALICE, tao, token, 5), Ok(()));
    assert_eq!(l.transfer_from(ALICE, ALICE, ALICE, tao, token, 3), Ok(()));
    assert_eq!(l.balance_of(ALICE, tao, token), 5);
}

#[test]
fn supply_is_conserved_across_operations() {
    let (mut l, tao, token) = ledger_with_token();
    let mut minted: u128 = 0;
    let mut burned: u128 = 0;
    assert_eq!(l.mint(ALICE, tao, token, 100), Ok(()));
    minted += 100;
    assert_eq!(l.mint(BOB, tao, token, 50), Ok(()));
    minted += 50;
    assert_eq!(l.transfer_from(ALICE, ALICE, BOB, tao, token, 30), Ok(()));
    assert_eq!(l.burn(BOB, tao, token, 20), Ok(()));
    burned += 20;
    assert_eq!(l.transfer_from(BOB, BOB, CAROL, tao, token, 25), Ok(()));
    let total = l.balance_of(ALICE, tao, token)
        + l.balance_of(BOB, tao, token)
        + l.balance_of(CAROL, tao, token);
    assert_eq!(total, minted - burned);
    assert_eq!(total, 130);
}
