use anchor_lang::prelude::Pubkey;
use escrow_program::address::{escrow_address, key_bytes, nonce_bytes, same_key};
use escrow_program::escrow::{Make, Refund, Taker};
use escrow_program::ledger::{Escrow, EscrowError, Ledger};

const PROGRAM: [u8; 32] = [7u8; 32];
const MAKER: [u8; 32] = [1u8; 32];
const TAKER: [u8; 32] = [2u8; 32];
const OTHER: [u8; 32] = [3u8; 32];
const MINT_A: [u8; 32] = [10u8; 32];
const MINT_B: [u8; 32] = [11u8; 32];

fn funded() -> Ledger {
    let mut l = Ledger::new(PROGRAM);
    l.add_mint(MINT_A, 6).unwrap();
    l.add_mint(MINT_B, 9).unwrap();
    l.open_holding(&MAKER, &MINT_A).unwrap();
    l.issue(&MAKER, &MINT_A, 1000).unwrap();
    l.open_holding(&TAKER, &MINT_B).unwrap();
    l.issue(&TAKER, &MINT_B, 500).unwrap();
    l
}

fn vault_of(maker: &[u8; 32], seed: u64) -> ([u8; 32], u8) {
    escrow_address(&PROGRAM, maker, seed).unwrap()
}

#[test]
fn derived_address_matches_ledger_search() {
    let (addr, bump) = vault_of(&MAKER, 42);
    let (expected, expected_bump) = Pubkey::find_program_address(
        &[b"escrow", &MAKER, &42u64.to_le_bytes()],
        &Pubkey::new_from_array(PROGRAM),
    );
    assert_eq!(addr, expected.to_bytes());
    assert_eq!(bump, expected_bump);
    assert_ne!(addr, MAKER);
    assert_eq!(escrow_address(&PROGRAM, &MAKER, 42), Some((addr, bump)));
    assert_ne!(vault_of(&MAKER, 43).0, addr);
    assert_ne!(vault_of(&TAKER, 42).0, addr);
}

#[test]
fn nonce_bytes_are_little_endian() {
    assert_eq!(nonce_bytes(0x0102030405060708), vec![8, 7, 6, 5, 4, 3, 2, 1]);
    assert_eq!(nonce_bytes(42), vec![42, 0, 0, 0, 0, 0, 0, 0]);
    assert_eq!(key_bytes(&MAKER), MAKER.to_vec());
    assert!(same_key(&MAKER, &[1u8; 32]));
    assert!(!same_key(&MAKER, &TAKER));
}

#[test]
fn make_then_take_settles_trade() {
    let mut l = funded();
    assert_eq!(l.make(&Make { maker: MAKER, mint_a: MINT_A, mint_b: MINT_B }, 42, 100, 50), Ok(()));
    let (addr, bump) = vault_of(&MAKER, 42);
    assert_eq!(l.balance(&addr, &MINT_A), Some(100));
    assert_eq!(l.balance(&MAKER, &MINT_A), Some(900));
    assert_eq!(
        l.record(&addr),
        Some(Escrow { seed: 42, maker: MAKER, mint_a: MINT_A, mint_b: MINT_B, deposit: 100, receive: 50, bump })
    );
    assert_eq!(l.take(&Taker { taker: TAKER, maker: MAKER, seed: 42 }), Ok(()));
    assert_eq!(l.balance(&MAKER, &MINT_B), Some(50));
    assert_eq!(l.balance(&TAKER, &MINT_B), Some(450));
    assert_eq!(l.balance(&TAKER, &MINT_A), Some(100));
    assert_eq!(l.balance(&MAKER, &MINT_A), Some(900));
    assert_eq!(l.record(&addr), None);
    assert_eq!(l.balance(&addr, &MINT_A), None);
}

#[test]
fn make_then_refund_restores_maker() {
    let mut l = funded();
    l.make(&Make { maker: MAKER, mint_a: MINT_A, mint_b: MINT_B }, 42, 100, 50).unwrap();
    assert_eq!(l.refund(&Refund { caller: MAKER, maker: MAKER, seed: 42 }), Ok(()));
    let (addr, _) = vault_of(&MAKER, 42);
    assert_eq!(l.balance(&MAKER, &MINT_A), Some(1000));
    assert_eq!(l.record(&addr), None);
    assert_eq!(l.balance(&addr, &MINT_A), None);
    assert_eq!(l.take(&Taker { taker: TAKER, maker: MAKER, seed: 42 }), Err(EscrowError::NotFound));
    assert_eq!(l.balance(&TAKER, &MINT_B), Some(500));
}

#[test]
fn duplicate_make_fails_and_changes_nothing() {
    let mut l = funded();
    l.make(&Make { maker: MAKER, mint_a: MINT_A, mint_b: MINT_B }, 42, 100, 50).unwrap();
    assert_eq!(l.make(&Make { maker: MAKER, mint_a: MINT_A, mint_b: MINT_B }, 42, 10, 5), Err(EscrowError::Duplicate));
    let (addr, _) = vault_of(&MAKER, 42);
    assert_eq!(l.balance(&addr, &MINT_A), Some(100));
    assert_eq!(l.balance(&MAKER, &MINT_A), Some(900));
    assert_eq!(l.make(&Make { maker: MAKER, mint_a: MINT_A, mint_b: MINT_B }, 43, 10, 5), Ok(()));
    assert_eq!(l.balance(&MAKER, &MINT_A), Some(890));
}

#[test]
fn second_settle_or_cancel_is_not_found() {
    let mut l = funded();
    l.make(&Make { maker: MAKER, mint_a: MINT_A, mint_b: MINT_B }, 42, 100, 50).unwrap();
    l.take(&Taker { taker: TAKER, maker: MAKER, seed: 42 }).unwrap();
    assert_eq!(l.take(&Taker { taker: TAKER, maker: MAKER, seed: 42 }), Err(EscrowError::NotFound));
    assert_eq!(l.refund(&Refund { caller: MAKER, maker: MAKER, seed: 42 }), Err(EscrowError::NotFound));
}

#[test]
fn refund_by_other_party_is_unauthorized() {
    let mut l = funded();
    l.make(&Make { maker: MAKER, mint_a: MINT_A, mint_b: MINT_B }, 42, 100, 50).unwrap();
    assert_eq!(l.refund(&Refund { caller: TAKER, maker: MAKER, seed: 42 }), Err(EscrowError::Unauthorized));
    let (addr, _) = vault_of(&MAKER, 42);
    assert_eq!(l.balance(&addr, &MINT_A), Some(100));
    assert_eq!(l.refund(&Refund { caller: MAKER, maker: MAKER, seed: 42 }), Ok(()));
}

#[test]
fn make_with_too_little_fails() {
    let mut l = funded();
    assert_eq!(l.make(&Make { maker: MAKER, mint_a: MINT_A, mint_b: MINT_B }, 1, 1001, 5), Err(EscrowError::InsufficientBalance));
    let (addr, _) = vault_of(&MAKER, 1);
    assert_eq!(l.record(&addr), None);
    assert_eq!(l.balance(&addr, &MINT_A), None);
    assert_eq!(l.balance(&MAKER, &MINT_A), Some(1000));
}

#[test]
fn make_with_unknown_mint_or_holding_fails() {
    let mut l = funded();
    assert_eq!(l.make(&Make { maker: MAKER, mint_a: MINT_A, mint_b: [99u8; 32] }, 1, 10, 5), Err(EscrowError::NotFound));
    assert_eq!(l.make(&Make { maker: OTHER, mint_a: MINT_A, mint_b: MINT_B }, 1, 10, 5), Err(EscrowError::NotFound));
}

#[test]
fn take_with_underfunded_taker_changes_nothing() {
    let mut l = funded();
    l.make(&Make { maker: MAKER, mint_a: MINT_A, mint_b: MINT_B }, 42, 100, 600).unwrap();
    assert_eq!(l.take(&Taker { taker: TAKER, maker: MAKER, seed: 42 }), Err(EscrowError::InsufficientBalance));
    assert_eq!(l.balance(&TAKER, &MINT_A), None);
    assert_eq!(l.balance(&MAKER, &MINT_B), None);
    assert_eq!(l.balance(&TAKER, &MINT_B), Some(500));
    assert_eq!(l.take(&Taker { taker: OTHER, maker: MAKER, seed: 42 }), Err(EscrowError::NotFound));
}

#[test]
fn settle_pays_current_vault_balance() {
    let mut l = funded();
    l.make(&Make { maker: MAKER, mint_a: MINT_A, mint_b: MINT_B }, 42, 100, 50).unwrap();
    let (addr, _) = vault_of(&MAKER, 42);
    l.issue(&addr, &MINT_A, 5).unwrap();
    assert_eq!(l.take(&Taker { taker: TAKER, maker: MAKER, seed: 42 }), Ok(()));
    assert_eq!(l.balance(&TAKER, &MINT_A), Some(105));
}

#[test]
fn stored_bump_must_reproduce_address() {
    let mut l = funded();
    let addr = [50u8; 32];
    assert_eq!(l.make_at(addr, 200, MAKER, MINT_A, MINT_B, 9, 100, 50), Ok(()));
    assert_eq!(l.balance(&addr, &MINT_A), Some(100));
    assert_eq!(l.take_at(addr, 201, TAKER, MAKER, 9), Err(EscrowError::AddressDerivationMismatch));
    assert_eq!(l.refund_at(addr, 200, MAKER, MAKER, 8), Err(EscrowError::AddressDerivationMismatch));
    assert_eq!(l.take_at(addr, 200, TAKER, MAKER, 9), Ok(()));
    assert_eq!(l.balance(&TAKER, &MINT_A), Some(100));
    assert_eq!(l.balance(&MAKER, &MINT_B), Some(50));
    assert_eq!(l.take_at(addr, 200, TAKER, MAKER, 9), Err(EscrowError::NotFound));
}

#[test]
fn refund_at_reopens_maker_holding() {
    let mut l = funded();
    let addr = [51u8; 32];
    l.make_at(addr, 1, MAKER, MINT_A, MINT_B, 9, 1000, 50).unwrap();
    l.close_holding(&MAKER, &MINT_A).unwrap();
    assert_eq!(l.balance(&MAKER, &MINT_A), None);
    assert_eq!(l.refund_at(addr, 1, MAKER, MAKER, 9), Ok(()));
    assert_eq!(l.balance(&MAKER, &MINT_A), Some(1000));
}

#[test]
fn transfer_checks_decimals_and_funds() {
    let mut l = funded();
    l.open_holding(&OTHER, &MINT_A).unwrap();
    assert_eq!(l.transfer_checked(&MAKER, &OTHER, &MINT_A, 10, 9), Err(EscrowError::DecimalMismatch));
    assert_eq!(l.transfer_checked(&MAKER, &OTHER, &MINT_A, 1001, 6), Err(EscrowError::InsufficientBalance));
    assert_eq!(l.transfer_checked(&MAKER, &TAKER, &MINT_A, 1, 6), Err(EscrowError::NotFound));
    assert_eq!(l.transfer_checked(&MAKER, &OTHER, &[99u8; 32], 1, 6), Err(EscrowError::NotFound));
    assert_eq!(l.transfer_checked(&MAKER, &OTHER, &MINT_A, 250, 6), Ok(()));
    assert_eq!(l.balance(&MAKER, &MINT_A), Some(750));
    assert_eq!(l.balance(&OTHER, &MINT_A), Some(250));
    assert_eq!(l.transfer_checked(&MAKER, &MAKER, &MINT_A, 750, 6), Ok(()));
    assert_eq!(l.balance(&MAKER, &MINT_A), Some(750));
}

#[test]
fn balances_cannot_overflow() {
    let mut l = funded();
    l.open_holding(&OTHER, &MINT_A).unwrap();
    l.issue(&OTHER, &MINT_A, u64::MAX).unwrap();
    assert_eq!(l.issue(&OTHER, &MINT_A, 1), Err(EscrowError::Overflow));
    assert_eq!(l.transfer_checked(&MAKER, &OTHER, &MINT_A, 1, 6), Err(EscrowError::Overflow));
    assert_eq!(l.balance(&OTHER, &MINT_A), Some(u64::MAX));
}

#[test]
fn holdings_open_and_close() {
    let mut l = funded();
    assert_eq!(l.open_holding(&OTHER, &[99u8; 32]), Err(EscrowError::NotFound));
    assert_eq!(l.open_holding(&MAKER, &MINT_A), Ok(()));
    assert_eq!(l.balance(&MAKER, &MINT_A), Some(1000));
    assert_eq!(l.close_holding(&MAKER, &MINT_A), Err(EscrowError::HoldingNotEmpty));
    assert_eq!(l.close_holding(&OTHER, &MINT_A), Err(EscrowError::NotFound));
    l.open_holding(&OTHER, &MINT_A).unwrap();
    assert_eq!(l.close_holding(&OTHER, &MINT_A), Ok(()));
    assert_eq!(l.balance(&OTHER, &MINT_A), None);
    assert_eq!(l.add_mint(MINT_A, 3), Err(EscrowError::Duplicate));
    assert_eq!(l.decimals(&MINT_A), Some(6));
    assert_eq!(l.decimals(&[99u8; 32]), None);
}
