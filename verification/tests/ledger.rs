use evmstate::backend::{MergeStrategy, MyBackend};
use evmstate::errors::Fault;
use evmstate::laws::{nonce_after_increments, overdraw_fails};
use evmstate::words::{Address, W256};

fn w(x: u64) -> W256 {
    W256::from_u64(x)
}

fn addr(x: u64) -> Address {
    Address::from_u64(x)
}

#[test]
fn absent_addresses_read_as_zero() {
    let b = MyBackend::new();
    let a = addr(1);
    assert_eq!(b.balance(a), W256::zero());
    assert_eq!(b.nonce(a), W256::zero());
    assert_eq!(b.code(a), Vec::<u8>::new());
    assert_eq!(b.storage(a, w(3)), W256::zero());
    assert!(!b.account_exists(a));
    assert!(!b.deleted(a));
    assert!(b.is_cold(a, None));
    assert!(b.is_cold(a, Some(w(3))));
}

#[test]
fn deposit_creates_and_accumulates() {
    let mut b = MyBackend::new();
    let a = addr(1);
    b.deposit(a, w(40));
    assert!(b.account_exists(a));
    assert_eq!(b.balance(a), w(40));
    b.deposit(a, w(2));
    assert_eq!(b.balance(a), w(42));
}

#[test]
fn withdrawal_subtracts_and_rejects_overdraw() {
    let mut b = MyBackend::new();
    let a = addr(1);
    b.deposit(a, w(100));
    assert_eq!(b.withdrawal(a, w(30)), Ok(()));
    assert_eq!(b.balance(a), w(70));
    assert_eq!(b.withdrawal(a, w(71)), Err(Fault::InsufficientFunds));
    assert_eq!(b.balance(a), w(70));
}

#[test]
fn overdraw_by_one_always_fails() {
    let mut b = MyBackend::new();
    let a = addr(9);
    b.deposit(a, w(100));
    let r = overdraw_fails(&mut b, a);
    assert_eq!(r, Err(Fault::InsufficientFunds));
    assert_eq!(b.balance(a), w(100));
    // Also on an account that was never materialized.
    let ghost_account = addr(77);
    let r2 = overdraw_fails(&mut b, ghost_account);
    assert_eq!(r2, Err(Fault::InsufficientFunds));
    assert_eq!(b.balance(ghost_account), W256::zero());
}

#[test]
fn nonce_grows_by_exactly_n() {
    let mut b = MyBackend::new();
    let a = addr(5);
    b.deposit(a, W256::zero());
    assert_eq!(b.inc_nonce(a), Ok(()));
    assert_eq!(b.nonce(a), w(1));
    nonce_after_increments(&mut b, a, 41);
    assert_eq!(b.nonce(a), w(42));
}

#[test]
fn mutating_an_absent_shell_is_fatal() {
    let mut b = MyBackend::new();
    let a = addr(5);
    assert_eq!(b.inc_nonce(a), Err(Fault::AccountNotFound));
    assert_eq!(b.set_code(a, vec![1]), Err(Fault::AccountNotFound));
    assert_eq!(b.set_storage(a, w(1), w(2)), Err(Fault::AccountNotFound));
    assert!(!b.account_exists(a));
}

#[test]
fn storage_reads_back_and_defaults_to_zero() {
    let mut b = MyBackend::new();
    let a = addr(2);
    b.deposit(a, W256::zero());
    assert_eq!(b.set_storage(a, w(7), w(11)), Ok(()));
    assert_eq!(b.storage(a, w(7)), w(11));
    assert_eq!(b.storage(a, w(8)), W256::zero());
    assert_eq!(b.set_storage(a, w(7), w(12)), Ok(()));
    assert_eq!(b.storage(a, w(7)), w(12));
}

#[test]
fn original_storage_reports_transaction_start() {
    let mut b = MyBackend::new();
    let a = addr(2);
    b.deposit(a, W256::zero());
    assert_eq!(b.set_storage(a, w(7), w(1)), Ok(()));
    // The slot was written in this transaction: its original value is
    // the pre-write zero word.
    assert_eq!(b.original_storage(a, w(7)), W256::zero());
    b.begin_transaction();
    assert_eq!(b.original_storage(a, w(7)), w(1));
    assert_eq!(b.set_storage(a, w(7), w(2)), Ok(()));
    assert_eq!(b.set_storage(a, w(7), w(3)), Ok(()));
    assert_eq!(b.storage(a, w(7)), w(3));
    assert_eq!(b.original_storage(a, w(7)), w(1));
}

#[test]
fn mark_delete_leaves_a_tombstone() {
    let mut b = MyBackend::new();
    let a = addr(3);
    b.deposit(a, w(10));
    assert_eq!(b.set_code(a, vec![0xfe]), Ok(()));
    assert_eq!(b.set_storage(a, w(1), w(2)), Ok(()));
    b.mark_delete(a);
    assert!(b.deleted(a));
    assert!(b.account_exists(a));
    assert_eq!(b.code(a), Vec::<u8>::new());
    assert_eq!(b.storage(a, w(1)), W256::zero());
    assert_eq!(b.balance(a), w(10));
}

#[test]
fn reset_operations_clear_substructures() {
    let mut b = MyBackend::new();
    let a = addr(3);
    b.deposit(a, w(10));
    assert_eq!(b.set_storage(a, w(1), w(2)), Ok(()));
    b.reset_storage(a);
    assert_eq!(b.storage(a, w(1)), W256::zero());
    assert!(b.account_exists(a));
    b.reset_balance(a);
    assert_eq!(b.balance(a), W256::zero());
    assert!(b.account_exists(a));
}

#[test]
fn coldness_is_per_address_and_per_key() {
    let mut b = MyBackend::new();
    let a = addr(4);
    b.deposit(a, W256::zero());
    assert!(b.is_cold(a, None));
    assert!(b.is_cold(a, Some(w(1))));
    b.mark_hot(a, Some(w(1)));
    assert!(b.is_cold(a, None));
    assert!(!b.is_cold(a, Some(w(1))));
    assert!(b.is_cold(a, Some(w(2))));
    b.mark_hot(a, None);
    assert!(!b.is_cold(a, None));
}

#[test]
fn revert_round_trip_restores_storage_and_coldness() {
    let mut b = MyBackend::new();
    let a = addr(4);
    b.deposit(a, W256::zero());
    assert_eq!(b.set_storage(a, w(7), w(1)), Ok(()));
    b.push_substate();
    assert_eq!(b.set_storage(a, w(7), w(2)), Ok(()));
    b.mark_hot(a, Some(w(7)));
    b.mark_hot(a, None);
    assert_eq!(b.storage(a, w(7)), w(2));
    assert!(!b.is_cold(a, Some(w(7))));
    b.pop_substate(MergeStrategy::Revert);
    assert_eq!(b.storage(a, w(7)), w(1));
    assert!(b.is_cold(a, Some(w(7))));
    assert!(b.is_cold(a, None));
    assert_eq!(b.substate_depth(), 0);
}

#[test]
fn commit_keeps_inner_mutations() {
    let mut b = MyBackend::new();
    let a = addr(4);
    b.deposit(a, W256::zero());
    b.push_substate();
    assert_eq!(b.set_storage(a, w(7), w(2)), Ok(()));
    b.pop_substate(MergeStrategy::Commit);
    assert_eq!(b.storage(a, w(7)), w(2));
    assert_eq!(b.substate_depth(), 0);
}

#[test]
fn discard_is_final_even_under_a_later_commit() {
    let mut b = MyBackend::new();
    let a = addr(4);
    b.deposit(a, W256::zero());
    assert_eq!(b.set_storage(a, w(7), w(1)), Ok(()));
    b.push_substate();
    b.push_substate();
    assert_eq!(b.set_storage(a, w(7), w(2)), Ok(()));
    b.pop_substate(MergeStrategy::Discard);
    b.pop_substate(MergeStrategy::Commit);
    assert_eq!(b.storage(a, w(7)), w(1));
    assert_eq!(b.substate_depth(), 0);
}

#[test]
fn environment_getters_report_the_mock_block() {
    let b = MyBackend::new();
    assert_eq!(b.chain_id(), w(1173));
    assert_eq!(b.block_number(), W256::zero());
    assert_eq!(b.block_hash(w(5)), b.mock_block.block_hash);
    assert_eq!(b.block_coinbase(), Address::zero());
    assert_eq!(b.block_gas_limit(), W256::zero());
    assert_eq!(b.block_timestamp(), W256::zero());
    assert_eq!(b.block_difficulty(), W256::zero());
    assert_eq!(b.block_base_fee_per_gas(), W256::zero());
    assert_eq!(b.block_randomness(), Some(W256::zero()));
}
