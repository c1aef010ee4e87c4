//! Behavioural tests for the journaled state: checkpoint/revert inverses,
//! cold/warm tracking, transfer failures, self-destruct, transaction
//! boundaries and the finalize diff.

use evm_journal::db::MemDb;
use evm_journal::journal::Journal;
use evm_journal::types::{AccountData, Log, SpecId, TransferError, EMPTY_CODE_HASH};

const A: u64 = 0xa11ce;
const B: u64 = 0xb0b;
const C: u64 = 0xca11;
const NEW: u64 = 0x9e9;
const K1: u64 = 1;
const K2: u64 = 2;

fn seeded_db() -> MemDb {
    let mut db = MemDb::new();
    db.set_account(A, AccountData { balance: 100, nonce: 0, code_hash: EMPTY_CODE_HASH });
    db.set_account(B, AccountData { balance: 50, nonce: 0, code_hash: EMPTY_CODE_HASH });
    db.set_storage(A, K1, 7);
    db
}

fn fresh_journal() -> Journal<MemDb> {
    Journal::new(seeded_db(), SpecId::Prague)
}

#[test]
fn revert_restores_every_mutated_account_and_slot() {
    let mut j = fresh_journal();
    let cp = j.checkpoint();
    assert_eq!(j.transfer(A, B, 30).unwrap(), None);
    j.sstore(A, K1, 99).unwrap();
    j.tstore(A, K2, 11);
    j.log(Log { address: A, topics: vec![1], data: vec![2, 3] });
    j.nonce_bump_journal_entry(A);
    j.checkpoint_revert(cp);
    assert_eq!(j.load_account(A).unwrap().data.balance, 100);
    assert_eq!(j.load_account(B).unwrap().data.balance, 50);
    assert_eq!(j.load_account(A).unwrap().data.nonce, 0);
    assert_eq!(j.sload(A, K1).unwrap().data, 7);
    assert_eq!(j.tload(A, K2), 0);
    assert!(j.take_logs().is_empty());
}

#[test]
fn empty_checkpoint_revert_is_a_no_op() {
    let mut j = fresh_journal();
    j.sstore(A, K1, 4).unwrap();
    let cp = j.checkpoint();
    j.checkpoint_revert(cp);
    assert_eq!(j.sload(A, K1).unwrap().data, 4);
    assert_eq!(j.depth(), 0);
}

#[test]
fn committed_inner_checkpoint_is_undone_by_outer_revert() {
    let mut j = fresh_journal();
    let cp_outer = j.checkpoint();
    j.sstore(A, K1, 1).unwrap();
    let cp_inner = j.checkpoint();
    assert_eq!(cp_inner.journal_i > cp_outer.journal_i, true);
    j.sstore(A, K1, 2).unwrap();
    j.checkpoint_commit();
    j.checkpoint_revert(cp_outer);
    assert_eq!(j.sload(A, K1).unwrap().data, 7);
}

#[test]
fn first_access_is_cold_then_warm_until_tx_boundary() {
    let mut j = fresh_journal();
    assert!(j.load_account(A).unwrap().is_cold);
    assert!(!j.load_account(A).unwrap().is_cold);
    assert!(j.sload(A, K1).unwrap().is_cold);
    assert!(!j.sload(A, K1).unwrap().is_cold);
    j.commit_tx();
    assert!(j.load_account(A).unwrap().is_cold);
    assert!(j.sload(A, K1).unwrap().is_cold);
}

#[test]
fn reverting_a_load_re_colds_the_account() {
    let mut j = fresh_journal();
    let cp = j.checkpoint();
    assert!(j.load_account(B).unwrap().is_cold);
    j.checkpoint_revert(cp);
    assert!(j.load_account(B).unwrap().is_cold);
}

#[test]
fn precompiles_are_never_cold() {
    let mut j = fresh_journal();
    let p: u64 = 0x9;
    j.warm_precompiles(vec![p]);
    assert!(!j.load_account(p).unwrap().is_cold);
    j.commit_tx();
    assert!(!j.load_account(p).unwrap().is_cold);
    assert!(j.precompile_addresses().contains(&p));
}

#[test]
fn transfer_out_of_funds_changes_no_balance() {
    let mut j = fresh_journal();
    assert_eq!(j.transfer(A, B, 1000).unwrap(), Some(TransferError::OutOfFunds));
    assert_eq!(j.load_account(A).unwrap().data.balance, 100);
    assert_eq!(j.load_account(B).unwrap().data.balance, 50);
}

#[test]
fn transfer_overflow_payment_changes_no_balance() {
    let mut db = seeded_db();
    db.set_account(C, AccountData { balance: u128::MAX, nonce: 0, code_hash: EMPTY_CODE_HASH });
    let mut j = Journal::new(db, SpecId::Prague);
    assert_eq!(j.transfer(A, C, 5).unwrap(), Some(TransferError::OverflowPayment));
    assert_eq!(j.load_account(A).unwrap().data.balance, 100);
    assert_eq!(j.load_account(C).unwrap().data.balance, u128::MAX);
}

#[test]
fn transfer_moves_the_amount() {
    let mut j = fresh_journal();
    assert_eq!(j.transfer(A, B, 30).unwrap(), None);
    assert_eq!(j.load_account(A).unwrap().data.balance, 70);
    assert_eq!(j.load_account(B).unwrap().data.balance, 80);
}

#[test]
fn self_transfer_keeps_the_balance() {
    let mut j = fresh_journal();
    assert_eq!(j.transfer(A, A, 60).unwrap(), None);
    assert_eq!(j.load_account(A).unwrap().data.balance, 100);
}

#[test]
fn selfdestruct_moves_balance_and_revert_restores_it() {
    let mut j = fresh_journal();
    let cp = j.checkpoint();
    let r = j.selfdestruct(A, B).unwrap();
    assert!(r.data.had_value);
    assert!(r.data.target_exists);
    assert!(!r.data.previously_destroyed);
    assert_eq!(j.load_account(A).unwrap().data.balance, 0);
    assert_eq!(j.load_account(B).unwrap().data.balance, 150);
    let again = j.selfdestruct(A, B).unwrap();
    assert!(again.data.previously_destroyed);
    assert!(!again.data.had_value);
    j.checkpoint_revert(cp);
    assert_eq!(j.load_account(A).unwrap().data.balance, 100);
    assert_eq!(j.load_account(B).unwrap().data.balance, 50);
    let after = j.selfdestruct(A, B).unwrap();
    assert!(!after.data.previously_destroyed);
    assert!(after.data.had_value);
}

#[test]
fn selfdestruct_to_self_burns_the_balance() {
    let mut j = fresh_journal();
    let r = j.selfdestruct(A, A).unwrap();
    assert!(r.data.had_value);
    assert_eq!(j.load_account(A).unwrap().data.balance, 0);
    assert_eq!(j.load_account(B).unwrap().data.balance, 50);
}

#[test]
fn discard_tx_is_idempotent_and_total() {
    let mut j = fresh_journal();
    j.discard_tx();
    assert_eq!(j.load_account(A).unwrap().data.balance, 100);
    j.discard_tx();
    j.discard_tx();
    assert_eq!(j.load_account(A).unwrap().data.balance, 100);
    assert_eq!(j.transfer(A, B, 30).unwrap(), None);
    j.tstore(A, K2, 9);
    j.discard_tx();
    assert_eq!(j.load_account(A).unwrap().data.balance, 100);
    assert_eq!(j.load_account(B).unwrap().data.balance, 50);
    assert_eq!(j.tload(A, K2), 0);
    assert_eq!(j.depth(), 0);
    j.discard_tx();
    assert_eq!(j.load_account(A).unwrap().data.balance, 100);
}

#[test]
fn discard_tx_resets_warm_state() {
    let mut j = fresh_journal();
    assert!(j.load_account(A).unwrap().is_cold);
    assert!(j.sload(A, K1).unwrap().is_cold);
    j.discard_tx();
    assert!(j.load_account(A).unwrap().is_cold);
    assert!(j.sload(A, K1).unwrap().is_cold);
}

#[test]
fn committed_logs_survive_a_later_discard() {
    let mut j = fresh_journal();
    j.log(Log { address: A, topics: vec![1], data: vec![] });
    j.commit_tx();
    j.log(Log { address: B, topics: vec![2], data: vec![] });
    j.discard_tx();
    let logs = j.take_logs();
    assert_eq!(logs.len(), 1);
    assert_eq!(logs[0].address, A);
}

#[test]
fn end_to_end_store_revert_commit_finalize() {
    let mut j = fresh_journal();
    let first = j.sstore(A, K2, 5).unwrap();
    assert_eq!(first.data.original_value, 0);
    assert_eq!(first.data.present_value, 0);
    assert_eq!(first.data.new_value, 5);
    let cp = j.checkpoint();
    let second = j.sstore(A, K2, 0).unwrap();
    assert_eq!(second.data.original_value, 0);
    assert_eq!(second.data.present_value, 5);
    assert_eq!(second.data.new_value, 0);
    j.checkpoint_revert(cp);
    assert_eq!(j.sload(A, K2).unwrap().data, 5);
    j.commit_tx();
    let diff = j.finalize();
    let entry = diff
        .storage
        .iter()
        .find(|d| d.address == A && d.key == K2)
        .expect("changed slot missing from diff");
    assert_eq!(entry.original, 0);
    assert_eq!(entry.present, 5);
}

#[test]
fn finalize_reports_touched_accounts_and_resets() {
    let mut j = fresh_journal();
    assert_eq!(j.transfer(A, B, 30).unwrap(), None);
    let diff = j.finalize();
    let a = diff.accounts.iter().find(|d| d.address == A).expect("sender missing");
    assert_eq!(a.balance, 70);
    assert!(!a.destroyed);
    let b = diff.accounts.iter().find(|d| d.address == B).expect("receiver missing");
    assert_eq!(b.balance, 80);
    // The cache survives finalize; the balances stay as committed, and the
    // first access of the next transaction is cold again.
    let l = j.load_account(A).unwrap();
    assert!(l.is_cold);
    assert_eq!(l.data.balance, 70);
    // A second finalize reports nothing: the touched flags were reset.
    let diff2 = j.finalize();
    assert!(diff2.accounts.is_empty());
    assert!(diff2.storage.is_empty());
}

#[test]
fn finalize_evicts_destroyed_accounts() {
    let mut j = fresh_journal();
    j.selfdestruct(A, B).unwrap();
    let diff = j.finalize();
    let a = diff.accounts.iter().find(|d| d.address == A).expect("destroyed account missing");
    assert!(a.destroyed);
    assert_eq!(a.balance, 0);
    // The destroyed account was evicted, so it reloads from the database.
    assert_eq!(j.load_account(A).unwrap().data.balance, 100);
}

#[test]
fn clear_resets_like_finalize_and_keeps_committed_state() {
    let mut j = fresh_journal();
    assert_eq!(j.transfer(A, B, 30).unwrap(), None);
    j.sstore(A, K1, 9).unwrap();
    j.tstore(A, K2, 3);
    j.log(Log { address: A, topics: vec![], data: vec![] });
    j.clear();
    // Committed values survive, per-transaction residue does not.
    let l = j.load_account(A).unwrap();
    assert!(l.is_cold);
    assert_eq!(l.data.balance, 70);
    let s = j.sload(A, K1).unwrap();
    assert!(s.is_cold);
    assert_eq!(s.data, 9);
    assert_eq!(j.tload(A, K2), 0);
    assert!(j.take_logs().is_empty());
    assert_eq!(j.depth(), 0);
    // The slot's original was rebased, so nothing is left to diff.
    let diff = j.finalize();
    assert!(diff.accounts.is_empty());
    assert!(diff.storage.is_empty());
}

#[test]
fn clear_evicts_destroyed_accounts() {
    let mut j = fresh_journal();
    j.selfdestruct(A, B).unwrap();
    j.clear();
    // The destroyed account reloads fresh from the database.
    assert_eq!(j.load_account(A).unwrap().data.balance, 100);
    assert_eq!(j.load_account(B).unwrap().data.balance, 150);
}

#[test]
fn logs_are_journaled_and_drained() {
    let mut j = fresh_journal();
    j.log(Log { address: A, topics: vec![7], data: vec![] });
    let cp = j.checkpoint();
    j.log(Log { address: B, topics: vec![8], data: vec![9] });
    j.checkpoint_revert(cp);
    j.commit_tx();
    let logs = j.take_logs();
    assert_eq!(logs.len(), 1);
    assert_eq!(logs[0].address, A);
    assert_eq!(logs[0].topics, vec![7]);
    assert!(j.take_logs().is_empty());
}

#[test]
fn code_is_set_journaled_and_read_back() {
    let mut j = fresh_journal();
    j.load_account(A).unwrap();
    let cp = j.checkpoint();
    let hash: u64 = 0xdead;
    j.set_code_with_hash(A, vec![1, 2, 3], hash);
    assert_eq!(j.code(A).unwrap().data, vec![1, 2, 3]);
    assert_eq!(j.code_hash(A).unwrap().data, hash);
    j.checkpoint_revert(cp);
    assert_eq!(j.code(A).unwrap().data, Vec::<u8>::new());
    assert_eq!(j.code_hash(A).unwrap().data, EMPTY_CODE_HASH);
}

#[test]
fn code_hash_of_an_empty_account_is_zero() {
    let mut j = fresh_journal();
    let nobody: u64 = 0x404;
    assert_eq!(j.code_hash(nobody).unwrap().data, 0);
}

#[test]
fn delegated_account_load_reports_delegate_coldness() {
    let mut db = seeded_db();
    let hash: u64 = 0x7702;
    db.set_account(C, AccountData { balance: 0, nonce: 1, code_hash: hash });
    let mut designator: Vec<u8> = vec![0xef, 0x01, 0x00];
    designator.extend_from_slice(&B.to_be_bytes());
    db.set_code(hash, designator);
    let mut j = Journal::new(db, SpecId::Prague);
    let l = j.load_account_delegated(C).unwrap();
    assert!(l.is_cold);
    assert!(!l.data.is_empty);
    assert_eq!(l.data.is_delegate_account_cold, Some(true));
    let l2 = j.load_account_delegated(C).unwrap();
    assert!(!l2.is_cold);
    assert_eq!(l2.data.is_delegate_account_cold, Some(false));
}

#[test]
fn delegation_is_ignored_before_the_delegation_hardfork() {
    let mut db = seeded_db();
    let hash: u64 = 0x7702;
    db.set_account(C, AccountData { balance: 0, nonce: 1, code_hash: hash });
    let mut designator: Vec<u8> = vec![0xef, 0x01, 0x00];
    designator.extend_from_slice(&B.to_be_bytes());
    db.set_code(hash, designator);
    let mut j = Journal::new(db, SpecId::Cancun);
    let l = j.load_account_delegated(C).unwrap();
    assert_eq!(l.data.is_delegate_account_cold, None);
}

#[test]
fn ordinary_code_is_no_delegation() {
    let mut db = seeded_db();
    let hash: u64 = 0x1234;
    db.set_account(C, AccountData { balance: 0, nonce: 1, code_hash: hash });
    db.set_code(hash, vec![0xef, 0x01, 0x00, 0x05]);
    let mut j = Journal::new(db, SpecId::Prague);
    let l = j.load_account_delegated(C).unwrap();
    assert_eq!(l.data.is_delegate_account_cold, None);
}

#[test]
fn create_collides_with_an_occupied_address() {
    let mut db = seeded_db();
    db.set_account(C, AccountData { balance: 0, nonce: 1, code_hash: EMPTY_CODE_HASH });
    let mut j = Journal::new(db, SpecId::Prague);
    j.load_account(A).unwrap();
    j.load_account(C).unwrap();
    assert_eq!(
        j.create_account_checkpoint(A, C, 10, SpecId::Prague),
        Err(TransferError::CreateCollision)
    );
    assert_eq!(j.depth(), 0);
    assert_eq!(j.load_account(A).unwrap().data.balance, 100);
}

#[test]
fn create_collides_on_balance_before_delegation_rules() {
    let mut db = seeded_db();
    db.set_account(C, AccountData { balance: 5, nonce: 0, code_hash: EMPTY_CODE_HASH });
    let mut j = Journal::new(db, SpecId::Cancun);
    j.load_account(A).unwrap();
    j.load_account(C).unwrap();
    assert_eq!(
        j.create_account_checkpoint(A, C, 10, SpecId::Cancun),
        Err(TransferError::CreateCollision)
    );
    let mut db2 = seeded_db();
    db2.set_account(C, AccountData { balance: 5, nonce: 0, code_hash: EMPTY_CODE_HASH });
    let mut j2 = Journal::new(db2, SpecId::Prague);
    j2.load_account(A).unwrap();
    j2.load_account(C).unwrap();
    assert!(j2.create_account_checkpoint(A, C, 10, SpecId::Prague).is_ok());
}

#[test]
fn create_out_of_funds_leaves_nothing_behind() {
    let mut j = fresh_journal();
    j.load_account(A).unwrap();
    j.load_account(NEW).unwrap();
    assert_eq!(
        j.create_account_checkpoint(A, NEW, 1000, SpecId::Prague),
        Err(TransferError::OutOfFunds)
    );
    assert_eq!(j.depth(), 0);
    assert_eq!(j.load_account(A).unwrap().data.balance, 100);
    assert_eq!(j.load_account(NEW).unwrap().data.balance, 0);
}

#[test]
fn create_transfers_endowment_and_revert_undoes_the_creation() {
    let mut j = fresh_journal();
    j.load_account(A).unwrap();
    j.load_account(NEW).unwrap();
    let cp = j.create_account_checkpoint(A, NEW, 10, SpecId::Prague).unwrap();
    assert_eq!(j.depth(), 1);
    assert_eq!(j.load_account(A).unwrap().data.balance, 90);
    assert_eq!(j.load_account(NEW).unwrap().data.balance, 10);
    j.checkpoint_revert(cp);
    assert_eq!(j.load_account(A).unwrap().data.balance, 100);
    assert_eq!(j.load_account(NEW).unwrap().data.balance, 0);
    let diff = j.finalize();
    assert!(diff.accounts.iter().all(|d| !d.created));
}

#[test]
fn balance_incr_adds_and_saturates() {
    let mut j = fresh_journal();
    j.balance_incr(A, 5).unwrap();
    assert_eq!(j.load_account(A).unwrap().data.balance, 105);
    j.balance_incr(A, u128::MAX).unwrap();
    assert_eq!(j.load_account(A).unwrap().data.balance, u128::MAX);
}

#[test]
fn nonce_bump_is_journaled() {
    let mut j = fresh_journal();
    j.load_account(A).unwrap();
    let cp = j.checkpoint();
    j.nonce_bump_journal_entry(A);
    j.nonce_bump_journal_entry(A);
    assert_eq!(j.load_account(A).unwrap().data.nonce, 2);
    j.checkpoint_revert(cp);
    assert_eq!(j.load_account(A).unwrap().data.nonce, 0);
}

#[test]
fn transient_storage_is_per_transaction() {
    let mut j = fresh_journal();
    assert_eq!(j.tload(A, K1), 0);
    j.tstore(A, K1, 42);
    assert_eq!(j.tload(A, K1), 42);
    let cp = j.checkpoint();
    j.tstore(A, K1, 43);
    j.checkpoint_revert(cp);
    assert_eq!(j.tload(A, K1), 42);
    j.commit_tx();
    assert_eq!(j.tload(A, K1), 0);
}

#[test]
fn warm_account_and_storage_preloads_the_access_list() {
    let mut j = fresh_journal();
    j.warm_account_and_storage(A, &vec![K1, K2]).unwrap();
    assert!(!j.load_account(A).unwrap().is_cold);
    assert!(!j.sload(A, K1).unwrap().is_cold);
    assert!(!j.sload(A, K2).unwrap().is_cold);
    assert!(j.sload(B, K1).unwrap().is_cold);
}

#[test]
fn warm_account_alone_marks_without_loading() {
    let mut j = fresh_journal();
    j.warm_account(A);
    assert!(!j.load_account(A).unwrap().is_cold);
    j.warm_coinbase_account(B);
    assert!(!j.load_account(B).unwrap().is_cold);
}

#[test]
fn state_load_construction_and_map() {
    let l = evm_journal::types::StateLoad::new(5u32, true);
    assert_eq!(l.data, 5);
    assert!(l.is_cold);
    let m = l.map(|x| x + 1);
    assert_eq!(m.data, 6);
    assert!(m.is_cold);
}

#[test]
fn spec_id_delegation_flag() {
    assert!(!SpecId::Cancun.has_delegation());
    assert!(SpecId::Prague.has_delegation());
}
