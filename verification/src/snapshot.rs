//! The journal's observable state as a mathematical record, the undo-log
//! entry variants, and the inverse operation of each entry.
//!
//! Every journal entry carries exactly the information needed to invert the
//! mutation it records without consulting the database again; [`undo_one`]
//! is that inverse, and the journal maintains the invariant that undoing its
//! entries in reverse order walks back through the exact snapshots that were
//! current when each entry was appended.

use vstd::prelude::*;

use crate::account::{resolve_code, AccountModel};
use crate::db::{db_account_at, db_code_at, db_storage_at, DbModel};
use crate::types::{LogModel, Slot};

verus! {

/// The observable state of a journal: total maps over every address and
/// slot, with uncached items reading as what the database holds for them.
#[verifier::ext_equal]
pub ghost struct Snapshot {
    /// Every account's observable record.
    pub accounts: Map<u64, AccountModel>,
    /// Every storage slot's (original, present) pair.
    pub slots: Map<u128, Slot>,
    /// Addresses accessed earlier in the current transaction.
    pub warm_addresses: Set<u64>,
    /// Storage slots accessed earlier in the current transaction.
    pub warm_slots: Set<u128>,
    /// Per-transaction scratch storage; absent entries read as zero.
    pub transient: Map<u128, u128>,
    /// Emitted event records.
    pub logs: Seq<LogModel>,
}

/// The observable record of an account the journal has not cached: what a
/// fresh load from the database would see.
pub open spec fn default_account_model(db: DbModel, address: u64) -> AccountModel {
    let d = db_account_at(db, address);
    AccountModel {
        balance: d.balance,
        nonce: d.nonce,
        code_hash: d.code_hash,
        code: resolve_code(db, None, d.code_hash),
        touched: false,
        created: false,
        destroyed: false,
    }
}

/// The observable pair of a storage slot the journal has not cached: the
/// database value, unmodified.
pub open spec fn default_slot(db: DbModel, slot: u128) -> Slot {
    Slot { original: db_storage_at(db, slot), present: db_storage_at(db, slot) }
}

/// One reversible record of a state mutation.
pub enum JournalEntry {
    /// An address turned warm.
    AccountWarmed {
        /// The address.
        address: u64,
    },
    /// An account was first touched.
    AccountTouched {
        /// The address.
        address: u64,
    },
    /// An account was marked created in this transaction.
    AccountCreated {
        /// The address.
        address: u64,
    },
    /// An account self-destructed, moving its balance to a target.
    AccountDestroyed {
        /// The destroyed account.
        address: u64,
        /// Recipient of the balance.
        target: u64,
        /// Whether the account was already destroyed before this entry.
        was_destroyed: bool,
        /// Balance the account held before destruction.
        had_balance: u128,
        /// Amount actually credited to the target (zero for a self-target).
        target_delta: u128,
    },
    /// A balance moved between two accounts.
    BalanceTransferred {
        /// Debited account.
        from: u64,
        /// Credited account.
        to: u64,
        /// Amount moved.
        amount: u128,
    },
    /// A single account's balance grew.
    BalanceIncreased {
        /// The address.
        address: u64,
        /// Amount actually added.
        amount: u128,
    },
    /// An account's nonce was incremented.
    NonceBumped {
        /// The address.
        address: u64,
    },
    /// An account's code and code hash were replaced.
    CodeChanged {
        /// The address.
        address: u64,
        /// Code field before the change.
        prev_code: Option<Vec<u8>>,
        /// Code hash before the change.
        prev_hash: u64,
    },
    /// A storage slot turned warm.
    StorageWarmed {
        /// Packed slot identifier.
        slot: u128,
    },
    /// A storage slot's present value changed.
    StorageChanged {
        /// Packed slot identifier.
        slot: u128,
        /// Present value before the write.
        had_value: u128,
    },
    /// A transient-storage value changed.
    TransientChanged {
        /// Packed slot identifier.
        slot: u128,
        /// Value before the write (zero when none was set).
        had_value: u128,
    },
    /// An event record was emitted.
    LogEmitted {
        /// Index of the record in the emitted-log sequence.
        index: usize,
    },
}

/// Conditions under which an entry's inverse is meaningful on a snapshot:
/// the bounds that make the arithmetic of [`undo_one`] exact.
pub open spec fn refs_ok(s: Snapshot, e: JournalEntry) -> bool {
    match e {
        JournalEntry::AccountDestroyed { target, target_delta, .. } => s.accounts[target].balance
            >= target_delta,
        JournalEntry::BalanceTransferred { from, to, amount } => {
            let after = s.accounts[to].balance - amount;
            &&& s.accounts[to].balance >= amount
            &&& (if from == to {
                after + amount
            } else {
                s.accounts[from].balance + amount
            }) <= u128::MAX
        },
        JournalEntry::BalanceIncreased { address, amount } => s.accounts[address].balance >= amount,
        JournalEntry::NonceBumped { address } => s.accounts[address].nonce >= 1,
        JournalEntry::LogEmitted { index } => s.logs.len() == index + 1,
        _ => true,
    }
}

/// The inverse of one journal entry, applied to a snapshot.
pub open spec fn undo_one(db: DbModel, s: Snapshot, e: JournalEntry) -> Snapshot {
    match e {
        JournalEntry::AccountWarmed { address } => Snapshot {
            warm_addresses: s.warm_addresses.remove(address),
            ..s
        },
        JournalEntry::AccountTouched { address } => Snapshot {
            accounts: s.accounts.insert(
                address,
                AccountModel { touched: false, ..s.accounts[address] },
            ),
            ..s
        },
        JournalEntry::AccountCreated { address } => Snapshot {
            accounts: s.accounts.insert(
                address,
                AccountModel { created: false, ..s.accounts[address] },
            ),
            ..s
        },
        JournalEntry::AccountDestroyed {
            address,
            target,
            was_destroyed,
            had_balance,
            target_delta,
        } => {
            let step = s.accounts.insert(
                target,
                AccountModel {
                    balance: (s.accounts[target].balance - target_delta) as u128,
                    ..s.accounts[target]
                },
            );
            Snapshot {
                accounts: step.insert(
                    address,
                    AccountModel {
                        balance: had_balance,
                        destroyed: was_destroyed,
                        ..step[address]
                    },
                ),
                ..s
            }
        },
        JournalEntry::BalanceTransferred { from, to, amount } => {
            let step = s.accounts.insert(
                to,
                AccountModel {
                    balance: (s.accounts[to].balance - amount) as u128,
                    ..s.accounts[to]
                },
            );
            Snapshot {
                accounts: step.insert(
                    from,
                    AccountModel { balance: (step[from].balance + amount) as u128, ..step[from] },
                ),
                ..s
            }
        },
        JournalEntry::BalanceIncreased { address, amount } => Snapshot {
            accounts: s.accounts.insert(
                address,
                AccountModel {
                    balance: (s.accounts[address].balance - amount) as u128,
                    ..s.accounts[address]
                },
            ),
            ..s
        },
        JournalEntry::NonceBumped { address } => Snapshot {
            accounts: s.accounts.insert(
                address,
                AccountModel {
                    nonce: (s.accounts[address].nonce - 1) as u64,
                    ..s.accounts[address]
                },
            ),
            ..s
        },
        JournalEntry::CodeChanged { address, prev_code, prev_hash } => Snapshot {
            accounts: s.accounts.insert(
                address,
                AccountModel {
                    code_hash: prev_hash,
                    code: resolve_code(
                        db,
                        match prev_code {
                            Some(c) => Some(c@),
                            None => None,
                        },
                        prev_hash,
                    ),
                    ..s.accounts[address]
                },
            ),
            ..s
        },
        JournalEntry::StorageWarmed { slot } => Snapshot {
            warm_slots: s.warm_slots.remove(slot),
            ..s
        },
        JournalEntry::StorageChanged { slot, had_value } => Snapshot {
            slots: s.slots.insert(
                slot,
                Slot { original: s.slots[slot].original, present: had_value },
            ),
            ..s
        },
        JournalEntry::TransientChanged { slot, had_value } => Snapshot {
            transient: s.transient.insert(slot, had_value),
            ..s
        },
        JournalEntry::LogEmitted { .. } => Snapshot { logs: s.logs.drop_last(), ..s },
    }
}

/// The accounts an entry's executable inverse rewrites; they must stay
/// materialized in the journal's cache until the entry is gone.
pub open spec fn entry_addresses(e: JournalEntry) -> Set<u64> {
    match e {
        JournalEntry::AccountWarmed { .. } => Set::empty(),
        JournalEntry::AccountTouched { address } => Set::empty().insert(address),
        JournalEntry::AccountCreated { address } => Set::empty().insert(address),
        JournalEntry::AccountDestroyed { address, target, .. } => Set::empty().insert(
            address,
        ).insert(target),
        JournalEntry::BalanceTransferred { from, to, .. } => Set::empty().insert(from).insert(to),
        JournalEntry::BalanceIncreased { address, .. } => Set::empty().insert(address),
        JournalEntry::NonceBumped { address } => Set::empty().insert(address),
        JournalEntry::CodeChanged { address, .. } => Set::empty().insert(address),
        JournalEntry::StorageWarmed { .. } => Set::empty(),
        JournalEntry::StorageChanged { .. } => Set::empty(),
        JournalEntry::TransientChanged { .. } => Set::empty(),
        JournalEntry::LogEmitted { .. } => Set::empty(),
    }
}

/// The storage slots an entry's executable inverse rewrites.
pub open spec fn entry_slots(e: JournalEntry) -> Set<u128> {
    match e {
        JournalEntry::StorageChanged { slot, .. } => Set::empty().insert(slot),
        _ => Set::empty(),
    }
}

} // verus!
