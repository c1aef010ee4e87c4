//! Plain value types exchanged across the journal's interface.

use vstd::prelude::*;

verus! {

/// Hash of the empty bytecode, used for accounts that carry no code.
/// (Stand-in value in the 64-bit hash domain of this model.)
pub const EMPTY_CODE_HASH: u64 = 0xc5d2_4601_86f7_233c;

/// A storage slot is addressed by the owning account's address together
/// with a storage key; the pair is packed into one 128-bit identifier with
/// the address in the high 64 bits.
pub open spec fn slot_id(address: u64, key: u64) -> u128 {
    ((address as u128) * 0x1_0000_0000_0000_0000u128 + (key as u128)) as u128
}

/// Packs an (address, key) pair into its slot identifier.
pub fn make_slot_id(address: u64, key: u64) -> (r: u128)
    ensures
        r == slot_id(address, key),
{
    (address as u128) * 0x1_0000_0000_0000_0000u128 + (key as u128)
}

/// Distinct (address, key) pairs always pack to distinct slot identifiers.
pub proof fn lemma_slot_id_injective(a1: u64, k1: u64, a2: u64, k2: u64)
    requires
        slot_id(a1, k1) == slot_id(a2, k2),
    ensures
        a1 == a2 && k1 == k2,
{
    assert(a1 == a2 && k1 == k2) by (nonlinear_arith)
        requires
            (a1 as u128) * 0x1_0000_0000_0000_0000u128 + (k1 as u128) == (a2 as u128)
                * 0x1_0000_0000_0000_0000u128 + (k2 as u128),
    ;
}

/// One cached storage slot: the first value observed for it in the current
/// transaction and the value it currently holds.
#[derive(Clone, Copy, Debug, PartialEq, Eq, Structural)]
pub struct Slot {
    /// First value ever observed for the slot in this transaction.
    pub original: u128,
    /// Value the slot currently holds.
    pub present: u128,
}

/// Failure classifications for balance transfers and account creation.
#[derive(Clone, Copy, Debug, PartialEq, Eq, Structural)]
pub enum TransferError {
    /// Caller does not have enough funds.
    OutOfFunds,
    /// Overflow in the target account's balance.
    OverflowPayment,
    /// An account already occupies the address being created.
    CreateCollision,
}

/// Marker capturing the journal length and emitted-log length at issuance;
/// reverting to it undoes every entry appended after it.
#[derive(Clone, Copy, Debug, PartialEq, Eq, Structural)]
pub struct JournalCheckpoint {
    /// Emitted-log length at issuance.
    pub log_i: usize,
    /// Journal length at issuance.
    pub journal_i: usize,
}

/// Data returned by a load together with whether the item was cold
/// (not yet accessed in the current transaction).
#[derive(Clone, Debug, PartialEq, Eq)]
pub struct StateLoad<T> {
    /// Returned data.
    pub data: T,
    /// Whether the item was cold before this access.
    pub is_cold: bool,
}

impl<T> StateLoad<T> {
    /// Pairs `data` with the given cold-load status.
    pub fn new(data: T, is_cold: bool) -> (r: StateLoad<T>)
        ensures
            r.data == data,
            r.is_cold == is_cold,
    {
        StateLoad { data, is_cold }
    }

    /// Transforms the carried data without changing the cold-load status.
    pub fn map<B, F: FnOnce(T) -> B>(self, f: F) -> (r: StateLoad<B>)
        requires
            f.requires((self.data,)),
        ensures
            r.is_cold == self.is_cold,
            f.ensures((self.data,), r.data),
    {
        StateLoad { data: f(self.data), is_cold: self.is_cold }
    }
}

/// Snapshot of an account's externally visible scalar fields.
#[derive(Clone, Copy, Debug, PartialEq, Eq, Structural)]
pub struct AccountData {
    /// Current balance.
    pub balance: u128,
    /// Current nonce.
    pub nonce: u64,
    /// Hash of the account's bytecode.
    pub code_hash: u64,
}

/// Classification of an account load used by call dispatch: whether the
/// account is empty (not yet created) and, when its code delegates to
/// another account, whether that delegate was cold.
#[derive(Clone, Copy, Debug, PartialEq, Eq, Structural)]
pub struct AccountLoad {
    /// `Some(cold)` when the account's code delegates to another account;
    /// `cold` tells whether the delegate account was cold.
    pub is_delegate_account_cold: Option<bool>,
    /// Whether the account is empty (zero balance, zero nonce, no code).
    pub is_empty: bool,
}

/// Values reported by a storage write so a gas-model collaborator can
/// classify the write (no-op, fresh write, clear, reset).
#[derive(Clone, Copy, Debug, PartialEq, Eq, Structural)]
pub struct SStoreResult {
    /// First value observed for the slot in this transaction.
    pub original_value: u128,
    /// Value the slot held just before this write.
    pub present_value: u128,
    /// Value written.
    pub new_value: u128,
}

/// Values reported by a self-destruct so refund accounting can be done by
/// the caller.
#[derive(Clone, Copy, Debug, PartialEq, Eq, Structural)]
pub struct SelfDestructResult {
    /// Whether the destroyed account held a nonzero balance.
    pub had_value: bool,
    /// Whether the target account was non-empty.
    pub target_exists: bool,
    /// Whether the account had already self-destructed in this transaction.
    pub previously_destroyed: bool,
}

/// Hardfork selector; only the rules the journal itself consults are
/// distinguished.
#[derive(Clone, Copy, Debug, PartialEq, Eq, Structural)]
pub enum SpecId {
    /// Rules before externally-owned-account delegation.
    Cancun,
    /// Rules with externally-owned-account delegation.
    Prague,
}

impl SpecId {
    /// Whether account-code delegation rules are active.
    pub open spec fn spec_has_delegation(self) -> bool {
        self is Prague
    }

    /// Whether account-code delegation rules are active.
    pub fn has_delegation(&self) -> (r: bool)
        ensures
            r == self.spec_has_delegation(),
    {
        match self {
            SpecId::Cancun => false,
            SpecId::Prague => true,
        }
    }
}

/// Post-state of one touched account, as reported by a finalize diff.
#[derive(Clone, Copy, Debug, PartialEq, Eq, Structural)]
pub struct AccountChange {
    /// The account's address.
    pub address: u64,
    /// Balance at transaction end.
    pub balance: u128,
    /// Nonce at transaction end.
    pub nonce: u64,
    /// Code hash at transaction end.
    pub code_hash: u64,
    /// Whether the account was created in the transaction.
    pub created: bool,
    /// Whether the account self-destructed in the transaction.
    pub destroyed: bool,
}

/// One storage slot whose value changed over the transaction.
#[derive(Clone, Copy, Debug, PartialEq, Eq, Structural)]
pub struct StorageChange {
    /// Owning account.
    pub address: u64,
    /// Storage key.
    pub key: u64,
    /// First value observed in the transaction.
    pub original: u128,
    /// Value at transaction end.
    pub present: u128,
}

/// Immutable diff of everything a transaction changed, suitable for
/// application to the persistent database.
#[derive(Clone, Debug)]
pub struct StateDiff {
    /// Every touched account's post-state.
    pub accounts: Vec<AccountChange>,
    /// Every storage slot whose value changed, for accounts that survive.
    pub storage: Vec<StorageChange>,
}

/// One emitted event record.
#[derive(Clone, Debug)]
pub struct Log {
    /// Address that emitted the event.
    pub address: u64,
    /// Indexed topics.
    pub topics: Vec<u64>,
    /// Unindexed payload.
    pub data: Vec<u8>,
}

/// Mathematical value of a [`Log`].
pub ghost struct LogModel {
    /// Address that emitted the event.
    pub address: u64,
    /// Indexed topics.
    pub topics: Seq<u64>,
    /// Unindexed payload.
    pub data: Seq<u8>,
}

impl View for Log {
    type V = LogModel;

    open spec fn view(&self) -> LogModel {
        LogModel { address: self.address, topics: self.topics@, data: self.data@ }
    }
}

} // verus!
