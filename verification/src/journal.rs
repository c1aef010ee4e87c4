//! The journal: account cache, warm-set tracker, undo log, checkpoint
//! manager and transaction boundary controller in one exclusively owned
//! object, generic over the database collaborator it loads through.

use vstd::prelude::*;

use crate::account::{
    account_is_empty, account_model, delegate_of, delegate_target, Account, AccountModel,
};
use crate::db::{Database, DbModel};
use crate::snapshot::{
    default_account_model, default_slot, entry_addresses, entry_slots, refs_ok, undo_one,
    JournalEntry, Snapshot,
};
use crate::types::{
    lemma_slot_id_injective, make_slot_id, slot_id, AccountChange, AccountData, AccountLoad,
    JournalCheckpoint, Log, LogModel, SStoreResult, SelfDestructResult, Slot, SpecId, StateDiff,
    StateLoad, StorageChange, TransferError, EMPTY_CODE_HASH,
};
use vstd::hash_map::HashMapWithView;
use vstd::hash_set::HashSetWithView;

verus! {

broadcast use vstd::std_specs::hash::group_hash_axioms;

/// The journaled state.  All mutating operations describe their effect on
/// [`Self::snapshot`]; [`Self::snapshot_at`] gives the snapshot that was
/// current when the i-th journal entry was appended, and reverting restores
/// those snapshots exactly.
pub struct Journal<DB: Database> {
    db: DB,
    cache: HashMapWithView<u64, Account>,
    account_keys: Vec<u64>,
    slots: HashMapWithView<u128, Slot>,
    slot_keys: Vec<(u64, u64)>,
    transient: HashMapWithView<u128, u128>,
    warm_addresses: HashSetWithView<u64>,
    warm_slots: HashSetWithView<u128>,
    precompiles: Vec<u64>,
    logs: Vec<Log>,
    entries: Vec<JournalEntry>,
    history: Ghost<Seq<Snapshot>>,
    depth: usize,
    spec_id: SpecId,
    transaction_id: u64,
}

impl<DB: Database> Journal<DB> {
    /// Mathematical content of the borrowed database.
    pub closed spec fn db_model(&self) -> DbModel {
        self.db.db()
    }

    /// Whether an account is materialized in the cache.
    pub closed spec fn is_cached(&self, address: u64) -> bool {
        self.cache@.dom().contains(address)
    }

    /// Whether a storage slot is materialized in the cache.
    pub closed spec fn is_slot_cached(&self, slot: u128) -> bool {
        self.slots@.dom().contains(slot)
    }

    /// Whether an address is configured permanently warm.
    pub closed spec fn is_precompile(&self, address: u64) -> bool {
        self.precompiles@.contains(address)
    }

    /// The configured hardfork.
    pub closed spec fn hardfork(&self) -> SpecId {
        self.spec_id
    }

    /// Number of undo entries currently in the journal.
    pub closed spec fn journal_len(&self) -> nat {
        self.entries@.len()
    }

    /// Current call-nesting depth.
    pub closed spec fn call_depth(&self) -> nat {
        self.depth as nat
    }

    /// The journal's observable state.
    pub closed spec fn snapshot(&self) -> Snapshot {
        Snapshot {
            accounts: Map::total(
                |a: u64|
                    if self.cache@.dom().contains(a) {
                        account_model(self.cache@[a], self.db.db())
                    } else {
                        default_account_model(self.db.db(), a)
                    },
            ),
            slots: Map::total(
                |sid: u128|
                    if self.slots@.dom().contains(sid) {
                        self.slots@[sid]
                    } else {
                        default_slot(self.db.db(), sid)
                    },
            ),
            warm_addresses: self.warm_addresses@,
            warm_slots: self.warm_slots@,
            transient: Map::total(
                |sid: u128|
                    if self.transient@.dom().contains(sid) {
                        self.transient@[sid]
                    } else {
                        0
                    },
            ),
            logs: self.logs@.map_values(|l: Log| l@),
        }
    }

    /// The observable state that was current when the `i`-th journal entry
    /// was appended; at `i == journal_len()` it is the current snapshot.
    pub closed spec fn snapshot_at(&self, i: int) -> Snapshot {
        if i == self.entries@.len() {
            self.snapshot()
        } else {
            self.history@[i]
        }
    }

    /// Packed slot identifiers of the cached slots, in insertion order.
    spec fn slot_id_seq(&self) -> Seq<u128> {
        self.slot_keys@.map_values(|p: (u64, u64)| slot_id(p.0, p.1))
    }

    /// Structural well-formedness: the ghost history matches the undo log,
    /// undoing entry `i` from the snapshot after it yields the snapshot
    /// before it, every entry's rewrite targets stay materialized, and the
    /// key lists mirror the cache domains.
    pub closed spec fn wf(&self) -> bool {
        &&& self.history@.len() == self.entries@.len()
        &&& forall|i: int|
            0 <= i < self.entries@.len() ==> {
                &&& refs_ok(self.snapshot_at(i + 1), #[trigger] self.entries@[i])
                &&& undo_one(self.db.db(), self.snapshot_at(i + 1), self.entries@[i])
                    == self.snapshot_at(i)
                &&& entry_addresses(self.entries@[i]).subset_of(self.cache@.dom())
                &&& entry_slots(self.entries@[i]).subset_of(self.slots@.dom())
            }
        &&& self.account_keys@.no_duplicates()
        &&& self.account_keys@.to_set() =~= self.cache@.dom()
        &&& self.slot_id_seq().no_duplicates()
        &&& self.slot_id_seq().to_set() =~= self.slots@.dom()
        &&& forall|j: int|
            0 <= j < self.slot_keys@.len() ==> self.cache@.dom().contains(
                (#[trigger] self.slot_keys@[j]).0,
            )
    }

    /// Whether `later` still carries every snapshot `self` carried: the
    /// journal has only grown, and every snapshot up to `self`'s length is
    /// unchanged.  Every mutating operation preserves this, which is what
    /// makes an outstanding checkpoint meaningful across arbitrary later
    /// mutations.
    pub open spec fn preserved_by(self, later: Self) -> bool {
        &&& later.journal_len() >= self.journal_len()
        &&& forall|i: int|
            0 <= i <= self.journal_len() ==> later.snapshot_at(i) == #[trigger] self.snapshot_at(i)
        &&& later.db_model() == self.db_model()
        &&& forall|a: u64| self.is_cached(a) ==> #[trigger] later.is_cached(a)
        &&& forall|sid: u128| self.is_slot_cached(sid) ==> #[trigger] later.is_slot_cached(sid)
    }

    /// A fresh journal over the given database: nothing cached, nothing
    /// warm, no entries, depth zero.
    pub fn new(database: DB, spec_id: SpecId) -> (r: Journal<DB>)
        ensures
            r.wf(),
            r.db_model() == database.db(),
            r.journal_len() == 0,
            r.call_depth() == 0,
            r.hardfork() == spec_id,
            forall|a: u64| !r.is_cached(a),
            forall|sid: u128| !r.is_slot_cached(sid),
            forall|a: u64| !r.is_precompile(a),
            r.snapshot() == initial_snapshot(database.db()),
    {
        let r = Journal {
            db: database,
            cache: HashMapWithView::new(),
            account_keys: Vec::new(),
            slots: HashMapWithView::new(),
            slot_keys: Vec::new(),
            transient: HashMapWithView::new(),
            warm_addresses: HashSetWithView::new(),
            warm_slots: HashSetWithView::new(),
            precompiles: Vec::new(),
            logs: Vec::new(),
            entries: Vec::new(),
            history: Ghost(Seq::empty()),
            depth: 0,
            spec_id,
            transaction_id: 0,
        };
        proof {
            assert(r.snapshot() =~~= initial_snapshot(r.db.db()));
        }
        r
    }

    /// Read access to the database collaborator.
    pub fn db(&self) -> (r: &DB)
        ensures
            r.db() == self.db_model(),
    {
        &self.db
    }

    /// Current call-nesting depth.
    pub fn depth(&self) -> (r: usize)
        ensures
            r == self.call_depth(),
    {
        self.depth
    }

    /// Sets the hardfork the journal's rules follow.
    pub fn set_spec_id(&mut self, spec_id: SpecId)
        requires
            old(self).wf(),
        ensures
            final(self).wf(),
            final(self).hardfork() == spec_id,
            final(self).snapshot() == old(self).snapshot(),
            final(self).journal_len() == old(self).journal_len(),
            final(self).call_depth() == old(self).call_depth(),
            old(self).preserved_by(*final(self)),
            forall|a: u64| final(self).is_precompile(a) == old(self).is_precompile(a),
    {
        self.spec_id = spec_id;
    }

    /// Appending one entry whose inverse leads from the new snapshot back to
    /// the old one keeps the journal well-formed and preserves every
    /// snapshot that was already recorded.
    proof fn lemma_wf_after_append(pre: Self, post: Self, e: JournalEntry)
        requires
            pre.wf(),
            post.entries@ == pre.entries@.push(e),
            post.history@ == pre.history@.push(pre.snapshot()),
            post.db.db() == pre.db.db(),
            refs_ok(post.snapshot(), e),
            undo_one(post.db.db(), post.snapshot(), e) == pre.snapshot(),
            entry_addresses(e).subset_of(post.cache@.dom()),
            entry_slots(e).subset_of(post.slots@.dom()),
            pre.cache@.dom().subset_of(post.cache@.dom()),
            pre.slots@.dom().subset_of(post.slots@.dom()),
            post.account_keys@.no_duplicates(),
            post.account_keys@.to_set() == post.cache@.dom(),
            post.slot_id_seq().no_duplicates(),
            post.slot_id_seq().to_set() == post.slots@.dom(),
            forall|j: int|
                0 <= j < post.slot_keys@.len() ==> post.cache@.dom().contains(
                    (#[trigger] post.slot_keys@[j]).0,
                ),
        ensures
            post.wf(),
            pre.preserved_by(post),
            post.journal_len() == pre.journal_len() + 1,
    {
        assert forall|i: int| 0 <= i <= pre.entries@.len() implies post.snapshot_at(i)
            == pre.snapshot_at(i) by {
            if i == pre.entries@.len() {
                assert(post.snapshot_at(i) == post.history@[i]);
                assert(post.history@[i] == pre.snapshot());
            }
        }
        assert forall|i: int| 0 <= i < post.entries@.len() implies {
            &&& refs_ok(post.snapshot_at(i + 1), #[trigger] post.entries@[i])
            &&& undo_one(post.db.db(), post.snapshot_at(i + 1), post.entries@[i])
                == post.snapshot_at(i)
            &&& entry_addresses(post.entries@[i]).subset_of(post.cache@.dom())
            &&& entry_slots(post.entries@[i]).subset_of(post.slots@.dom())
        } by {
            if i < pre.entries@.len() {
                assert(post.entries@[i] == pre.entries@[i]);
                assert(post.snapshot_at(i + 1) == pre.snapshot_at(i + 1));
                assert(post.snapshot_at(i) == pre.snapshot_at(i));
            } else {
                assert(post.entries@[i] == e);
                assert(post.snapshot_at(i + 1) == post.snapshot());
                assert(post.snapshot_at(i) == pre.snapshot());
            }
        }
    }

    /// Snapshot preservation composes.  Every mutating operation ensures
    /// `old(self).preserved_by(final(self))`, so by this lemma any sequence
    /// of operations run after a checkpoint still preserves the snapshot
    /// recorded at the checkpoint's position — and `checkpoint_revert`
    /// restores exactly that snapshot, whatever ran in between and however
    /// many inner checkpoints were committed along the way.
    pub proof fn lemma_preserved_trans(a: Self, b: Self, c: Self)
        requires
            a.preserved_by(b),
            b.preserved_by(c),
        ensures
            a.preserved_by(c),
    {
        assert forall|i: int| 0 <= i <= a.journal_len() implies c.snapshot_at(i) == a.snapshot_at(
            i,
        ) by {
            assert(b.snapshot_at(i) == a.snapshot_at(i));
            assert(c.snapshot_at(i) == b.snapshot_at(i));
        }
        assert forall|x: u64| a.is_cached(x) implies #[trigger] c.is_cached(x) by {
            assert(b.is_cached(x));
        }
        assert forall|s: u128| a.is_slot_cached(s) implies #[trigger] c.is_slot_cached(s) by {
            assert(b.is_slot_cached(s));
        }
    }

    /// Marks an address warm, journaling the transition when it was cold.
    /// Permanently warm precompile addresses are never cold and never
    /// journaled.  Returns whether the address was cold.
    fn mark_address_warm(&mut self, address: u64) -> (cold: bool)
        requires
            old(self).wf(),
        ensures
            final(self).wf(),
            old(self).preserved_by(*final(self)),
            cold == (!old(self).snapshot().warm_addresses.contains(address) && !old(
                self,
            ).is_precompile(address)),
            final(self).snapshot() == (Snapshot {
                warm_addresses: if cold {
                    old(self).snapshot().warm_addresses.insert(address)
                } else {
                    old(self).snapshot().warm_addresses
                },
                ..old(self).snapshot()
            }),
            final(self).journal_len() == old(self).journal_len() + (if cold {
                1int
            } else {
                0int
            }),
            forall|a: u64| final(self).is_cached(a) == old(self).is_cached(a),
            forall|a: u64| final(self).code_loaded(a) == old(self).code_loaded(a),
            forall|s: u128| final(self).is_slot_cached(s) == old(self).is_slot_cached(s),
            final(self).call_depth() == old(self).call_depth(),
            final(self).hardfork() == old(self).hardfork(),
            forall|a: u64| final(self).is_precompile(a) == old(self).is_precompile(a),
    {
        let ghost pre = *self;
        if self.warm_addresses.contains(&address) || vec_contains_u64(&self.precompiles, address) {
            proof {
                assert(final(self).snapshot() =~~= (Snapshot { ..pre.snapshot() }));
                assert forall|i: int| 0 <= i <= pre.journal_len() implies self.snapshot_at(i)
                    == pre.snapshot_at(i) by {}
            }
            return false;
        }
        self.warm_addresses.insert(address);
        let e = JournalEntry::AccountWarmed { address };
        self.entries.push(e);
        self.history = Ghost(self.history@.push(pre.snapshot()));
        proof {
            assert(self.snapshot() =~~= (Snapshot {
                warm_addresses: pre.snapshot().warm_addresses.insert(address),
                ..pre.snapshot()
            }));
            assert(undo_one(self.db.db(), self.snapshot(), e) =~~= pre.snapshot());
            Self::lemma_wf_after_append(pre, *self, e);
        }
        true
    }

    /// Marks a storage slot warm, journaling the transition when it was
    /// cold.  Returns whether the slot was cold.
    fn mark_slot_warm(&mut self, sid: u128) -> (cold: bool)
        requires
            old(self).wf(),
        ensures
            final(self).wf(),
            old(self).preserved_by(*final(self)),
            cold == !old(self).snapshot().warm_slots.contains(sid),
            final(self).snapshot() == (Snapshot {
                warm_slots: if cold {
                    old(self).snapshot().warm_slots.insert(sid)
                } else {
                    old(self).snapshot().warm_slots
                },
                ..old(self).snapshot()
            }),
            final(self).journal_len() == old(self).journal_len() + (if cold {
                1int
            } else {
                0int
            }),
            forall|a: u64| final(self).is_cached(a) == old(self).is_cached(a),
            forall|s: u128| final(self).is_slot_cached(s) == old(self).is_slot_cached(s),
            final(self).call_depth() == old(self).call_depth(),
            final(self).hardfork() == old(self).hardfork(),
            forall|a: u64| final(self).is_precompile(a) == old(self).is_precompile(a),
    {
        let ghost pre = *self;
        if self.warm_slots.contains(&sid) {
            proof {
                assert(final(self).snapshot() =~~= (Snapshot { ..pre.snapshot() }));
            }
            return false;
        }
        self.warm_slots.insert(sid);
        let e = JournalEntry::StorageWarmed { slot: sid };
        self.entries.push(e);
        self.history = Ghost(self.history@.push(pre.snapshot()));
        proof {
            assert(self.snapshot() =~~= (Snapshot {
                warm_slots: pre.snapshot().warm_slots.insert(sid),
                ..pre.snapshot()
            }));
            assert(undo_one(self.db.db(), self.snapshot(), e) =~~= pre.snapshot());
            Self::lemma_wf_after_append(pre, *self, e);
        }
        true
    }

    /// Marks an address warm without loading it, so a later load in the
    /// same transaction classifies as warm.  Reverting past this entry
    /// re-colds the address.
    pub fn warm_account(&mut self, address: u64)
        requires
            old(self).wf(),
        ensures
            final(self).wf(),
            old(self).preserved_by(*final(self)),
            final(self).snapshot() == (Snapshot {
                warm_addresses: if old(self).is_precompile(address) {
                    old(self).snapshot().warm_addresses
                } else {
                    old(self).snapshot().warm_addresses.insert(address)
                },
                ..old(self).snapshot()
            }),
            final(self).journal_len() <= old(self).journal_len() + 1,
            forall|a: u64| final(self).is_cached(a) == old(self).is_cached(a),
            forall|s: u128| final(self).is_slot_cached(s) == old(self).is_slot_cached(s),
            final(self).call_depth() == old(self).call_depth(),
            final(self).hardfork() == old(self).hardfork(),
            forall|a: u64| final(self).is_precompile(a) == old(self).is_precompile(a),
    {
        let cold = self.mark_address_warm(address);
        proof {
            if !cold && !old(self).is_precompile(address) {
                assert(old(self).snapshot().warm_addresses.insert(address)
                    =~= old(self).snapshot().warm_addresses);
                assert(final(self).snapshot() =~~= (Snapshot {
                    warm_addresses: old(self).snapshot().warm_addresses.insert(address),
                    ..old(self).snapshot()
                }));
            }
        }
    }

    /// Marks the coinbase account warm for the current transaction.
    pub fn warm_coinbase_account(&mut self, address: u64)
        requires
            old(self).wf(),
        ensures
            final(self).wf(),
            old(self).preserved_by(*final(self)),
            final(self).snapshot() == (Snapshot {
                warm_addresses: if old(self).is_precompile(address) {
                    old(self).snapshot().warm_addresses
                } else {
                    old(self).snapshot().warm_addresses.insert(address)
                },
                ..old(self).snapshot()
            }),
            final(self).journal_len() <= old(self).journal_len() + 1,
            forall|a: u64| final(self).is_cached(a) == old(self).is_cached(a),
            forall|s: u128| final(self).is_slot_cached(s) == old(self).is_slot_cached(s),
            final(self).call_depth() == old(self).call_depth(),
            final(self).hardfork() == old(self).hardfork(),
            forall|a: u64| final(self).is_precompile(a) == old(self).is_precompile(a),
    {
        self.warm_account(address);
    }

    /// Replaces the set of permanently warm precompile addresses.  This is
    /// configuration, not transactional state: it is not journaled and
    /// survives commits and reverts.
    pub fn warm_precompiles(&mut self, addresses: Vec<u64>)
        requires
            old(self).wf(),
        ensures
            final(self).wf(),
            old(self).preserved_by(*final(self)),
            final(self).snapshot() == old(self).snapshot(),
            final(self).journal_len() == old(self).journal_len(),
            forall|a: u64| final(self).is_precompile(a) == addresses@.contains(a),
            forall|a: u64| final(self).is_cached(a) == old(self).is_cached(a),
            forall|s: u128| final(self).is_slot_cached(s) == old(self).is_slot_cached(s),
            final(self).call_depth() == old(self).call_depth(),
            final(self).hardfork() == old(self).hardfork(),
    {
        self.precompiles = addresses;
    }

    /// The addresses configured permanently warm.
    pub fn precompile_addresses(&self) -> (r: &Vec<u64>)
        ensures
            forall|a: u64| r@.contains(a) == self.is_precompile(a),
    {
        &self.precompiles
    }

    /// Warms an account and a set of its storage slots ahead of execution
    /// (access-list style): everything is loaded and marked warm, values
    /// unchanged.
    pub fn warm_account_and_storage(&mut self, address: u64, storage_keys: &Vec<u64>) -> (r:
        Result<(), DB::Error>)
        requires
            old(self).wf(),
        ensures
            final(self).wf(),
            old(self).preserved_by(*final(self)),
            final(self).call_depth() == old(self).call_depth(),
            final(self).hardfork() == old(self).hardfork(),
            forall|a: u64| final(self).is_precompile(a) == old(self).is_precompile(a),
            final(self).snapshot().accounts == old(self).snapshot().accounts,
            final(self).snapshot().slots == old(self).snapshot().slots,
            final(self).snapshot().transient == old(self).snapshot().transient,
            final(self).snapshot().logs == old(self).snapshot().logs,
            old(self).is_cached(address) && (forall|t: int|
                0 <= t < storage_keys@.len() ==> old(self).is_slot_cached(
                    slot_id(address, #[trigger] storage_keys@[t]),
                )) ==> r is Ok,
            r is Ok ==> {
                &&& final(self).is_cached(address)
                &&& final(self).snapshot().warm_addresses == (if old(self).is_precompile(address) {
                    old(self).snapshot().warm_addresses
                } else {
                    old(self).snapshot().warm_addresses.insert(address)
                })
                &&& forall|t: int|
                    0 <= t < storage_keys@.len() ==> final(self).snapshot().warm_slots.contains(
                        slot_id(address, #[trigger] storage_keys@[t]),
                    )
                &&& forall|s: u128|
                    final(self).snapshot().warm_slots.contains(s) ==> (old(
                        self,
                    ).snapshot().warm_slots.contains(s) || exists|t: int|
                        0 <= t < storage_keys@.len() && slot_id(address, #[trigger] storage_keys@[t])
                            == s)
            },
    {
        let ghost pre = *self;
        match self.load_account_internal(address) {
            Ok(_) => {},
            Err(er) => {
                return Err(er);
            },
        }
        let ghost mid = *self;
        let mut i: usize = 0;
        while i < storage_keys.len()
            invariant
                self.wf(),
                mid.wf(),
                0 <= i <= storage_keys@.len(),
                pre == *old(self),
                pre.preserved_by(mid),
                mid.preserved_by(*self),
                mid.call_depth() == pre.call_depth(),
                mid.hardfork() == pre.hardfork(),
                forall|a: u64| mid.is_precompile(a) == pre.is_precompile(a),
                mid.snapshot().accounts == pre.snapshot().accounts,
                mid.snapshot().slots == pre.snapshot().slots,
                mid.snapshot().transient == pre.snapshot().transient,
                mid.snapshot().logs == pre.snapshot().logs,
                mid.snapshot().warm_slots == pre.snapshot().warm_slots,
                mid.snapshot().warm_addresses == (if !pre.snapshot().warm_addresses.contains(
                    address,
                ) && !pre.is_precompile(address) {
                    pre.snapshot().warm_addresses.insert(address)
                } else {
                    pre.snapshot().warm_addresses
                }),
                mid.is_cached(address),
                self.is_cached(address),
                self.snapshot().accounts == mid.snapshot().accounts,
                self.snapshot().slots == mid.snapshot().slots,
                self.snapshot().transient == mid.snapshot().transient,
                self.snapshot().logs == mid.snapshot().logs,
                self.snapshot().warm_addresses == mid.snapshot().warm_addresses,
                forall|t: int|
                    0 <= t < i ==> self.snapshot().warm_slots.contains(
                        slot_id(address, #[trigger] storage_keys@[t]),
                    ),
                forall|s: u128|
                    self.snapshot().warm_slots.contains(s) ==> (mid.snapshot().warm_slots.contains(
                        s,
                    ) || exists|t: int|
                        0 <= t < i && slot_id(address, #[trigger] storage_keys@[t]) == s),
                self.call_depth() == mid.call_depth(),
                self.hardfork() == mid.hardfork(),
                forall|a: u64| self.is_precompile(a) == mid.is_precompile(a),
            decreases storage_keys@.len() - i,
        {
            let ghost before = *self;
            match self.load_slot_internal(address, storage_keys[i]) {
                Ok(_) => {},
                Err(er) => {
                    proof {
                        Self::lemma_preserved_trans(pre, mid, *self);
                        assert(mid.call_depth() == pre.call_depth());
                        if pre.is_cached(address) && (forall|t: int|
                            0 <= t < storage_keys@.len() ==> pre.is_slot_cached(
                                slot_id(address, #[trigger] storage_keys@[t]),
                            )) {
                            assert(pre.is_slot_cached(slot_id(address, storage_keys@[i as int])));
                            assert(mid.is_slot_cached(slot_id(address, storage_keys@[i as int])));
                            assert(false);
                        }
                    }
                    return Err(er);
                },
            }
            i = i + 1;
            proof {
                assert forall|s: u128|
                    self.snapshot().warm_slots.contains(s) implies (mid.snapshot(
                ).warm_slots.contains(s) || exists|t: int|
                    0 <= t < i && slot_id(address, #[trigger] storage_keys@[t]) == s) by {
                    if !before.snapshot().warm_slots.contains(s) {
                        assert(s == slot_id(address, storage_keys@[i - 1]));
                    }
                }
            }
        }
        proof {
            Self::lemma_preserved_trans(pre, mid, *self);
            if !pre.is_precompile(address) {
                assert(self.snapshot().warm_addresses =~= pre.snapshot().warm_addresses.insert(
                    address,
                ));
            }
        }
        Ok(())
    }

    /// Reads a transient-storage value; a slot never written reads as zero.
    pub fn tload(&self, address: u64, key: u64) -> (r: u128)
        ensures
            r == self.snapshot().transient[slot_id(address, key)],
    {
        let sid = make_slot_id(address, key);
        match self.transient.get(&sid) {
            Some(v) => *v,
            None => 0,
        }
    }

    /// Writes a transient-storage value, journaling the previous value so a
    /// reverted sub-call also reverts the write.  The whole transient map is
    /// cleared at the transaction boundary regardless of commit or revert.
    pub fn tstore(&mut self, address: u64, key: u64, value: u128)
        requires
            old(self).wf(),
        ensures
            final(self).wf(),
            old(self).preserved_by(*final(self)),
            final(self).snapshot() == (Snapshot {
                transient: old(self).snapshot().transient.insert(slot_id(address, key), value),
                ..old(self).snapshot()
            }),
            final(self).journal_len() <= old(self).journal_len() + 1,
            forall|a: u64| final(self).is_cached(a) == old(self).is_cached(a),
            forall|s: u128| final(self).is_slot_cached(s) == old(self).is_slot_cached(s),
            final(self).call_depth() == old(self).call_depth(),
            final(self).hardfork() == old(self).hardfork(),
            forall|a: u64| final(self).is_precompile(a) == old(self).is_precompile(a),
    {
        let ghost pre = *self;
        let sid = make_slot_id(address, key);
        let had = match self.transient.get(&sid) {
            Some(v) => *v,
            None => 0,
        };
        if had == value {
            proof {
                assert(final(self).snapshot().transient =~= pre.snapshot().transient.insert(
                    sid,
                    value,
                ));
                assert(final(self).snapshot() =~~= (Snapshot {
                    transient: pre.snapshot().transient.insert(sid, value),
                    ..pre.snapshot()
                }));
            }
            return ;
        }
        self.transient.insert(sid, value);
        let e = JournalEntry::TransientChanged { slot: sid, had_value: had };
        self.entries.push(e);
        self.history = Ghost(self.history@.push(pre.snapshot()));
        proof {
            assert(self.snapshot().transient =~= pre.snapshot().transient.insert(sid, value));
            assert(self.snapshot() =~~= (Snapshot {
                transient: pre.snapshot().transient.insert(sid, value),
                ..pre.snapshot()
            }));
            assert(undo_one(self.db.db(), self.snapshot(), e).transient =~= pre.snapshot().transient);
            assert(undo_one(self.db.db(), self.snapshot(), e) =~~= pre.snapshot());
            Self::lemma_wf_after_append(pre, *self, e);
        }
    }

    /// Appends an emitted event record, journaling its index so a reverted
    /// sub-call truncates the emitted-log sequence back.
    pub fn log(&mut self, record: Log)
        requires
            old(self).wf(),
        ensures
            final(self).wf(),
            old(self).preserved_by(*final(self)),
            final(self).snapshot() == (Snapshot {
                logs: old(self).snapshot().logs.push(record@),
                ..old(self).snapshot()
            }),
            final(self).journal_len() == old(self).journal_len() + 1,
            forall|a: u64| final(self).is_cached(a) == old(self).is_cached(a),
            forall|s: u128| final(self).is_slot_cached(s) == old(self).is_slot_cached(s),
            final(self).call_depth() == old(self).call_depth(),
            final(self).hardfork() == old(self).hardfork(),
            forall|a: u64| final(self).is_precompile(a) == old(self).is_precompile(a),
    {
        let ghost pre = *self;
        let index = self.logs.len();
        self.logs.push(record);
        let e = JournalEntry::LogEmitted { index };
        self.entries.push(e);
        self.history = Ghost(self.history@.push(pre.snapshot()));
        proof {
            assert(self.snapshot().logs =~= pre.snapshot().logs.push(self.logs@[index as int]@));
            assert(self.snapshot() =~~= (Snapshot {
                logs: pre.snapshot().logs.push(self.logs@[index as int]@),
                ..pre.snapshot()
            }));
            assert(undo_one(self.db.db(), self.snapshot(), e).logs =~= pre.snapshot().logs);
            assert(undo_one(self.db.db(), self.snapshot(), e) =~~= pre.snapshot());
            Self::lemma_wf_after_append(pre, *self, e);
        }
    }

    /// Drains the emitted event records.  Only meaningful at a transaction
    /// boundary, after the undo log has been committed or discarded.
    pub fn take_logs(&mut self) -> (r: Vec<Log>)
        requires
            old(self).wf(),
            old(self).journal_len() == 0,
        ensures
            final(self).wf(),
            final(self).journal_len() == 0,
            r@.map_values(|l: Log| l@) == old(self).snapshot().logs,
            final(self).snapshot() == (Snapshot {
                logs: Seq::<LogModel>::empty(),
                ..old(self).snapshot()
            }),
            final(self).db_model() == old(self).db_model(),
            forall|a: u64| final(self).is_cached(a) == old(self).is_cached(a),
            forall|s: u128| final(self).is_slot_cached(s) == old(self).is_slot_cached(s),
            final(self).call_depth() == old(self).call_depth(),
            final(self).hardfork() == old(self).hardfork(),
            forall|a: u64| final(self).is_precompile(a) == old(self).is_precompile(a),
    {
        let ghost pre = *self;
        let mut out: Vec<Log> = Vec::new();
        core::mem::swap(&mut out, &mut self.logs);
        proof {
            assert(self.snapshot() =~~= (Snapshot {
                logs: Seq::<LogModel>::empty(),
                ..pre.snapshot()
            }));
            assert(self.snapshot().logs =~= Seq::<LogModel>::empty());
        }
        out
    }

    /// The snapshot that results from replacing one account's model.
    pub open spec fn with_account_model(self, address: u64, m: AccountModel) -> Snapshot {
        Snapshot { accounts: self.snapshot().accounts.insert(address, m), ..self.snapshot() }
    }

    /// Replaces the scalar fields of a cached account (code untouched) and
    /// journals the given entry, whose inverse must lead from the new
    /// snapshot back to the old one.
    fn journal_scalar_update(
        &mut self,
        address: u64,
        balance: u128,
        nonce: u64,
        touched: bool,
        created: bool,
        destroyed: bool,
        e: JournalEntry,
    )
        requires
            old(self).wf(),
            old(self).is_cached(address),
            entry_addresses(e).subset_of(old(self).snapshot_cached_addresses()),
            entry_slots(e).subset_of(old(self).snapshot_cached_slots()),
            refs_ok(
                old(self).with_account_model(
                    address,
                    (AccountModel {
                        balance,
                        nonce,
                        touched,
                        created,
                        destroyed,
                        ..old(self).snapshot().accounts[address]
                    }),
                ),
                e,
            ),
            undo_one(
                old(self).db_model(),
                old(self).with_account_model(
                    address,
                    (AccountModel {
                        balance,
                        nonce,
                        touched,
                        created,
                        destroyed,
                        ..old(self).snapshot().accounts[address]
                    }),
                ),
                e,
            ) == old(self).snapshot(),
        ensures
            final(self).wf(),
            old(self).preserved_by(*final(self)),
            final(self).snapshot() == old(self).with_account_model(
                address,
                (AccountModel {
                    balance,
                    nonce,
                    touched,
                    created,
                    destroyed,
                    ..old(self).snapshot().accounts[address]
                }),
            ),
            final(self).journal_len() == old(self).journal_len() + 1,
            forall|a: u64| final(self).is_cached(a) == old(self).is_cached(a),
            forall|s: u128| final(self).is_slot_cached(s) == old(self).is_slot_cached(s),
            final(self).call_depth() == old(self).call_depth(),
            final(self).hardfork() == old(self).hardfork(),
            forall|a: u64| final(self).is_precompile(a) == old(self).is_precompile(a),
    {
        let ghost pre = *self;
        let mut acct = self.cache.remove(&address).unwrap();
        acct.balance = balance;
        acct.nonce = nonce;
        acct.touched = touched;
        acct.created = created;
        acct.destroyed = destroyed;
        self.cache.insert(address, acct);
        self.entries.push(e);
        self.history = Ghost(self.history@.push(pre.snapshot()));
        proof {
            assert(self.cache@.dom() =~= pre.cache@.dom());
            assert(self.snapshot().accounts =~= pre.snapshot().accounts.insert(
                address,
                (AccountModel {
                    balance,
                    nonce,
                    touched,
                    created,
                    destroyed,
                    ..pre.snapshot().accounts[address]
                }),
            ));
            assert(self.snapshot() =~~= pre.with_account_model(
                address,
                (AccountModel {
                    balance,
                    nonce,
                    touched,
                    created,
                    destroyed,
                    ..pre.snapshot().accounts[address]
                }),
            ));
            Self::lemma_wf_after_append(pre, *self, e);
        }
    }

    /// The set of materialized account addresses.
    spec fn snapshot_cached_addresses(self) -> Set<u64> {
        self.cache@.dom()
    }

    /// The set of materialized storage-slot identifiers.
    spec fn snapshot_cached_slots(self) -> Set<u128> {
        self.slots@.dom()
    }

    /// Marks a cached account touched, journaling the transition when the
    /// flag flips.
    fn touch_entry(&mut self, address: u64)
        requires
            old(self).wf(),
            old(self).is_cached(address),
        ensures
            final(self).wf(),
            old(self).preserved_by(*final(self)),
            final(self).snapshot() == old(self).with_account_model(
                address,
                (AccountModel { touched: true, ..old(self).snapshot().accounts[address] }),
            ),
            final(self).journal_len() <= old(self).journal_len() + 1,
            forall|a: u64| final(self).is_cached(a) == old(self).is_cached(a),
            forall|s: u128| final(self).is_slot_cached(s) == old(self).is_slot_cached(s),
            final(self).call_depth() == old(self).call_depth(),
            final(self).hardfork() == old(self).hardfork(),
            forall|a: u64| final(self).is_precompile(a) == old(self).is_precompile(a),
    {
        let ghost pre = *self;
        let acct = self.cache.get(&address).unwrap();
        let touched = acct.touched;
        let balance = acct.balance;
        let nonce = acct.nonce;
        let created = acct.created;
        let destroyed = acct.destroyed;
        if touched {
            proof {
                assert(pre.snapshot().accounts.insert(address, pre.snapshot().accounts[address])
                    =~= pre.snapshot().accounts);
                assert(self.snapshot() =~~= pre.with_account_model(
                    address,
                    (AccountModel { touched: true, ..pre.snapshot().accounts[address] }),
                ));
            }
            return ;
        }
        let e = JournalEntry::AccountTouched { address };
        proof {
            let m2 = AccountModel { touched: true, ..pre.snapshot().accounts[address] };
            let s2 = pre.with_account_model(address, m2);
            assert(s2.accounts.insert(address, (AccountModel { touched: false, ..s2.accounts[address] }))
                =~= pre.snapshot().accounts);
            assert(undo_one(pre.db_model(), s2, e) =~~= pre.snapshot());
            assert(entry_addresses(e).subset_of(pre.snapshot_cached_addresses()));
        }
        self.journal_scalar_update(address, balance, nonce, true, created, destroyed, e);
    }

    /// Marks the account touched if it is materialized; untouched addresses
    /// are left alone.
    pub fn touch_account(&mut self, address: u64)
        requires
            old(self).wf(),
        ensures
            final(self).wf(),
            old(self).preserved_by(*final(self)),
            final(self).snapshot() == (if old(self).is_cached(address) {
                old(self).with_account_model(
                    address,
                    (AccountModel { touched: true, ..old(self).snapshot().accounts[address] }),
                )
            } else {
                old(self).snapshot()
            }),
            final(self).journal_len() <= old(self).journal_len() + 1,
            forall|a: u64| final(self).is_cached(a) == old(self).is_cached(a),
            forall|s: u128| final(self).is_slot_cached(s) == old(self).is_slot_cached(s),
            final(self).call_depth() == old(self).call_depth(),
            final(self).hardfork() == old(self).hardfork(),
            forall|a: u64| final(self).is_precompile(a) == old(self).is_precompile(a),
    {
        if self.cache.contains_key(&address) {
            self.touch_entry(address);
        }
    }

    /// Materializing a cache entry that reads exactly as its database
    /// default changes no snapshot and keeps the journal well-formed.
    proof fn lemma_wf_after_growth(pre: Self, post: Self)
        requires
            pre.wf(),
            post.entries@ == pre.entries@,
            post.history@ == pre.history@,
            post.db.db() == pre.db.db(),
            post.snapshot() == pre.snapshot(),
            pre.cache@.dom().subset_of(post.cache@.dom()),
            pre.slots@.dom().subset_of(post.slots@.dom()),
            post.account_keys@.no_duplicates(),
            post.account_keys@.to_set() == post.cache@.dom(),
            post.slot_id_seq().no_duplicates(),
            post.slot_id_seq().to_set() == post.slots@.dom(),
            forall|j: int|
                0 <= j < post.slot_keys@.len() ==> post.cache@.dom().contains(
                    (#[trigger] post.slot_keys@[j]).0,
                ),
        ensures
            post.wf(),
            pre.preserved_by(post),
            post.journal_len() == pre.journal_len(),
    {
        assert forall|i: int| 0 <= i <= pre.entries@.len() implies post.snapshot_at(i)
            == pre.snapshot_at(i) by {}
    }

    /// Materializes an account in the cache, loading it from the database
    /// when absent, and marks it warm.  Returns whether the address was
    /// cold.  A failing database call leaves the journal unchanged.
    fn load_account_internal(&mut self, address: u64) -> (r: Result<bool, DB::Error>)
        requires
            old(self).wf(),
        ensures
            final(self).wf(),
            final(self).call_depth() == old(self).call_depth(),
            final(self).hardfork() == old(self).hardfork(),
            forall|a: u64| final(self).is_precompile(a) == old(self).is_precompile(a),
            forall|a: u64| old(self).code_loaded(a) ==> final(self).code_loaded(a),
            old(self).is_cached(address) ==> r is Ok,
            r matches Ok(cold) ==> {
                &&& old(self).preserved_by(*final(self))
                &&& final(self).is_cached(address)
                &&& forall|a: u64|
                    a != address ==> final(self).is_cached(a) == old(self).is_cached(a)
                &&& forall|s: u128| final(self).is_slot_cached(s) == old(self).is_slot_cached(s)
                &&& cold == (!old(self).snapshot().warm_addresses.contains(address) && !old(
                    self,
                ).is_precompile(address))
                &&& final(self).snapshot() == (Snapshot {
                    warm_addresses: if cold {
                        old(self).snapshot().warm_addresses.insert(address)
                    } else {
                        old(self).snapshot().warm_addresses
                    },
                    ..old(self).snapshot()
                })
                &&& final(self).journal_len() == old(self).journal_len() + (if cold {
                    1int
                } else {
                    0int
                })
            },
            r is Err ==> {
                &&& final(self).snapshot() == old(self).snapshot()
                &&& final(self).journal_len() == old(self).journal_len()
                &&& old(self).preserved_by(*final(self))
                &&& forall|a: u64| final(self).is_cached(a) == old(self).is_cached(a)
                &&& forall|s: u128| final(self).is_slot_cached(s) == old(self).is_slot_cached(s)
            },
    {
        if !self.cache.contains_key(&address) {
            let ghost pre = *self;
            match self.db.get_account(address) {
                Ok(seed) => {
                    let acct = match seed {
                        Some(d) => Account {
                            balance: d.balance,
                            nonce: d.nonce,
                            code_hash: d.code_hash,
                            code: None,
                            touched: false,
                            created: false,
                            destroyed: false,
                        },
                        None => Account {
                            balance: 0,
                            nonce: 0,
                            code_hash: EMPTY_CODE_HASH,
                            code: None,
                            touched: false,
                            created: false,
                            destroyed: false,
                        },
                    };
                    self.cache.insert(address, acct);
                    self.account_keys.push(address);
                    proof {
                        assert(account_model(self.cache@[address], self.db.db())
                            =~= default_account_model(self.db.db(), address));
                        assert(self.snapshot().accounts =~= pre.snapshot().accounts);
                        assert(self.snapshot() =~~= pre.snapshot());
                        assert(!pre.account_keys@.contains(address));
                        lemma_push_to_set(pre.account_keys@, address);
                        assert(self.account_keys@.to_set() =~= pre.cache@.dom().insert(address));
                        Self::lemma_wf_after_growth(pre, *self);
                    }
                },
                Err(er) => {
                    proof {
                        assert forall|i: int| 0 <= i <= pre.journal_len() implies self.snapshot_at(
                            i,
                        ) == pre.snapshot_at(i) by {}
                    }
                    return Err(er);
                },
            }
        }
        let cold = self.mark_address_warm(address);
        Ok(cold)
    }

    /// Loads an account, fetching it from the database on first reference in
    /// the transaction, marking it warm, and reporting whether this access
    /// was cold.  A load changes no account's observable record.
    pub fn load_account(&mut self, address: u64) -> (r: Result<StateLoad<AccountData>, DB::Error>)
        requires
            old(self).wf(),
        ensures
            final(self).wf(),
            final(self).call_depth() == old(self).call_depth(),
            final(self).hardfork() == old(self).hardfork(),
            forall|a: u64| final(self).is_precompile(a) == old(self).is_precompile(a),
            old(self).is_cached(address) ==> r is Ok,
            r matches Ok(l) ==> {
                &&& old(self).preserved_by(*final(self))
                &&& final(self).is_cached(address)
                &&& l.is_cold == (!old(self).snapshot().warm_addresses.contains(address) && !old(
                    self,
                ).is_precompile(address))
                &&& l.data.balance == old(self).snapshot().accounts[address].balance
                &&& l.data.nonce == old(self).snapshot().accounts[address].nonce
                &&& l.data.code_hash == old(self).snapshot().accounts[address].code_hash
                &&& final(self).snapshot() == (Snapshot {
                    warm_addresses: if l.is_cold {
                        old(self).snapshot().warm_addresses.insert(address)
                    } else {
                        old(self).snapshot().warm_addresses
                    },
                    ..old(self).snapshot()
                })
                &&& final(self).journal_len() == old(self).journal_len() + (if l.is_cold {
                    1int
                } else {
                    0int
                })
            },
            r is Err ==> final(self).snapshot() == old(self).snapshot() && final(self).journal_len()
                == old(self).journal_len() && old(self).preserved_by(*final(self)),
    {
        let cold = match self.load_account_internal(address) {
            Ok(c) => c,
            Err(er) => {
                return Err(er);
            },
        };
        let acct = self.cache.get(&address).unwrap();
        let data = AccountData { balance: acct.balance, nonce: acct.nonce, code_hash: acct.code_hash };
        Ok(StateLoad { data, is_cold: cold })
    }

    /// The snapshot that results from replacing one storage slot.
    pub open spec fn with_slot(self, sid: u128, s: Slot) -> Snapshot {
        Snapshot { slots: self.snapshot().slots.insert(sid, s), ..self.snapshot() }
    }

    /// Replaces a cached storage slot and journals the given entry, whose
    /// inverse must lead from the new snapshot back to the old one.
    fn journal_slot_update(&mut self, sid: u128, s: Slot, e: JournalEntry)
        requires
            old(self).wf(),
            old(self).is_slot_cached(sid),
            entry_addresses(e).subset_of(old(self).snapshot_cached_addresses()),
            entry_slots(e).subset_of(old(self).snapshot_cached_slots()),
            refs_ok(old(self).with_slot(sid, s), e),
            undo_one(old(self).db_model(), old(self).with_slot(sid, s), e) == old(self).snapshot(),
        ensures
            final(self).wf(),
            old(self).preserved_by(*final(self)),
            final(self).snapshot() == old(self).with_slot(sid, s),
            final(self).journal_len() == old(self).journal_len() + 1,
            forall|a: u64| final(self).is_cached(a) == old(self).is_cached(a),
            forall|t: u128| final(self).is_slot_cached(t) == old(self).is_slot_cached(t),
            final(self).call_depth() == old(self).call_depth(),
            final(self).hardfork() == old(self).hardfork(),
            forall|a: u64| final(self).is_precompile(a) == old(self).is_precompile(a),
    {
        let ghost pre = *self;
        self.slots.remove(&sid);
        self.slots.insert(sid, s);
        self.entries.push(e);
        self.history = Ghost(self.history@.push(pre.snapshot()));
        proof {
            assert(self.slots@.dom() =~= pre.slots@.dom());
            assert(self.snapshot().slots =~= pre.snapshot().slots.insert(sid, s));
            assert(self.snapshot() =~~= pre.with_slot(sid, s));
            Self::lemma_wf_after_append(pre, *self, e);
        }
    }

    /// Materializes a storage slot in the cache, fetching its value from the
    /// database when absent, and marks it warm.  Returns whether the slot
    /// was cold.
    fn load_slot_internal(&mut self, address: u64, key: u64) -> (r: Result<bool, DB::Error>)
        requires
            old(self).wf(),
            old(self).is_cached(address),
        ensures
            final(self).wf(),
            final(self).call_depth() == old(self).call_depth(),
            final(self).hardfork() == old(self).hardfork(),
            forall|a: u64| final(self).is_precompile(a) == old(self).is_precompile(a),
            old(self).is_slot_cached(slot_id(address, key)) ==> r is Ok,
            r matches Ok(cold) ==> {
                &&& old(self).preserved_by(*final(self))
                &&& final(self).is_slot_cached(slot_id(address, key))
                &&& forall|a: u64| final(self).is_cached(a) == old(self).is_cached(a)
                &&& forall|t: u128|
                    t != slot_id(address, key) ==> final(self).is_slot_cached(t) == old(
                        self,
                    ).is_slot_cached(t)
                &&& cold == !old(self).snapshot().warm_slots.contains(slot_id(address, key))
                &&& final(self).snapshot() == (Snapshot {
                    warm_slots: if cold {
                        old(self).snapshot().warm_slots.insert(slot_id(address, key))
                    } else {
                        old(self).snapshot().warm_slots
                    },
                    ..old(self).snapshot()
                })
                &&& final(self).journal_len() == old(self).journal_len() + (if cold {
                    1int
                } else {
                    0int
                })
            },
            r is Err ==> {
                &&& final(self).snapshot() == old(self).snapshot()
                &&& final(self).journal_len() == old(self).journal_len()
                &&& old(self).preserved_by(*final(self))
                &&& forall|a: u64| final(self).is_cached(a) == old(self).is_cached(a)
                &&& forall|t: u128| final(self).is_slot_cached(t) == old(self).is_slot_cached(t)
            },
    {
        let sid = make_slot_id(address, key);
        if !self.slots.contains_key(&sid) {
            let ghost pre = *self;
            match self.db.get_storage(address, key) {
                Ok(v) => {
                    self.slots.insert(sid, Slot { original: v, present: v });
                    self.slot_keys.push((address, key));
                    proof {
                        assert(self.snapshot().slots =~= pre.snapshot().slots);
                        assert(self.snapshot() =~~= pre.snapshot());
                        assert(self.slot_id_seq() =~= pre.slot_id_seq().push(sid));
                        assert(!pre.slot_id_seq().contains(sid));
                        lemma_push_to_set(pre.slot_id_seq(), sid);
                        assert(self.slot_id_seq().to_set() =~= pre.slots@.dom().insert(sid));
                        Self::lemma_wf_after_growth(pre, *self);
                    }
                },
                Err(er) => {
                    proof {
                        assert forall|i: int| 0 <= i <= pre.journal_len() implies self.snapshot_at(
                            i,
                        ) == pre.snapshot_at(i) by {}
                    }
                    return Err(er);
                },
            }
        }
        let cold = self.mark_slot_warm(sid);
        Ok(cold)
    }

    /// Reads a storage slot, loading the account and the slot (warming both
    /// as needed), and reports whether the slot access was cold.  A read
    /// changes no slot's observable pair.
    pub fn sload(&mut self, address: u64, key: u64) -> (r: Result<StateLoad<u128>, DB::Error>)
        requires
            old(self).wf(),
        ensures
            final(self).wf(),
            final(self).call_depth() == old(self).call_depth(),
            final(self).hardfork() == old(self).hardfork(),
            forall|a: u64| final(self).is_precompile(a) == old(self).is_precompile(a),
            old(self).is_cached(address) && old(self).is_slot_cached(slot_id(address, key))
                ==> r is Ok,
            r matches Ok(l) ==> {
                &&& old(self).preserved_by(*final(self))
                &&& final(self).is_cached(address)
                &&& final(self).is_slot_cached(slot_id(address, key))
                &&& l.is_cold == !old(self).snapshot().warm_slots.contains(slot_id(address, key))
                &&& l.data == old(self).snapshot().slots[slot_id(address, key)].present
                &&& final(self).snapshot() == (Snapshot {
                    warm_addresses: if !old(self).snapshot().warm_addresses.contains(address)
                        && !old(self).is_precompile(address) {
                        old(self).snapshot().warm_addresses.insert(address)
                    } else {
                        old(self).snapshot().warm_addresses
                    },
                    warm_slots: if l.is_cold {
                        old(self).snapshot().warm_slots.insert(slot_id(address, key))
                    } else {
                        old(self).snapshot().warm_slots
                    },
                    ..old(self).snapshot()
                })
                &&& final(self).journal_len() <= old(self).journal_len() + 2
            },
            r is Err ==> {
                &&& old(self).preserved_by(*final(self))
                &&& final(self).snapshot().accounts == old(self).snapshot().accounts
                &&& final(self).snapshot().slots == old(self).snapshot().slots
                &&& final(self).snapshot().transient == old(self).snapshot().transient
                &&& final(self).snapshot().logs == old(self).snapshot().logs
                &&& final(self).snapshot().warm_slots == old(self).snapshot().warm_slots
                &&& forall|a: u64|
                    old(self).snapshot().warm_addresses.contains(a) ==> final(self).snapshot().warm_addresses.contains(a)
                &&& forall|a: u64|
                    final(self).snapshot().warm_addresses.contains(a) ==> old(
                        self,
                    ).snapshot().warm_addresses.contains(a) || a == address
            },
    {
        let ghost pre = *self;
        match self.load_account_internal(address) {
            Ok(_) => {},
            Err(er) => {
                return Err(er);
            },
        }
        let ghost mid = *self;
        let cold = match self.load_slot_internal(address, key) {
            Ok(c) => c,
            Err(er) => {
                return Err(er);
            },
        };
        let sid = make_slot_id(address, key);
        let slot = *self.slots.get(&sid).unwrap();
        proof {
            assert(self.snapshot() =~~= (Snapshot {
                warm_addresses: mid.snapshot().warm_addresses,
                warm_slots: self.snapshot().warm_slots,
                ..pre.snapshot()
            }));
        }
        Ok(StateLoad { data: slot.present, is_cold: cold })
    }

    /// Writes a storage slot: loads the account and slot (warming both as
    /// needed), journals the previous present value, and reports the
    /// original/present/new triple the gas model classifies.
    pub fn sstore(&mut self, address: u64, key: u64, value: u128) -> (r: Result<
        StateLoad<SStoreResult>,
        DB::Error,
    >)
        requires
            old(self).wf(),
        ensures
            final(self).wf(),
            final(self).call_depth() == old(self).call_depth(),
            final(self).hardfork() == old(self).hardfork(),
            forall|a: u64| final(self).is_precompile(a) == old(self).is_precompile(a),
            old(self).is_cached(address) && old(self).is_slot_cached(slot_id(address, key))
                ==> r is Ok,
            r matches Ok(l) ==> {
                &&& old(self).preserved_by(*final(self))
                &&& final(self).is_cached(address)
                &&& final(self).is_slot_cached(slot_id(address, key))
                &&& l.is_cold == !old(self).snapshot().warm_slots.contains(slot_id(address, key))
                &&& l.data.original_value == old(self).snapshot().slots[slot_id(
                    address,
                    key,
                )].original
                &&& l.data.present_value == old(self).snapshot().slots[slot_id(address, key)].present
                &&& l.data.new_value == value
                &&& final(self).snapshot() == (Snapshot {
                    slots: old(self).snapshot().slots.insert(
                        slot_id(address, key),
                        (Slot {
                            original: old(self).snapshot().slots[slot_id(address, key)].original,
                            present: value,
                        }),
                    ),
                    warm_addresses: if !old(self).snapshot().warm_addresses.contains(address)
                        && !old(self).is_precompile(address) {
                        old(self).snapshot().warm_addresses.insert(address)
                    } else {
                        old(self).snapshot().warm_addresses
                    },
                    warm_slots: if l.is_cold {
                        old(self).snapshot().warm_slots.insert(slot_id(address, key))
                    } else {
                        old(self).snapshot().warm_slots
                    },
                    ..old(self).snapshot()
                })
                &&& final(self).journal_len() <= old(self).journal_len() + 3
            },
            r is Err ==> {
                &&& old(self).preserved_by(*final(self))
                &&& final(self).snapshot().accounts == old(self).snapshot().accounts
                &&& final(self).snapshot().slots == old(self).snapshot().slots
                &&& final(self).snapshot().transient == old(self).snapshot().transient
                &&& final(self).snapshot().logs == old(self).snapshot().logs
                &&& final(self).snapshot().warm_slots == old(self).snapshot().warm_slots
                &&& forall|a: u64|
                    old(self).snapshot().warm_addresses.contains(a) ==> final(self).snapshot().warm_addresses.contains(a)
                &&& forall|a: u64|
                    final(self).snapshot().warm_addresses.contains(a) ==> old(
                        self,
                    ).snapshot().warm_addresses.contains(a) || a == address
            },
    {
        let ghost pre = *self;
        let cold_load = match self.sload(address, key) {
            Ok(l) => l,
            Err(er) => {
                return Err(er);
            },
        };
        let ghost mid = *self;
        let sid = make_slot_id(address, key);
        let slot = *self.slots.get(&sid).unwrap();
        if slot.present != value {
            let e = JournalEntry::StorageChanged { slot: sid, had_value: slot.present };
            proof {
                let s2 = mid.with_slot(sid, (Slot { original: slot.original, present: value }));
                assert(s2.slots.insert(sid, (Slot { original: s2.slots[sid].original, present: slot.present }))
                    =~= mid.snapshot().slots);
                assert(undo_one(mid.db_model(), s2, e) =~~= mid.snapshot());
                assert(entry_slots(e).subset_of(mid.snapshot_cached_slots()));
            }
            self.journal_slot_update(sid, Slot { original: slot.original, present: value }, e);
        } else {
            proof {
                assert(mid.snapshot().slots.insert(sid, (Slot { original: slot.original, present: value }))
                    =~= mid.snapshot().slots);
            }
        }
        proof {
            assert(self.snapshot() =~~= (Snapshot {
                slots: pre.snapshot().slots.insert(
                    sid,
                    (Slot { original: pre.snapshot().slots[sid].original, present: value }),
                ),
                warm_addresses: mid.snapshot().warm_addresses,
                warm_slots: mid.snapshot().warm_slots,
                ..pre.snapshot()
            }));
        }
        Ok(
            StateLoad {
                data: SStoreResult {
                    original_value: slot.original,
                    present_value: slot.present,
                    new_value: value,
                },
                is_cold: cold_load.is_cold,
            },
        )
    }

    /// The snapshot that results from setting two balances in order (the
    /// second write sees the first, so a repeated address nets out).
    pub open spec fn with_balances2(self, a1: u64, bal1: u128, a2: u64, bal2: u128) -> Snapshot {
        let acc1 = self.snapshot().accounts.insert(
            a1,
            (AccountModel { balance: bal1, ..self.snapshot().accounts[a1] }),
        );
        let acc2 = acc1.insert(a2, (AccountModel { balance: bal2, ..acc1[a2] }));
        Snapshot { accounts: acc2, ..self.snapshot() }
    }

    /// Sets the balances of two cached accounts in order and journals the
    /// given entry, whose inverse must lead from the new snapshot back to
    /// the old one.
    fn journal_balances2(&mut self, a1: u64, bal1: u128, a2: u64, bal2: u128, e: JournalEntry)
        requires
            old(self).wf(),
            old(self).is_cached(a1),
            old(self).is_cached(a2),
            entry_addresses(e).subset_of(old(self).snapshot_cached_addresses()),
            entry_slots(e).subset_of(old(self).snapshot_cached_slots()),
            refs_ok(old(self).with_balances2(a1, bal1, a2, bal2), e),
            undo_one(old(self).db_model(), old(self).with_balances2(a1, bal1, a2, bal2), e) == old(
                self,
            ).snapshot(),
        ensures
            final(self).wf(),
            old(self).preserved_by(*final(self)),
            final(self).snapshot() == old(self).with_balances2(a1, bal1, a2, bal2),
            final(self).journal_len() == old(self).journal_len() + 1,
            forall|a: u64| final(self).is_cached(a) == old(self).is_cached(a),
            forall|t: u128| final(self).is_slot_cached(t) == old(self).is_slot_cached(t),
            final(self).call_depth() == old(self).call_depth(),
            final(self).hardfork() == old(self).hardfork(),
            forall|a: u64| final(self).is_precompile(a) == old(self).is_precompile(a),
    {
        let ghost pre = *self;
        let mut x1 = self.cache.remove(&a1).unwrap();
        x1.balance = bal1;
        self.cache.insert(a1, x1);
        let mut x2 = self.cache.remove(&a2).unwrap();
        x2.balance = bal2;
        self.cache.insert(a2, x2);
        self.entries.push(e);
        self.history = Ghost(self.history@.push(pre.snapshot()));
        proof {
            assert(self.cache@.dom() =~= pre.cache@.dom());
            let acc1 = pre.snapshot().accounts.insert(
                a1,
                (AccountModel { balance: bal1, ..pre.snapshot().accounts[a1] }),
            );
            let acc2 = acc1.insert(a2, (AccountModel { balance: bal2, ..acc1[a2] }));
            assert(self.snapshot().accounts =~= acc2);
            assert(self.snapshot() =~~= pre.with_balances2(a1, bal1, a2, bal2));
            Self::lemma_wf_after_append(pre, *self, e);
        }
    }

    /// Moves `amount` between two accounts after loading and touching both.
    /// Fails with `OutOfFunds` when the source balance is insufficient and
    /// with `OverflowPayment` when the target balance would overflow; either
    /// failure leaves every balance unchanged.  One journal entry suffices
    /// to invert both sides.
    pub fn transfer(&mut self, from: u64, to: u64, amount: u128) -> (r: Result<
        Option<TransferError>,
        DB::Error,
    >)
        requires
            old(self).wf(),
        ensures
            final(self).wf(),
            final(self).call_depth() == old(self).call_depth(),
            final(self).hardfork() == old(self).hardfork(),
            forall|a: u64| final(self).is_precompile(a) == old(self).is_precompile(a),
            old(self).is_cached(from) && old(self).is_cached(to) ==> r is Ok,
            forall|s: u128| final(self).is_slot_cached(s) == old(self).is_slot_cached(s),
            forall|a: u64|
                final(self).is_cached(a) ==> old(self).is_cached(a) || a == from || a == to,
            r matches Ok(out) ==> {
                &&& old(self).preserved_by(*final(self))
                &&& final(self).is_cached(from) && final(self).is_cached(to)
                &&& forall|a: u64|
                    final(self).is_cached(a) == (old(self).is_cached(a) || a == from || a == to)
                &&& out == transfer_outcome(old(self).snapshot(), from, to, amount)
                &&& final(self).snapshot().accounts == transfer_accounts(
                    old(self).snapshot(),
                    from,
                    to,
                    amount,
                )
                &&& final(self).snapshot().slots == old(self).snapshot().slots
                &&& final(self).snapshot().transient == old(self).snapshot().transient
                &&& final(self).snapshot().logs == old(self).snapshot().logs
                &&& final(self).snapshot().warm_slots == old(self).snapshot().warm_slots
                &&& final(self).snapshot().warm_addresses == ({
                    let w1 = if old(self).is_precompile(from) {
                        old(self).snapshot().warm_addresses
                    } else {
                        old(self).snapshot().warm_addresses.insert(from)
                    };
                    if old(self).is_precompile(to) {
                        w1
                    } else {
                        w1.insert(to)
                    }
                })
                &&& final(self).journal_len() <= old(self).journal_len() + 5
            },
            r is Err ==> {
                &&& old(self).preserved_by(*final(self))
                &&& final(self).snapshot().accounts == old(self).snapshot().accounts
                &&& final(self).snapshot().slots == old(self).snapshot().slots
                &&& final(self).snapshot().transient == old(self).snapshot().transient
                &&& final(self).snapshot().logs == old(self).snapshot().logs
                &&& final(self).snapshot().warm_slots == old(self).snapshot().warm_slots
                &&& forall|a: u64|
                    old(self).snapshot().warm_addresses.contains(a) ==> final(self).snapshot().warm_addresses.contains(a)
                &&& forall|a: u64|
                    final(self).snapshot().warm_addresses.contains(a) ==> old(
                        self,
                    ).snapshot().warm_addresses.contains(a) || a == from || a == to
            },
    {
        let ghost pre = *self;
        match self.load_account_internal(from) {
            Ok(_) => {},
            Err(er) => {
                return Err(er);
            },
        }
        match self.load_account_internal(to) {
            Ok(_) => {},
            Err(er) => {
                return Err(er);
            },
        }
        self.touch_entry(from);
        self.touch_entry(to);
        let ghost mid = *self;
        proof {
            assert(mid.snapshot().accounts =~= ({
                let t1 = pre.snapshot().accounts.insert(
                    from,
                    (AccountModel { touched: true, ..pre.snapshot().accounts[from] }),
                );
                t1.insert(to, (AccountModel { touched: true, ..t1[to] }))
            }));
        }
        proof {
            assert(mid.snapshot().warm_addresses =~= ({
                let w1 = if pre.is_precompile(from) {
                    pre.snapshot().warm_addresses
                } else {
                    pre.snapshot().warm_addresses.insert(from)
                };
                if pre.is_precompile(to) {
                    w1
                } else {
                    w1.insert(to)
                }
            }));
            assert(mid.snapshot().accounts[from].balance == pre.snapshot().accounts[from].balance);
            assert(mid.snapshot().accounts[to].balance == pre.snapshot().accounts[to].balance);
        }
        let from_balance = self.cache.get(&from).unwrap().balance;
        proof {
            assert(from_balance == mid.snapshot().accounts[from].balance);
        }
        if from_balance < amount {
            proof {
                assert(transfer_outcome(pre.snapshot(), from, to, amount) == Some(
                    TransferError::OutOfFunds,
                ));
                assert(final(self).snapshot().accounts =~= transfer_accounts(
                    pre.snapshot(),
                    from,
                    to,
                    amount,
                ));
            }
            return Ok(Some(TransferError::OutOfFunds));
        }
        let to_balance = self.cache.get(&to).unwrap().balance;
        proof {
            assert(to_balance == mid.snapshot().accounts[to].balance);
        }
        if from != to && to_balance > u128::MAX - amount {
            proof {
                assert(transfer_outcome(pre.snapshot(), from, to, amount) == Some(
                    TransferError::OverflowPayment,
                ));
                assert(final(self).snapshot().accounts =~= transfer_accounts(
                    pre.snapshot(),
                    from,
                    to,
                    amount,
                ));
            }
            return Ok(Some(TransferError::OverflowPayment));
        }
        proof {
            assert(transfer_outcome(pre.snapshot(), from, to, amount) is None);
        }
        let new_from = from_balance - amount;
        let new_to = if from == to {
            from_balance
        } else {
            to_balance + amount
        };
        let e = JournalEntry::BalanceTransferred { from, to, amount };
        proof {
            let s2 = mid.with_balances2(from, new_from, to, new_to);
            let step = s2.accounts.insert(
                to,
                (AccountModel { balance: (s2.accounts[to].balance - amount) as u128, ..s2.accounts[to] }),
            );
            assert(step.insert(
                from,
                (AccountModel { balance: (step[from].balance + amount) as u128, ..step[from] }),
            ) =~= mid.snapshot().accounts);
            assert(undo_one(mid.db_model(), s2, e) =~~= mid.snapshot());
        }
        self.journal_balances2(from, new_from, to, new_to, e);
        proof {
            assert(final(self).snapshot().accounts =~= transfer_accounts(
                pre.snapshot(),
                from,
                to,
                amount,
            ));
        }
        Ok(None)
    }

    /// Adds to a single account's balance after loading and touching it,
    /// saturating at the balance domain's maximum; the journal entry
    /// records the amount actually added.
    pub fn balance_incr(&mut self, address: u64, amount: u128) -> (r: Result<(), DB::Error>)
        requires
            old(self).wf(),
        ensures
            final(self).wf(),
            final(self).call_depth() == old(self).call_depth(),
            final(self).hardfork() == old(self).hardfork(),
            forall|a: u64| final(self).is_precompile(a) == old(self).is_precompile(a),
            old(self).is_cached(address) ==> r is Ok,
            r matches Ok(u) ==> {
                &&& old(self).preserved_by(*final(self))
                &&& final(self).is_cached(address)
                &&& final(self).snapshot().accounts == ({
                    let m = old(self).snapshot().accounts[address];
                    old(self).snapshot().accounts.insert(
                        address,
                        (AccountModel {
                            touched: true,
                            balance: if m.balance + amount <= u128::MAX {
                                (m.balance + amount) as u128
                            } else {
                                u128::MAX
                            },
                            ..m
                        }),
                    )
                })
                &&& final(self).snapshot().slots == old(self).snapshot().slots
                &&& final(self).snapshot().transient == old(self).snapshot().transient
                &&& final(self).snapshot().logs == old(self).snapshot().logs
                &&& final(self).snapshot().warm_slots == old(self).snapshot().warm_slots
                &&& final(self).journal_len() <= old(self).journal_len() + 3
            },
            r is Err ==> {
                &&& old(self).preserved_by(*final(self))
                &&& final(self).snapshot() == old(self).snapshot()
            },
    {
        let ghost pre = *self;
        match self.load_account_internal(address) {
            Ok(_) => {},
            Err(er) => {
                return Err(er);
            },
        }
        self.touch_entry(address);
        let ghost mid = *self;
        let acct = self.cache.get(&address).unwrap();
        let balance = acct.balance;
        let nonce = acct.nonce;
        let created = acct.created;
        let destroyed = acct.destroyed;
        let delta = if amount <= u128::MAX - balance {
            amount
        } else {
            u128::MAX - balance
        };
        let e = JournalEntry::BalanceIncreased { address, amount: delta };
        proof {
            let m2 = AccountModel {
                balance: (balance + delta) as u128,
                nonce,
                touched: true,
                created,
                destroyed,
                ..mid.snapshot().accounts[address]
            };
            let s2 = mid.with_account_model(address, m2);
            assert(s2.accounts.insert(
                address,
                (AccountModel { balance: (s2.accounts[address].balance - delta) as u128, ..s2.accounts[address] }),
            ) =~= mid.snapshot().accounts);
            assert(undo_one(mid.db_model(), s2, e) =~~= mid.snapshot());
        }
        self.journal_scalar_update(address, balance + delta, nonce, true, created, destroyed, e);
        proof {
            assert(final(self).snapshot().accounts =~= ({
                let m = pre.snapshot().accounts[address];
                pre.snapshot().accounts.insert(
                    address,
                    (AccountModel {
                        touched: true,
                        balance: if m.balance + amount <= u128::MAX {
                            (m.balance + amount) as u128
                        } else {
                            u128::MAX
                        },
                        ..m
                    }),
                )
            }));
        }
        Ok(())
    }

    /// Increments a cached account's nonce, journaling the bump; a nonce at
    /// the domain maximum is left unchanged.
    pub fn nonce_bump_journal_entry(&mut self, address: u64)
        requires
            old(self).wf(),
            old(self).is_cached(address),
        ensures
            final(self).wf(),
            old(self).preserved_by(*final(self)),
            final(self).snapshot() == (if old(self).snapshot().accounts[address].nonce < u64::MAX {
                old(self).with_account_model(
                    address,
                    (AccountModel {
                        nonce: (old(self).snapshot().accounts[address].nonce + 1) as u64,
                        ..old(self).snapshot().accounts[address]
                    }),
                )
            } else {
                old(self).snapshot()
            }),
            final(self).journal_len() <= old(self).journal_len() + 1,
            forall|a: u64| final(self).is_cached(a) == old(self).is_cached(a),
            forall|s: u128| final(self).is_slot_cached(s) == old(self).is_slot_cached(s),
            final(self).call_depth() == old(self).call_depth(),
            final(self).hardfork() == old(self).hardfork(),
            forall|a: u64| final(self).is_precompile(a) == old(self).is_precompile(a),
    {
        let ghost pre = *self;
        let acct = self.cache.get(&address).unwrap();
        let balance = acct.balance;
        let nonce = acct.nonce;
        let touched = acct.touched;
        let created = acct.created;
        let destroyed = acct.destroyed;
        if nonce == u64::MAX {
            return ;
        }
        let e = JournalEntry::NonceBumped { address };
        proof {
            let m2 = AccountModel { nonce: (nonce + 1) as u64, ..pre.snapshot().accounts[address] };
            let s2 = pre.with_account_model(address, m2);
            assert(s2.accounts.insert(
                address,
                (AccountModel { nonce: (s2.accounts[address].nonce - 1) as u64, ..s2.accounts[address] }),
            ) =~= pre.snapshot().accounts);
            assert(undo_one(pre.db_model(), s2, e) =~~= pre.snapshot());
        }
        self.journal_scalar_update(address, balance, nonce + 1, touched, created, destroyed, e);
    }

    /// Whether a cached account's bytecode is materialized in the cache.
    pub closed spec fn code_loaded(&self, address: u64) -> bool {
        self.is_cached(address) && self.cache@[address].code is Some
    }

    /// Materializes a cached account's bytecode, fetching it from the
    /// database by hash when absent; the hash of the empty bytecode is
    /// materialized without a database call.  The observable state does not
    /// change: an absent code field already reads as the database's code.
    fn ensure_code_internal(&mut self, address: u64) -> (r: Result<(), DB::Error>)
        requires
            old(self).wf(),
            old(self).is_cached(address),
        ensures
            final(self).wf(),
            final(self).snapshot() == old(self).snapshot(),
            final(self).journal_len() == old(self).journal_len(),
            old(self).preserved_by(*final(self)),
            forall|a: u64| final(self).is_cached(a) == old(self).is_cached(a),
            forall|s: u128| final(self).is_slot_cached(s) == old(self).is_slot_cached(s),
            final(self).call_depth() == old(self).call_depth(),
            final(self).hardfork() == old(self).hardfork(),
            forall|a: u64| final(self).is_precompile(a) == old(self).is_precompile(a),
            forall|a: u64| old(self).code_loaded(a) ==> final(self).code_loaded(a),
            r is Ok ==> final(self).code_loaded(address),
            old(self).code_loaded(address) ==> r is Ok,
            old(self).snapshot().accounts[address].code_hash == EMPTY_CODE_HASH ==> r is Ok,
    {
        let ghost pre = *self;
        let acct_ref = self.cache.get(&address).unwrap();
        if acct_ref.code.is_some() {
            return Ok(());
        }
        let hash = acct_ref.code_hash;
        if hash == EMPTY_CODE_HASH {
            let mut acct = self.cache.remove(&address).unwrap();
            acct.code = Some(Vec::new());
            self.cache.insert(address, acct);
            proof {
                assert(self.cache@.dom() =~= pre.cache@.dom());
                assert(account_model(self.cache@[address], self.db.db()) =~= account_model(
                    pre.cache@[address],
                    pre.db.db(),
                ));
                assert(self.snapshot().accounts =~= pre.snapshot().accounts);
                assert(self.snapshot() =~~= pre.snapshot());
                Self::lemma_wf_after_growth(pre, *self);
            }
            return Ok(());
        }
        match self.db.get_code(hash) {
            Ok(bytes) => {
                let mut acct = self.cache.remove(&address).unwrap();
                acct.code = Some(bytes);
                self.cache.insert(address, acct);
                proof {
                    assert(self.cache@.dom() =~= pre.cache@.dom());
                    assert(account_model(self.cache@[address], self.db.db()) =~= account_model(
                        pre.cache@[address],
                        pre.db.db(),
                    ));
                    assert(self.snapshot().accounts =~= pre.snapshot().accounts);
                    assert(self.snapshot() =~~= pre.snapshot());
                    Self::lemma_wf_after_growth(pre, *self);
                }
                Ok(())
            },
            Err(er) => {
                proof {
                    assert forall|i: int| 0 <= i <= pre.journal_len() implies self.snapshot_at(i)
                        == pre.snapshot_at(i) by {}
                }
                Err(er)
            },
        }
    }

    /// Loads an account like [`Self::load_account`] and additionally
    /// guarantees its bytecode is materialized, so code accessors can read
    /// it without re-checking for absence.
    pub fn load_account_code(&mut self, address: u64) -> (r: Result<
        StateLoad<AccountData>,
        DB::Error,
    >)
        requires
            old(self).wf(),
        ensures
            final(self).wf(),
            final(self).call_depth() == old(self).call_depth(),
            final(self).hardfork() == old(self).hardfork(),
            forall|a: u64| final(self).is_precompile(a) == old(self).is_precompile(a),
            forall|a: u64| old(self).code_loaded(a) ==> final(self).code_loaded(a),
            old(self).is_cached(address) && (old(self).code_loaded(address) || old(
                self,
            ).snapshot().accounts[address].code_hash == EMPTY_CODE_HASH) ==> r is Ok,
            r matches Ok(l) ==> {
                &&& old(self).preserved_by(*final(self))
                &&& final(self).is_cached(address)
                &&& final(self).code_loaded(address)
                &&& l.is_cold == (!old(self).snapshot().warm_addresses.contains(address) && !old(
                    self,
                ).is_precompile(address))
                &&& l.data.balance == old(self).snapshot().accounts[address].balance
                &&& l.data.nonce == old(self).snapshot().accounts[address].nonce
                &&& l.data.code_hash == old(self).snapshot().accounts[address].code_hash
                &&& final(self).snapshot() == (Snapshot {
                    warm_addresses: if l.is_cold {
                        old(self).snapshot().warm_addresses.insert(address)
                    } else {
                        old(self).snapshot().warm_addresses
                    },
                    ..old(self).snapshot()
                })
                &&& final(self).journal_len() <= old(self).journal_len() + 1
            },
            r is Err ==> {
                &&& old(self).preserved_by(*final(self))
                &&& final(self).snapshot().accounts == old(self).snapshot().accounts
                &&& final(self).snapshot().slots == old(self).snapshot().slots
                &&& final(self).snapshot().transient == old(self).snapshot().transient
                &&& final(self).snapshot().logs == old(self).snapshot().logs
                &&& final(self).snapshot().warm_slots == old(self).snapshot().warm_slots
                &&& forall|a: u64|
                    old(self).snapshot().warm_addresses.contains(a) ==> final(self).snapshot().warm_addresses.contains(a)
                &&& forall|a: u64|
                    final(self).snapshot().warm_addresses.contains(a) ==> old(
                        self,
                    ).snapshot().warm_addresses.contains(a) || a == address
            },
    {
        let cold = match self.load_account_internal(address) {
            Ok(c) => c,
            Err(er) => {
                return Err(er);
            },
        };
        match self.ensure_code_internal(address) {
            Ok(()) => {},
            Err(er) => {
                return Err(er);
            },
        }
        let acct = self.cache.get(&address).unwrap();
        let data = AccountData { balance: acct.balance, nonce: acct.nonce, code_hash: acct.code_hash };
        Ok(StateLoad { data, is_cold: cold })
    }

    /// Returns an account's bytecode together with the cold-load flag.
    pub fn code(&mut self, address: u64) -> (r: Result<StateLoad<Vec<u8>>, DB::Error>)
        requires
            old(self).wf(),
        ensures
            final(self).wf(),
            final(self).call_depth() == old(self).call_depth(),
            final(self).hardfork() == old(self).hardfork(),
            forall|a: u64| final(self).is_precompile(a) == old(self).is_precompile(a),
            forall|a: u64| old(self).code_loaded(a) ==> final(self).code_loaded(a),
            old(self).is_cached(address) && (old(self).code_loaded(address) || old(
                self,
            ).snapshot().accounts[address].code_hash == EMPTY_CODE_HASH) ==> r is Ok,
            r matches Ok(l) ==> {
                &&& old(self).preserved_by(*final(self))
                &&& l.is_cold == (!old(self).snapshot().warm_addresses.contains(address) && !old(
                    self,
                ).is_precompile(address))
                &&& l.data@ == old(self).snapshot().accounts[address].code
                &&& final(self).snapshot() == (Snapshot {
                    warm_addresses: if l.is_cold {
                        old(self).snapshot().warm_addresses.insert(address)
                    } else {
                        old(self).snapshot().warm_addresses
                    },
                    ..old(self).snapshot()
                })
                &&& final(self).journal_len() <= old(self).journal_len() + 1
            },
            r is Err ==> {
                &&& old(self).preserved_by(*final(self))
                &&& final(self).snapshot().accounts == old(self).snapshot().accounts
                &&& final(self).snapshot().slots == old(self).snapshot().slots
                &&& final(self).snapshot().transient == old(self).snapshot().transient
                &&& final(self).snapshot().logs == old(self).snapshot().logs
                &&& final(self).snapshot().warm_slots == old(self).snapshot().warm_slots
                &&& forall|a: u64|
                    old(self).snapshot().warm_addresses.contains(a) ==> final(self).snapshot().warm_addresses.contains(a)
                &&& forall|a: u64|
                    final(self).snapshot().warm_addresses.contains(a) ==> old(
                        self,
                    ).snapshot().warm_addresses.contains(a) || a == address
            },
    {
        let l = match self.load_account_code(address) {
            Ok(l) => l,
            Err(er) => {
                return Err(er);
            },
        };
        let acct = self.cache.get(&address).unwrap();
        let bytes = match &acct.code {
            Some(c) => crate::db::clone_bytes(c),
            None => Vec::new(),
        };
        Ok(StateLoad { data: bytes, is_cold: l.is_cold })
    }

    /// Returns an account's code hash together with the cold-load flag; an
    /// empty account reports the zero hash.
    pub fn code_hash(&mut self, address: u64) -> (r: Result<StateLoad<u64>, DB::Error>)
        requires
            old(self).wf(),
        ensures
            final(self).wf(),
            final(self).call_depth() == old(self).call_depth(),
            final(self).hardfork() == old(self).hardfork(),
            forall|a: u64| final(self).is_precompile(a) == old(self).is_precompile(a),
            forall|a: u64| old(self).code_loaded(a) ==> final(self).code_loaded(a),
            old(self).is_cached(address) && (old(self).code_loaded(address) || old(
                self,
            ).snapshot().accounts[address].code_hash == EMPTY_CODE_HASH) ==> r is Ok,
            r matches Ok(l) ==> {
                &&& old(self).preserved_by(*final(self))
                &&& l.is_cold == (!old(self).snapshot().warm_addresses.contains(address) && !old(
                    self,
                ).is_precompile(address))
                &&& l.data == (if account_is_empty(old(self).snapshot().accounts[address]) {
                    0u64
                } else {
                    old(self).snapshot().accounts[address].code_hash
                })
                &&& final(self).snapshot() == (Snapshot {
                    warm_addresses: if l.is_cold {
                        old(self).snapshot().warm_addresses.insert(address)
                    } else {
                        old(self).snapshot().warm_addresses
                    },
                    ..old(self).snapshot()
                })
                &&& final(self).journal_len() <= old(self).journal_len() + 1
            },
            r is Err ==> {
                &&& old(self).preserved_by(*final(self))
                &&& final(self).snapshot().accounts == old(self).snapshot().accounts
                &&& final(self).snapshot().slots == old(self).snapshot().slots
                &&& final(self).snapshot().transient == old(self).snapshot().transient
                &&& final(self).snapshot().logs == old(self).snapshot().logs
                &&& final(self).snapshot().warm_slots == old(self).snapshot().warm_slots
                &&& forall|a: u64|
                    old(self).snapshot().warm_addresses.contains(a) ==> final(self).snapshot().warm_addresses.contains(a)
                &&& forall|a: u64|
                    final(self).snapshot().warm_addresses.contains(a) ==> old(
                        self,
                    ).snapshot().warm_addresses.contains(a) || a == address
            },
    {
        let l = match self.load_account_code(address) {
            Ok(l) => l,
            Err(er) => {
                return Err(er);
            },
        };
        let acct = self.cache.get(&address).unwrap();
        let empty = acct.balance == 0 && acct.nonce == 0 && acct.code_hash == EMPTY_CODE_HASH;
        let hash = if empty {
            0
        } else {
            acct.code_hash
        };
        Ok(StateLoad { data: hash, is_cold: l.is_cold })
    }

    /// Replaces a cached account's code and code hash, journaling the
    /// previous pair so a failed deployment restores the exact prior state.
    fn journal_code_update(&mut self, address: u64, code: Vec<u8>, hash: u64)
        requires
            old(self).wf(),
            old(self).is_cached(address),
        ensures
            final(self).wf(),
            old(self).preserved_by(*final(self)),
            final(self).snapshot() == old(self).with_account_model(
                address,
                (AccountModel {
                    code: code@,
                    code_hash: hash,
                    ..old(self).snapshot().accounts[address]
                }),
            ),
            final(self).journal_len() == old(self).journal_len() + 1,
            forall|a: u64| final(self).is_cached(a) == old(self).is_cached(a),
            forall|s: u128| final(self).is_slot_cached(s) == old(self).is_slot_cached(s),
            final(self).call_depth() == old(self).call_depth(),
            final(self).hardfork() == old(self).hardfork(),
            forall|a: u64| final(self).is_precompile(a) == old(self).is_precompile(a),
    {
        let ghost pre = *self;
        let mut acct = self.cache.remove(&address).unwrap();
        let mut taken = Some(code);
        core::mem::swap(&mut acct.code, &mut taken);
        let prev_hash = acct.code_hash;
        acct.code_hash = hash;
        self.cache.insert(address, acct);
        let e = JournalEntry::CodeChanged { address, prev_code: taken, prev_hash };
        self.entries.push(e);
        self.history = Ghost(self.history@.push(pre.snapshot()));
        proof {
            assert(self.cache@.dom() =~= pre.cache@.dom());
            let m2 = AccountModel {
                code: code@,
                code_hash: hash,
                ..pre.snapshot().accounts[address]
            };
            assert(account_model(self.cache@[address], self.db.db()) =~= m2);
            assert(self.snapshot().accounts =~= pre.snapshot().accounts.insert(address, m2));
            assert(self.snapshot() =~~= pre.with_account_model(address, m2));
            assert(undo_one(self.db.db(), self.snapshot(), e).accounts =~= pre.snapshot().accounts);
            assert(undo_one(self.db.db(), self.snapshot(), e) =~~= pre.snapshot());
            Self::lemma_wf_after_append(pre, *self, e);
        }
    }

    /// Replaces an account's code and code hash, touching the account and
    /// journaling the previous pair (which may be empty).  The account must
    /// already be loaded.
    pub fn set_code_with_hash(&mut self, address: u64, code: Vec<u8>, hash: u64)
        requires
            old(self).wf(),
            old(self).is_cached(address),
        ensures
            final(self).wf(),
            old(self).preserved_by(*final(self)),
            final(self).snapshot() == old(self).with_account_model(
                address,
                (AccountModel {
                    code: code@,
                    code_hash: hash,
                    touched: true,
                    ..old(self).snapshot().accounts[address]
                }),
            ),
            final(self).journal_len() <= old(self).journal_len() + 2,
            forall|a: u64| final(self).is_cached(a) == old(self).is_cached(a),
            forall|s: u128| final(self).is_slot_cached(s) == old(self).is_slot_cached(s),
            final(self).call_depth() == old(self).call_depth(),
            final(self).hardfork() == old(self).hardfork(),
            forall|a: u64| final(self).is_precompile(a) == old(self).is_precompile(a),
    {
        let ghost pre = *self;
        self.touch_entry(address);
        self.journal_code_update(address, code, hash);
        proof {
            assert(final(self).snapshot().accounts =~= pre.snapshot().accounts.insert(
                address,
                (AccountModel {
                    code: code@,
                    code_hash: hash,
                    touched: true,
                    ..pre.snapshot().accounts[address]
                }),
            ));
        }
    }

    /// Issues a checkpoint of the current state: the current snapshot is the
    /// one [`Self::checkpoint_revert`] will restore for this token.
    pub fn checkpoint(&mut self) -> (r: JournalCheckpoint)
        requires
            old(self).wf(),
            old(self).call_depth() < usize::MAX,
        ensures
            final(self).wf(),
            old(self).preserved_by(*final(self)),
            final(self).snapshot() == old(self).snapshot(),
            final(self).journal_len() == old(self).journal_len(),
            r.journal_i == old(self).journal_len(),
            r.log_i == old(self).snapshot().logs.len(),
            final(self).snapshot_at(r.journal_i as int) == old(self).snapshot(),
            final(self).call_depth() == old(self).call_depth() + 1,
            forall|a: u64| final(self).is_cached(a) == old(self).is_cached(a),
            forall|s: u128| final(self).is_slot_cached(s) == old(self).is_slot_cached(s),
            final(self).hardfork() == old(self).hardfork(),
            forall|a: u64| final(self).is_precompile(a) == old(self).is_precompile(a),
    {
        let r = JournalCheckpoint { log_i: self.logs.len(), journal_i: self.entries.len() };
        self.depth = self.depth + 1;
        proof {
            assert(self.snapshot().logs.len() == self.logs@.len());
        }
        r
    }

    /// Commits the changes made since the last checkpoint.  Nothing is
    /// discarded: committed entries stay in the journal until transaction
    /// end, because an ancestor frame's revert must still undo them.
    pub fn checkpoint_commit(&mut self)
        requires
            old(self).wf(),
            old(self).call_depth() >= 1,
        ensures
            final(self).wf(),
            old(self).preserved_by(*final(self)),
            final(self).snapshot() == old(self).snapshot(),
            final(self).journal_len() == old(self).journal_len(),
            final(self).call_depth() == old(self).call_depth() - 1,
            forall|a: u64| final(self).is_cached(a) == old(self).is_cached(a),
            forall|s: u128| final(self).is_slot_cached(s) == old(self).is_slot_cached(s),
            final(self).hardfork() == old(self).hardfork(),
            forall|a: u64| final(self).is_precompile(a) == old(self).is_precompile(a),
    {
        self.depth = self.depth - 1;
    }

    /// Applies the inverse of one journal entry to the caches.  Does not
    /// consult the database and does not touch the undo log itself.
    fn apply_undo(&mut self, e: JournalEntry)
        requires
            refs_ok(old(self).snapshot(), e),
            entry_addresses(e).subset_of(old(self).cache@.dom()),
            entry_slots(e).subset_of(old(self).slots@.dom()),
        ensures
            final(self).snapshot() == undo_one(old(self).db_model(), old(self).snapshot(), e),
            final(self).db_model() == old(self).db_model(),
            final(self).entries@ == old(self).entries@,
            final(self).history@ == old(self).history@,
            final(self).cache@.dom() == old(self).cache@.dom(),
            final(self).slots@.dom() == old(self).slots@.dom(),
            final(self).account_keys@ == old(self).account_keys@,
            final(self).slot_keys@ == old(self).slot_keys@,
            final(self).depth == old(self).depth,
            final(self).spec_id == old(self).spec_id,
            final(self).precompiles@ == old(self).precompiles@,
            final(self).transaction_id == old(self).transaction_id,
    {
        let ghost pre = *self;
        let ghost target_snapshot = undo_one(old(self).db_model(), old(self).snapshot(), e);
        match e {
            JournalEntry::AccountWarmed { address } => {
                self.warm_addresses.remove(&address);
                proof {
                    assert(self.snapshot() =~~= target_snapshot);
                }
            },
            JournalEntry::AccountTouched { address } => {
                proof {
                    assert(entry_addresses(e).contains(address));
                }
                let mut a = self.cache.remove(&address).unwrap();
                a.touched = false;
                self.cache.insert(address, a);
                proof {
                    assert(self.cache@.dom() =~= pre.cache@.dom());
                    assert(self.snapshot().accounts =~= target_snapshot.accounts);
                    assert(self.snapshot() =~~= target_snapshot);
                }
            },
            JournalEntry::AccountCreated { address } => {
                proof {
                    assert(entry_addresses(e).contains(address));
                }
                let mut a = self.cache.remove(&address).unwrap();
                a.created = false;
                self.cache.insert(address, a);
                proof {
                    assert(self.cache@.dom() =~= pre.cache@.dom());
                    assert(self.snapshot().accounts =~= target_snapshot.accounts);
                    assert(self.snapshot() =~~= target_snapshot);
                }
            },
            JournalEntry::AccountDestroyed { address, target, was_destroyed, had_balance, target_delta } => {
                proof {
                    assert(entry_addresses(e).contains(address));
                    assert(entry_addresses(e).contains(target));
                    assert(self.cache@[target].balance == pre.snapshot().accounts[target].balance);
                }
                let mut t = self.cache.remove(&target).unwrap();
                t.balance = t.balance - target_delta;
                self.cache.insert(target, t);
                let mut a = self.cache.remove(&address).unwrap();
                a.balance = had_balance;
                a.destroyed = was_destroyed;
                self.cache.insert(address, a);
                proof {
                    assert(self.cache@.dom() =~= pre.cache@.dom());
                    assert(self.snapshot().accounts =~= target_snapshot.accounts);
                    assert(self.snapshot() =~~= target_snapshot);
                }
            },
            JournalEntry::BalanceTransferred { from, to, amount } => {
                proof {
                    assert(entry_addresses(e).contains(from));
                    assert(entry_addresses(e).contains(to));
                    assert(self.cache@[to].balance == pre.snapshot().accounts[to].balance);
                }
                let mut t = self.cache.remove(&to).unwrap();
                t.balance = t.balance - amount;
                self.cache.insert(to, t);
                proof {
                    let step = pre.snapshot().accounts.insert(
                        to,
                        (AccountModel {
                            balance: (pre.snapshot().accounts[to].balance - amount) as u128,
                            ..pre.snapshot().accounts[to]
                        }),
                    );
                    assert(self.cache@[from].balance == step[from].balance);
                }
                let mut f = self.cache.remove(&from).unwrap();
                f.balance = f.balance + amount;
                self.cache.insert(from, f);
                proof {
                    assert(self.cache@.dom() =~= pre.cache@.dom());
                    assert(self.snapshot().accounts =~= target_snapshot.accounts);
                    assert(self.snapshot() =~~= target_snapshot);
                }
            },
            JournalEntry::BalanceIncreased { address, amount } => {
                proof {
                    assert(entry_addresses(e).contains(address));
                    assert(self.cache@[address].balance == pre.snapshot().accounts[address].balance);
                }
                let mut a = self.cache.remove(&address).unwrap();
                a.balance = a.balance - amount;
                self.cache.insert(address, a);
                proof {
                    assert(self.cache@.dom() =~= pre.cache@.dom());
                    assert(self.snapshot().accounts =~= target_snapshot.accounts);
                    assert(self.snapshot() =~~= target_snapshot);
                }
            },
            JournalEntry::NonceBumped { address } => {
                proof {
                    assert(entry_addresses(e).contains(address));
                    assert(self.cache@[address].nonce == pre.snapshot().accounts[address].nonce);
                }
                let mut a = self.cache.remove(&address).unwrap();
                a.nonce = a.nonce - 1;
                self.cache.insert(address, a);
                proof {
                    assert(self.cache@.dom() =~= pre.cache@.dom());
                    assert(self.snapshot().accounts =~= target_snapshot.accounts);
                    assert(self.snapshot() =~~= target_snapshot);
                }
            },
            JournalEntry::CodeChanged { address, prev_code, prev_hash } => {
                proof {
                    assert(entry_addresses(e).contains(address));
                }
                let mut a = self.cache.remove(&address).unwrap();
                a.code = prev_code;
                a.code_hash = prev_hash;
                self.cache.insert(address, a);
                proof {
                    assert(self.cache@.dom() =~= pre.cache@.dom());
                    assert(self.snapshot().accounts =~= target_snapshot.accounts);
                    assert(self.snapshot() =~~= target_snapshot);
                }
            },
            JournalEntry::StorageWarmed { slot } => {
                self.warm_slots.remove(&slot);
                proof {
                    assert(self.snapshot() =~~= target_snapshot);
                }
            },
            JournalEntry::StorageChanged { slot, had_value } => {
                proof {
                    assert(entry_slots(e).contains(slot));
                }
                let mut s = self.slots.remove(&slot).unwrap();
                s.present = had_value;
                self.slots.insert(slot, s);
                proof {
                    assert(self.slots@.dom() =~= pre.slots@.dom());
                    assert(self.snapshot().slots =~= target_snapshot.slots);
                    assert(self.snapshot() =~~= target_snapshot);
                }
            },
            JournalEntry::TransientChanged { slot, had_value } => {
                self.transient.insert(slot, had_value);
                proof {
                    assert(self.snapshot().transient =~= target_snapshot.transient);
                    assert(self.snapshot() =~~= target_snapshot);
                }
            },
            JournalEntry::LogEmitted { .. } => {
                proof {
                    assert(pre.snapshot().logs.len() == self.logs@.len());
                }
                self.logs.pop();
                proof {
                    assert(self.snapshot().logs =~= target_snapshot.logs);
                    assert(self.snapshot() =~~= target_snapshot);
                }
            },
        }
    }

    /// Reverts every change made since the checkpoint was issued, restoring
    /// the exact snapshot that was current at issuance: each truncated
    /// entry's inverse is applied in strict reverse order, and the emitted
    /// logs recorded since are truncated with them.
    pub fn checkpoint_revert(&mut self, checkpoint: JournalCheckpoint)
        requires
            old(self).wf(),
            old(self).call_depth() >= 1,
            checkpoint.journal_i <= old(self).journal_len(),
        ensures
            final(self).wf(),
            final(self).snapshot() == old(self).snapshot_at(checkpoint.journal_i as int),
            final(self).journal_len() == checkpoint.journal_i,
            forall|i: int|
                0 <= i <= checkpoint.journal_i ==> final(self).snapshot_at(i) == old(
                    self,
                ).snapshot_at(i),
            final(self).call_depth() == old(self).call_depth() - 1,
            final(self).db_model() == old(self).db_model(),
            forall|a: u64| final(self).is_cached(a) == old(self).is_cached(a),
            forall|s: u128| final(self).is_slot_cached(s) == old(self).is_slot_cached(s),
            final(self).hardfork() == old(self).hardfork(),
            forall|a: u64| final(self).is_precompile(a) == old(self).is_precompile(a),
    {
        self.unwind_to(checkpoint.journal_i);
        self.depth = self.depth - 1;
    }

    /// Pops journal entries down to the target length, applying each
    /// entry's inverse in reverse order.
    fn unwind_to(&mut self, target: usize)
        requires
            old(self).wf(),
            target <= old(self).journal_len(),
        ensures
            final(self).wf(),
            final(self).snapshot() == old(self).snapshot_at(target as int),
            final(self).journal_len() == target,
            forall|i: int|
                0 <= i <= target ==> final(self).snapshot_at(i) == old(self).snapshot_at(i),
            final(self).db_model() == old(self).db_model(),
            forall|a: u64| final(self).is_cached(a) == old(self).is_cached(a),
            forall|s: u128| final(self).is_slot_cached(s) == old(self).is_slot_cached(s),
            final(self).call_depth() == old(self).call_depth(),
            final(self).hardfork() == old(self).hardfork(),
            forall|a: u64| final(self).is_precompile(a) == old(self).is_precompile(a),
            final(self).depth == old(self).depth,
            final(self).spec_id == old(self).spec_id,
            final(self).precompiles@ == old(self).precompiles@,
            final(self).transaction_id == old(self).transaction_id,
            final(self).account_keys@ == old(self).account_keys@,
            final(self).slot_keys@ == old(self).slot_keys@,
            final(self).cache@.dom() == old(self).cache@.dom(),
            final(self).slots@.dom() == old(self).slots@.dom(),
    {
        while self.entries.len() > target
            invariant
                self.wf(),
                target <= self.entries@.len(),
                self.entries@.len() <= old(self).journal_len(),
                forall|i: int|
                    0 <= i <= self.entries@.len() ==> self.snapshot_at(i) == old(self).snapshot_at(
                        i,
                    ),
                self.db_model() == old(self).db_model(),
                self.cache@.dom() == old(self).cache@.dom(),
                self.slots@.dom() == old(self).slots@.dom(),
                self.account_keys@ == old(self).account_keys@,
                self.slot_keys@ == old(self).slot_keys@,
                self.depth == old(self).depth,
                self.spec_id == old(self).spec_id,
                self.precompiles@ == old(self).precompiles@,
                self.transaction_id == old(self).transaction_id,
                self.entries@ == old(self).entries@.subrange(0, self.entries@.len() as int),
            decreases self.entries@.len(),
        {
            let ghost before = *self;
            let ghost len = self.entries@.len() as int;
            let e = self.entries.pop().unwrap();
            proof {
                assert(before.snapshot_at(len) == before.snapshot());
                assert(refs_ok(before.snapshot(), e));
                assert(undo_one(before.db_model(), before.snapshot(), e) == before.snapshot_at(
                    len - 1,
                ));
            }
            self.apply_undo(e);
            self.history = Ghost(self.history@.drop_last());
            proof {
                assert(self.snapshot() == before.snapshot_at(len - 1));
                assert forall|i: int| 0 <= i <= self.entries@.len() implies self.snapshot_at(i)
                    == before.snapshot_at(i) by {
                    if i < self.entries@.len() {
                        assert(self.history@[i] == before.history@[i]);
                    }
                }
                assert forall|i: int| 0 <= i < self.entries@.len() implies {
                    &&& refs_ok(self.snapshot_at(i + 1), #[trigger] self.entries@[i])
                    &&& undo_one(self.db.db(), self.snapshot_at(i + 1), self.entries@[i])
                        == self.snapshot_at(i)
                    &&& entry_addresses(self.entries@[i]).subset_of(self.cache@.dom())
                    &&& entry_slots(self.entries@[i]).subset_of(self.slots@.dom())
                } by {
                    assert(self.entries@[i] == before.entries@[i]);
                    assert(self.snapshot_at(i + 1) == before.snapshot_at(i + 1));
                    assert(self.snapshot_at(i) == before.snapshot_at(i));
                }
                assert(self.entries@ =~= old(self).entries@.subrange(
                    0,
                    self.entries@.len() as int,
                ));
            }
        }
    }

    /// The snapshot recorded at the journal's current length is the current
    /// snapshot; in particular, with an empty journal the snapshot at
    /// position zero — the one `discard_tx` rolls back to — is the current
    /// one, which is what makes discarding twice a no-op.
    pub proof fn lemma_snapshot_at_len(&self)
        ensures
            self.snapshot_at(self.journal_len() as int) == self.snapshot(),
    {
    }

    /// Marks a cached account created in this transaction, journaling the
    /// transition when the flag flips.
    fn created_entry(&mut self, address: u64)
        requires
            old(self).wf(),
            old(self).is_cached(address),
        ensures
            final(self).wf(),
            old(self).preserved_by(*final(self)),
            final(self).snapshot() == old(self).with_account_model(
                address,
                (AccountModel { created: true, ..old(self).snapshot().accounts[address] }),
            ),
            final(self).journal_len() <= old(self).journal_len() + 1,
            forall|a: u64| final(self).is_cached(a) == old(self).is_cached(a),
            forall|s: u128| final(self).is_slot_cached(s) == old(self).is_slot_cached(s),
            final(self).call_depth() == old(self).call_depth(),
            final(self).hardfork() == old(self).hardfork(),
            forall|a: u64| final(self).is_precompile(a) == old(self).is_precompile(a),
    {
        let ghost pre = *self;
        let acct = self.cache.get(&address).unwrap();
        let created = acct.created;
        let balance = acct.balance;
        let nonce = acct.nonce;
        let touched = acct.touched;
        let destroyed = acct.destroyed;
        if created {
            proof {
                assert(pre.snapshot().accounts.insert(address, pre.snapshot().accounts[address])
                    =~= pre.snapshot().accounts);
                assert(self.snapshot() =~~= pre.with_account_model(
                    address,
                    (AccountModel { created: true, ..pre.snapshot().accounts[address] }),
                ));
            }
            return ;
        }
        let e = JournalEntry::AccountCreated { address };
        proof {
            let m2 = AccountModel { created: true, ..pre.snapshot().accounts[address] };
            let s2 = pre.with_account_model(address, m2);
            assert(s2.accounts.insert(address, (AccountModel { created: false, ..s2.accounts[address] }))
                =~= pre.snapshot().accounts);
            assert(undo_one(pre.db_model(), s2, e) =~~= pre.snapshot());
        }
        self.journal_scalar_update(address, balance, nonce, touched, true, destroyed, e);
    }

    /// Marks an account self-destructed: the full balance moves to the
    /// target (a self-target only zeroes the balance), both parties are
    /// touched, and one journal entry records everything needed to restore
    /// the pre-destruct balance and destroyed flag exactly.  The returned
    /// cold flag refers to the target account's load.
    pub fn selfdestruct(&mut self, address: u64, target: u64) -> (r: Result<
        StateLoad<SelfDestructResult>,
        DB::Error,
    >)
        requires
            old(self).wf(),
        ensures
            final(self).wf(),
            final(self).call_depth() == old(self).call_depth(),
            final(self).hardfork() == old(self).hardfork(),
            forall|a: u64| final(self).is_precompile(a) == old(self).is_precompile(a),
            old(self).is_cached(address) && old(self).is_cached(target) ==> r is Ok,
            r matches Ok(l) ==> {
                &&& old(self).preserved_by(*final(self))
                &&& final(self).is_cached(address) && final(self).is_cached(target)
                &&& l.is_cold == (!({
                    let w1 = if old(self).is_precompile(address) {
                        old(self).snapshot().warm_addresses
                    } else {
                        old(self).snapshot().warm_addresses.insert(address)
                    };
                    w1
                }).contains(target) && !old(self).is_precompile(target))
                &&& l.data.had_value == (old(self).snapshot().accounts[address].balance != 0)
                &&& l.data.target_exists == !account_is_empty(old(self).snapshot().accounts[target])
                &&& l.data.previously_destroyed == old(self).snapshot().accounts[address].destroyed
                &&& final(self).snapshot().accounts == selfdestruct_accounts(
                    old(self).snapshot(),
                    address,
                    target,
                )
                &&& final(self).snapshot().slots == old(self).snapshot().slots
                &&& final(self).snapshot().transient == old(self).snapshot().transient
                &&& final(self).snapshot().logs == old(self).snapshot().logs
                &&& final(self).snapshot().warm_slots == old(self).snapshot().warm_slots
                &&& final(self).snapshot().warm_addresses == ({
                    let w1 = if old(self).is_precompile(address) {
                        old(self).snapshot().warm_addresses
                    } else {
                        old(self).snapshot().warm_addresses.insert(address)
                    };
                    if old(self).is_precompile(target) {
                        w1
                    } else {
                        w1.insert(target)
                    }
                })
                &&& final(self).journal_len() <= old(self).journal_len() + 5
            },
            r is Err ==> {
                &&& old(self).preserved_by(*final(self))
                &&& final(self).snapshot().accounts == old(self).snapshot().accounts
                &&& final(self).snapshot().slots == old(self).snapshot().slots
                &&& final(self).snapshot().transient == old(self).snapshot().transient
                &&& final(self).snapshot().logs == old(self).snapshot().logs
                &&& final(self).snapshot().warm_slots == old(self).snapshot().warm_slots
                &&& forall|a: u64|
                    old(self).snapshot().warm_addresses.contains(a) ==> final(self).snapshot().warm_addresses.contains(a)
                &&& forall|a: u64|
                    final(self).snapshot().warm_addresses.contains(a) ==> old(
                        self,
                    ).snapshot().warm_addresses.contains(a) || a == address || a == target
            },
    {
        let ghost pre = *self;
        match self.load_account_internal(address) {
            Ok(_) => {},
            Err(er) => {
                return Err(er);
            },
        }
        let target_cold = match self.load_account_internal(target) {
            Ok(c) => c,
            Err(er) => {
                return Err(er);
            },
        };
        self.touch_entry(address);
        self.touch_entry(target);
        let ghost mid = *self;
        proof {
            assert(mid.snapshot().accounts =~= ({
                let t1 = pre.snapshot().accounts.insert(
                    address,
                    (AccountModel { touched: true, ..pre.snapshot().accounts[address] }),
                );
                t1.insert(target, (AccountModel { touched: true, ..t1[target] }))
            }));
            assert(mid.snapshot().warm_addresses =~= ({
                let w1 = if pre.is_precompile(address) {
                    pre.snapshot().warm_addresses
                } else {
                    pre.snapshot().warm_addresses.insert(address)
                };
                if pre.is_precompile(target) {
                    w1
                } else {
                    w1.insert(target)
                }
            }));
        }
        let acct = self.cache.get(&address).unwrap();
        let had_balance = acct.balance;
        let previously_destroyed = acct.destroyed;
        let tgt = self.cache.get(&target).unwrap();
        let target_balance = tgt.balance;
        let target_empty = tgt.balance == 0 && tgt.nonce == 0 && tgt.code_hash == EMPTY_CODE_HASH;
        let delta = if address == target {
            0
        } else if had_balance <= u128::MAX - target_balance {
            had_balance
        } else {
            u128::MAX - target_balance
        };
        let e = JournalEntry::AccountDestroyed {
            address,
            target,
            was_destroyed: previously_destroyed,
            had_balance,
            target_delta: delta,
        };
        let ghost s2 = mid.with_destroyed(address, target, delta);
        proof {
            let step = s2.accounts.insert(
                target,
                (AccountModel {
                    balance: (s2.accounts[target].balance - delta) as u128,
                    ..s2.accounts[target]
                }),
            );
            assert(step.insert(
                address,
                (AccountModel { balance: had_balance, destroyed: previously_destroyed, ..step[address] }),
            ) =~= mid.snapshot().accounts);
            assert(undo_one(mid.db_model(), s2, e) =~~= mid.snapshot());
            assert(refs_ok(s2, e));
        }
        self.journal_destroy(address, target, delta, e);
        proof {
            assert(final(self).snapshot().accounts =~= selfdestruct_accounts(
                pre.snapshot(),
                address,
                target,
            ));
        }
        Ok(
            StateLoad {
                data: SelfDestructResult {
                    had_value: had_balance != 0,
                    target_exists: !target_empty,
                    previously_destroyed,
                },
                is_cold: target_cold,
            },
        )
    }

    /// The snapshot after crediting the target with `delta` and then
    /// zeroing and flagging the destroyed account.
    pub open spec fn with_destroyed(self, address: u64, target: u64, delta: u128) -> Snapshot {
        let acc1 = self.snapshot().accounts.insert(
            target,
            (AccountModel {
                balance: (self.snapshot().accounts[target].balance + delta) as u128,
                ..self.snapshot().accounts[target]
            }),
        );
        let acc2 = acc1.insert(
            address,
            (AccountModel { balance: 0, destroyed: true, ..acc1[address] }),
        );
        Snapshot { accounts: acc2, ..self.snapshot() }
    }

    /// Credits the target, then zeroes and flags the destroyed account, and
    /// journals the given entry.
    fn journal_destroy(&mut self, address: u64, target: u64, delta: u128, e: JournalEntry)
        requires
            old(self).wf(),
            old(self).is_cached(address),
            old(self).is_cached(target),
            old(self).snapshot().accounts[target].balance + delta <= u128::MAX,
            entry_addresses(e).subset_of(old(self).snapshot_cached_addresses()),
            entry_slots(e).subset_of(old(self).snapshot_cached_slots()),
            refs_ok(old(self).with_destroyed(address, target, delta), e),
            undo_one(old(self).db_model(), old(self).with_destroyed(address, target, delta), e)
                == old(self).snapshot(),
        ensures
            final(self).wf(),
            old(self).preserved_by(*final(self)),
            final(self).snapshot() == old(self).with_destroyed(address, target, delta),
            final(self).journal_len() == old(self).journal_len() + 1,
            forall|a: u64| final(self).is_cached(a) == old(self).is_cached(a),
            forall|t: u128| final(self).is_slot_cached(t) == old(self).is_slot_cached(t),
            final(self).call_depth() == old(self).call_depth(),
            final(self).hardfork() == old(self).hardfork(),
            forall|a: u64| final(self).is_precompile(a) == old(self).is_precompile(a),
    {
        let ghost pre = *self;
        let mut t = self.cache.remove(&target).unwrap();
        t.balance = t.balance + delta;
        self.cache.insert(target, t);
        let mut a = self.cache.remove(&address).unwrap();
        a.balance = 0;
        a.destroyed = true;
        self.cache.insert(address, a);
        self.entries.push(e);
        self.history = Ghost(self.history@.push(pre.snapshot()));
        proof {
            assert(self.cache@.dom() =~= pre.cache@.dom());
            let acc1 = pre.snapshot().accounts.insert(
                target,
                (AccountModel {
                    balance: (pre.snapshot().accounts[target].balance + delta) as u128,
                    ..pre.snapshot().accounts[target]
                }),
            );
            let acc2 = acc1.insert(
                address,
                (AccountModel { balance: 0, destroyed: true, ..acc1[address] }),
            );
            assert(self.snapshot().accounts =~= acc2);
            assert(self.snapshot() =~~= pre.with_destroyed(address, target, delta));
            Self::lemma_wf_after_append(pre, *self, e);
        }
    }

    /// Issues a checkpoint, marks the new account created, and transfers
    /// the endowment from the caller, so the interpreter can revert the
    /// entire creation atomically on constructor failure.  Fails with
    /// `CreateCollision` when the address is already occupied (nonzero
    /// nonce, code present, or — before delegation rules — any balance);
    /// transfer failures are returned as they are.  On failure nothing
    /// observable has changed.  Both accounts must already be loaded.
    pub fn create_account_checkpoint(
        &mut self,
        caller: u64,
        address: u64,
        balance: u128,
        spec_id: SpecId,
    ) -> (r: Result<JournalCheckpoint, TransferError>)
        requires
            old(self).wf(),
            old(self).is_cached(caller),
            old(self).is_cached(address),
            old(self).call_depth() < usize::MAX,
        ensures
            final(self).wf(),
            final(self).hardfork() == old(self).hardfork(),
            forall|a: u64| final(self).is_precompile(a) == old(self).is_precompile(a),
            forall|a: u64| final(self).is_cached(a) == old(self).is_cached(a),
            forall|s: u128| final(self).is_slot_cached(s) == old(self).is_slot_cached(s),
            r matches Err(te) ==> {
                &&& final(self).snapshot() == old(self).snapshot()
                &&& final(self).journal_len() == old(self).journal_len()
                &&& final(self).call_depth() == old(self).call_depth()
                &&& te == (if create_collision(old(self).snapshot().accounts[address], spec_id) {
                    TransferError::CreateCollision
                } else {
                    transfer_outcome(old(self).snapshot(), caller, address, balance)->Some_0
                })
                &&& (create_collision(old(self).snapshot().accounts[address], spec_id)
                    || transfer_outcome(old(self).snapshot(), caller, address, balance) is Some)
            },
            r matches Ok(cp) ==> {
                &&& !create_collision(old(self).snapshot().accounts[address], spec_id)
                &&& transfer_outcome(old(self).snapshot(), caller, address, balance) is None
                &&& old(self).preserved_by(*final(self))
                &&& cp.journal_i == old(self).journal_len()
                &&& final(self).snapshot_at(cp.journal_i as int) == old(self).snapshot()
                &&& final(self).call_depth() == old(self).call_depth() + 1
                &&& final(self).snapshot().accounts == ({
                    let t = old(self).snapshot().accounts.insert(
                        address,
                        (AccountModel {
                            created: true,
                            ..old(self).snapshot().accounts[address]
                        }),
                    );
                    transfer_accounts(
                        (Snapshot { accounts: t, ..old(self).snapshot() }),
                        caller,
                        address,
                        balance,
                    )
                })
                &&& final(self).snapshot().slots == old(self).snapshot().slots
                &&& final(self).snapshot().transient == old(self).snapshot().transient
                &&& final(self).snapshot().logs == old(self).snapshot().logs
                &&& final(self).snapshot().warm_slots == old(self).snapshot().warm_slots
                &&& final(self).journal_len() <= old(self).journal_len() + 6
            },
    {
        let ghost pre = *self;
        let cp = self.checkpoint();
        let acct = self.cache.get(&address).unwrap();
        let collision = acct.nonce != 0 || acct.code_hash != EMPTY_CODE_HASH || (
        !spec_id.has_delegation() && acct.balance != 0);
        if collision {
            self.checkpoint_revert(cp);
            proof {
                assert(final(self).snapshot() == pre.snapshot());
            }
            return Err(TransferError::CreateCollision);
        }
        self.created_entry(address);
        let ghost made = *self;
        let out = match self.transfer(caller, address, balance) {
            Ok(o) => o,
            Err(_) => {
                proof {
                    assert(false);
                }
                return Err(TransferError::OutOfFunds);
            },
        };
        match out {
            None => {
                proof {
                    assert(transfer_outcome(made.snapshot(), caller, address, balance)
                        == transfer_outcome(pre.snapshot(), caller, address, balance));
                }
                Ok(cp)
            },
            Some(te) => {
                proof {
                    assert(transfer_outcome(made.snapshot(), caller, address, balance)
                        == transfer_outcome(pre.snapshot(), caller, address, balance));
                }
                self.checkpoint_revert(cp);
                proof {
                    assert(final(self).snapshot() == pre.snapshot());
                }
                Err(te)
            },
        }
    }

    /// Loads an account for call dispatch: reports whether it is empty (not
    /// yet created) and, when its code is a delegation designator and
    /// delegation rules are active, loads the delegate account too and
    /// reports whether that load was cold.
    pub fn load_account_delegated(&mut self, address: u64) -> (r: Result<
        StateLoad<AccountLoad>,
        DB::Error,
    >)
        requires
            old(self).wf(),
        ensures
            final(self).wf(),
            final(self).call_depth() == old(self).call_depth(),
            final(self).hardfork() == old(self).hardfork(),
            forall|a: u64| final(self).is_precompile(a) == old(self).is_precompile(a),
            r matches Ok(l) ==> {
                &&& old(self).preserved_by(*final(self))
                &&& final(self).is_cached(address)
                &&& l.is_cold == (!old(self).snapshot().warm_addresses.contains(address) && !old(
                    self,
                ).is_precompile(address))
                &&& l.data.is_empty == account_is_empty(old(self).snapshot().accounts[address])
                &&& l.data.is_delegate_account_cold == (if old(self).hardfork().spec_has_delegation() {
                    match delegate_target(old(self).snapshot().accounts[address].code) {
                        Some(d) => Some(
                            !(if old(self).is_precompile(address) {
                                old(self).snapshot().warm_addresses
                            } else {
                                old(self).snapshot().warm_addresses.insert(address)
                            }).contains(d) && !old(self).is_precompile(d),
                        ),
                        None => None::<bool>,
                    }
                } else {
                    None::<bool>
                })
                &&& final(self).snapshot() == (Snapshot {
                    warm_addresses: ({
                        let w1 = if old(self).is_precompile(address) {
                            old(self).snapshot().warm_addresses
                        } else {
                            old(self).snapshot().warm_addresses.insert(address)
                        };
                        if old(self).hardfork().spec_has_delegation() {
                            match delegate_target(old(self).snapshot().accounts[address].code) {
                                Some(d) => if old(self).is_precompile(d) {
                                    w1
                                } else {
                                    w1.insert(d)
                                },
                                None => w1,
                            }
                        } else {
                            w1
                        }
                    }),
                    ..old(self).snapshot()
                })
                &&& final(self).journal_len() <= old(self).journal_len() + 2
            },
            old(self).is_cached(address) && old(self).code_loaded(address) && (old(
                self,
            ).hardfork().spec_has_delegation() ==> (match delegate_target(
                old(self).snapshot().accounts[address].code,
            ) {
                Some(d) => old(self).is_cached(d),
                None => true,
            })) ==> r is Ok,
            r is Err ==> {
                &&& old(self).preserved_by(*final(self))
                &&& final(self).snapshot().accounts == old(self).snapshot().accounts
                &&& final(self).snapshot().slots == old(self).snapshot().slots
                &&& final(self).snapshot().transient == old(self).snapshot().transient
                &&& final(self).snapshot().logs == old(self).snapshot().logs
                &&& final(self).snapshot().warm_slots == old(self).snapshot().warm_slots
                &&& forall|a: u64|
                    old(self).snapshot().warm_addresses.contains(a) ==> final(self).snapshot().warm_addresses.contains(a)
                &&& forall|a: u64|
                    final(self).snapshot().warm_addresses.contains(a) ==> old(
                        self,
                    ).snapshot().warm_addresses.contains(a) || a == address
            },
    {
        let ghost pre = *self;
        let cold = match self.load_account_internal(address) {
            Ok(c) => c,
            Err(er) => {
                return Err(er);
            },
        };
        match self.ensure_code_internal(address) {
            Ok(()) => {},
            Err(er) => {
                return Err(er);
            },
        }
        let ghost mid = *self;
        let acct = self.cache.get(&address).unwrap();
        let is_empty = acct.balance == 0 && acct.nonce == 0 && acct.code_hash == EMPTY_CODE_HASH;
        let target_opt = if self.spec_id.has_delegation() {
            match &acct.code {
                Some(c) => delegate_of(c),
                None => None,
            }
        } else {
            None
        };
        proof {
            assert(target_opt == (if pre.hardfork().spec_has_delegation() {
                delegate_target(pre.snapshot().accounts[address].code)
            } else {
                None::<u64>
            }));
        }
        let deleg = match target_opt {
            Some(d) => {
                let dcold = match self.load_account_internal(d) {
                    Ok(c) => c,
                    Err(er) => {
                        proof {
                            assert(!mid.is_cached(d) ==> !pre.is_cached(d));
                        }
                        return Err(er);
                    },
                };
                proof {
                    assert(final(self).snapshot() =~~= (Snapshot {
                        warm_addresses: final(self).snapshot().warm_addresses,
                        ..pre.snapshot()
                    }));
                }
                Some(dcold)
            },
            None => {
                proof {
                    assert(final(self).snapshot() =~~= (Snapshot {
                        warm_addresses: final(self).snapshot().warm_addresses,
                        ..pre.snapshot()
                    }));
                }
                None
            },
        };
        proof {
            assert(mid.snapshot().warm_addresses =~= (if pre.is_precompile(address) {
                pre.snapshot().warm_addresses
            } else {
                pre.snapshot().warm_addresses.insert(address)
            }));
            if target_opt is Some && !pre.is_precompile(target_opt->Some_0) {
                assert(final(self).snapshot().warm_addresses =~= mid.snapshot(
                ).warm_addresses.insert(target_opt->Some_0));
            }
        }
        Ok(StateLoad { data: AccountLoad { is_delegate_account_cold: deleg, is_empty }, is_cold: cold })
    }

    /// Commits the current transaction: the undo log is cleared (the cache
    /// and the emitted logs stay as the permanent record), the
    /// per-transaction warm sets and transient storage are reset, and the
    /// internal transaction counter advances.
    pub fn commit_tx(&mut self)
        requires
            old(self).wf(),
        ensures
            final(self).wf(),
            final(self).journal_len() == 0,
            final(self).call_depth() == 0,
            final(self).snapshot() == (Snapshot {
                warm_addresses: Set::<u64>::empty(),
                warm_slots: Set::<u128>::empty(),
                transient: Map::total(|s: u128| 0u128),
                ..old(self).snapshot()
            }),
            final(self).db_model() == old(self).db_model(),
            forall|a: u64| final(self).is_cached(a) == old(self).is_cached(a),
            forall|s: u128| final(self).is_slot_cached(s) == old(self).is_slot_cached(s),
            final(self).hardfork() == old(self).hardfork(),
            forall|a: u64| final(self).is_precompile(a) == old(self).is_precompile(a),
    {
        let ghost pre = *self;
        self.entries.clear();
        self.history = Ghost(Seq::empty());
        self.warm_addresses.clear();
        self.warm_slots.clear();
        self.transient.clear();
        self.depth = 0;
        if self.transaction_id < u64::MAX {
            self.transaction_id = self.transaction_id + 1;
        }
        proof {
            assert(self.snapshot().transient =~= Map::total(|s: u128| 0u128));
            assert(self.snapshot() =~~= (Snapshot {
                warm_addresses: Set::<u64>::empty(),
                warm_slots: Set::<u128>::empty(),
                transient: Map::total(|s: u128| 0u128),
                ..pre.snapshot()
            }));
        }
    }

    /// Discards the current transaction: every journal entry since the last
    /// boundary is undone in reverse order, and the per-transaction state
    /// is reset as by [`Self::commit_tx`].  Total and idempotent — with no
    /// entries to undo it changes nothing observable, so it is safe to call
    /// repeatedly and is the recovery path after any failed operation.
    pub fn discard_tx(&mut self)
        requires
            old(self).wf(),
        ensures
            final(self).wf(),
            final(self).journal_len() == 0,
            final(self).call_depth() == 0,
            final(self).snapshot() == (Snapshot {
                warm_addresses: Set::<u64>::empty(),
                warm_slots: Set::<u128>::empty(),
                transient: Map::total(|s: u128| 0u128),
                ..old(self).snapshot_at(0)
            }),
            old(self).journal_len() == 0 ==> final(self).snapshot() == (Snapshot {
                warm_addresses: Set::<u64>::empty(),
                warm_slots: Set::<u128>::empty(),
                transient: Map::total(|s: u128| 0u128),
                ..old(self).snapshot()
            }),
            final(self).db_model() == old(self).db_model(),
            forall|a: u64| final(self).is_cached(a) == old(self).is_cached(a),
            forall|s: u128| final(self).is_slot_cached(s) == old(self).is_slot_cached(s),
            final(self).hardfork() == old(self).hardfork(),
            forall|a: u64| final(self).is_precompile(a) == old(self).is_precompile(a),
    {
        self.unwind_to(0);
        self.commit_tx();
    }

    /// Finalizes the transaction into an immutable diff: every touched
    /// account's post-state, and every surviving storage slot whose value
    /// changed.  The journal is then reset for reuse within the block:
    /// destroyed accounts and their slots are evicted, kept accounts lose
    /// their per-transaction flags, kept slots restart with the present
    /// value as the new original, and the warm sets, transient storage,
    /// emitted logs and undo entries are cleared.  Accounts already loaded
    /// stay loaded, avoiding redundant database reads across the block.
    pub fn finalize(&mut self) -> (r: StateDiff)
        requires
            old(self).wf(),
        ensures
            final(self).wf(),
            final(self).journal_len() == 0,
            final(self).call_depth() == 0,
            final(self).db_model() == old(self).db_model(),
            final(self).hardfork() == old(self).hardfork(),
            forall|a: u64| final(self).is_precompile(a) == old(self).is_precompile(a),
            forall|j: int|
                0 <= j < r.accounts@.len() ==> {
                    let d = #[trigger] r.accounts@[j];
                    &&& old(self).is_cached(d.address)
                    &&& old(self).snapshot().accounts[d.address].touched
                    &&& d.balance == old(self).snapshot().accounts[d.address].balance
                    &&& d.nonce == old(self).snapshot().accounts[d.address].nonce
                    &&& d.code_hash == old(self).snapshot().accounts[d.address].code_hash
                    &&& d.created == old(self).snapshot().accounts[d.address].created
                    &&& d.destroyed == old(self).snapshot().accounts[d.address].destroyed
                },
            forall|a: u64|
                old(self).is_cached(a) && old(self).snapshot().accounts[a].touched
                    ==> exists|j: int|
                    0 <= j < r.accounts@.len() && (#[trigger] r.accounts@[j]).address == a,
            forall|j1: int, j2: int|
                0 <= j1 < j2 < r.accounts@.len() ==> r.accounts@[j1].address
                    != r.accounts@[j2].address,
            forall|j: int|
                0 <= j < r.storage@.len() ==> {
                    let d = #[trigger] r.storage@[j];
                    &&& old(self).is_slot_cached(slot_id(d.address, d.key))
                    &&& old(self).is_cached(d.address)
                    &&& !old(self).snapshot().accounts[d.address].destroyed
                    &&& d.original == old(self).snapshot().slots[slot_id(d.address, d.key)].original
                    &&& d.present == old(self).snapshot().slots[slot_id(d.address, d.key)].present
                    &&& d.original != d.present
                },
            forall|a: u64, k: u64|
                old(self).is_slot_cached(slot_id(a, k)) && !old(self).snapshot().accounts[a].destroyed
                    && old(self).snapshot().slots[slot_id(a, k)].original != old(
                    self,
                ).snapshot().slots[slot_id(a, k)].present ==> exists|j: int|
                    0 <= j < r.storage@.len() && (#[trigger] r.storage@[j]).address == a
                        && r.storage@[j].key == k,
            forall|a: u64|
                final(self).is_cached(a) == (old(self).is_cached(a) && !old(
                    self,
                ).snapshot().accounts[a].destroyed),
            forall|a: u64|
                #[trigger] final(self).is_cached(a) ==> final(self).snapshot().accounts[a]
                    == (AccountModel {
                    touched: false,
                    created: false,
                    ..old(self).snapshot().accounts[a]
                }),
            forall|a: u64|
                !final(self).is_cached(a) ==> final(self).snapshot().accounts[a]
                    == default_account_model(old(self).db_model(), a),
            forall|a: u64, k: u64|
                final(self).is_slot_cached(slot_id(a, k)) == (old(self).is_slot_cached(
                    slot_id(a, k),
                ) && !old(self).snapshot().accounts[a].destroyed),
            forall|a: u64, k: u64|
                #[trigger] final(self).is_slot_cached(slot_id(a, k)) ==> final(self).snapshot().slots[slot_id(a, k)] == (Slot {
                    original: old(self).snapshot().slots[slot_id(a, k)].present,
                    present: old(self).snapshot().slots[slot_id(a, k)].present,
                }),
            forall|s: u128|
                !final(self).is_slot_cached(s) ==> final(self).snapshot().slots[s] == default_slot(
                    old(self).db_model(),
                    s,
                ),
            final(self).snapshot().warm_addresses == Set::<u64>::empty(),
            final(self).snapshot().warm_slots == Set::<u128>::empty(),
            final(self).snapshot().transient == Map::total(|s: u128| 0u128),
            final(self).snapshot().logs == Seq::<LogModel>::empty(),
    {
        let ghost orig = *old(self);
        let mut storage_changes: Vec<StorageChange> = Vec::new();
        let mut new_slots: HashMapWithView<u128, Slot> = HashMapWithView::new();
        let mut new_slot_keys: Vec<(u64, u64)> = Vec::new();
        let mut i: usize = 0;
        while i < self.slot_keys.len()
            invariant
                *self == orig,
                orig.wf(),
                0 <= i <= self.slot_keys@.len(),
                forall|j: int|
                    0 <= j < storage_changes@.len() ==> {
                        let d = #[trigger] storage_changes@[j];
                        &&& orig.is_slot_cached(slot_id(d.address, d.key))
                        &&& orig.is_cached(d.address)
                        &&& !orig.snapshot().accounts[d.address].destroyed
                        &&& d.original == orig.snapshot().slots[slot_id(d.address, d.key)].original
                        &&& d.present == orig.snapshot().slots[slot_id(d.address, d.key)].present
                        &&& d.original != d.present
                    },
                forall|t: int|
                    0 <= t < i ==> {
                        let p = #[trigger] orig.slot_keys@[t];
                        (!orig.snapshot().accounts[p.0].destroyed && orig.snapshot().slots[slot_id(
                            p.0,
                            p.1,
                        )].original != orig.snapshot().slots[slot_id(p.0, p.1)].present)
                            ==> exists|j: int|
                            0 <= j < storage_changes@.len() && (#[trigger] storage_changes@[j]).address
                                == p.0 && storage_changes@[j].key == p.1
                    },
                forall|s: u128|
                    #[trigger] new_slots@.dom().contains(s) ==> exists|t: int|
                        0 <= t < i && slot_id((#[trigger] orig.slot_keys@[t]).0, orig.slot_keys@[t].1)
                            == s && !orig.snapshot().accounts[orig.slot_keys@[t].0].destroyed,
                forall|t: int|
                    0 <= t < i ==> {
                        let p = #[trigger] orig.slot_keys@[t];
                        !orig.snapshot().accounts[p.0].destroyed ==> new_slots@.dom().contains(
                            slot_id(p.0, p.1),
                        )
                    },
                forall|s: u128|
                    #[trigger] new_slots@.dom().contains(s) ==> new_slots@[s] == (Slot {
                        original: orig.snapshot().slots[s].present,
                        present: orig.snapshot().slots[s].present,
                    }),
                new_slot_keys@.map_values(|p: (u64, u64)| slot_id(p.0, p.1)).no_duplicates(),
                new_slot_keys@.map_values(|p: (u64, u64)| slot_id(p.0, p.1)).to_set()
                    =~= new_slots@.dom(),
                forall|t: int|
                    0 <= t < new_slot_keys@.len() ==> {
                        let p = #[trigger] new_slot_keys@[t];
                        orig.is_cached(p.0) && !orig.snapshot().accounts[p.0].destroyed
                    },
            decreases self.slot_keys@.len() - i,
        {
            let p = self.slot_keys[i];
            let a = p.0;
            let k = p.1;
            let sid = make_slot_id(a, k);
            proof {
                assert(orig.slot_id_seq()[i as int] == sid);
                assert(orig.slot_id_seq().contains(sid));
                assert(orig.slots@.dom().contains(sid));
                assert(orig.cache@.dom().contains(a));
            }
            let slot = *self.slots.get(&sid).unwrap();
            let owner_destroyed = self.cache.get(&a).unwrap().destroyed;
            proof {
                assert(orig.snapshot().slots[sid] == orig.slots@[sid]);
                assert(orig.snapshot().accounts[a].destroyed == orig.cache@[a].destroyed);
            }
            let ghost changes0 = storage_changes@;
            if !owner_destroyed {
                if slot.original != slot.present {
                    storage_changes.push(
                        StorageChange { address: a, key: k, original: slot.original, present: slot.present },
                    );
                }
                proof {
                    if new_slots@.dom().contains(sid) {
                        let t = choose|t: int|
                            0 <= t < i && slot_id(orig.slot_keys@[t].0, orig.slot_keys@[t].1) == sid
                                && !orig.snapshot().accounts[orig.slot_keys@[t].0].destroyed;
                        assert(orig.slot_id_seq()[t] == sid);
                        assert(orig.slot_id_seq()[i as int] == sid);
                        assert(false);
                    }
                    lemma_push_to_set(
                        new_slot_keys@.map_values(|q: (u64, u64)| slot_id(q.0, q.1)),
                        sid,
                    );
                    assert(new_slot_keys@.push((a, k)).map_values(|q: (u64, u64)| slot_id(q.0, q.1))
                        =~= new_slot_keys@.map_values(|q: (u64, u64)| slot_id(q.0, q.1)).push(sid));
                }
                new_slots.insert(sid, Slot { original: slot.present, present: slot.present });
                new_slot_keys.push(p);
            }
            i = i + 1;
            proof {
                assert forall|t: int| 0 <= t < i implies ({
                    let q = #[trigger] orig.slot_keys@[t];
                    (!orig.snapshot().accounts[q.0].destroyed && orig.snapshot().slots[slot_id(
                        q.0,
                        q.1,
                    )].original != orig.snapshot().slots[slot_id(q.0, q.1)].present)
                        ==> exists|j: int|
                        0 <= j < storage_changes@.len() && (#[trigger] storage_changes@[j]).address
                            == q.0 && storage_changes@[j].key == q.1
                }) by {
                    let q = orig.slot_keys@[t];
                    if !orig.snapshot().accounts[q.0].destroyed && orig.snapshot().slots[slot_id(
                        q.0,
                        q.1,
                    )].original != orig.snapshot().slots[slot_id(q.0, q.1)].present {
                        if t == i - 1 {
                            let last = storage_changes@.len() - 1;
                            assert(storage_changes@[last].address == q.0
                                && storage_changes@[last].key == q.1);
                        } else {
                            let w = choose|w: int|
                                0 <= w < changes0.len() && changes0[w].address == q.0
                                    && changes0[w].key == q.1;
                            assert(storage_changes@[w].address == q.0 && storage_changes@[w].key
                                == q.1);
                        }
                    }
                }
            }
        }
        let mut account_changes: Vec<AccountChange> = Vec::new();
        let mut new_cache: HashMapWithView<u64, Account> = HashMapWithView::new();
        let mut new_keys: Vec<u64> = Vec::new();
        let mut j: usize = 0;
        while j < self.account_keys.len()
            invariant
                orig.wf(),
                0 <= j <= self.account_keys@.len(),
                self.account_keys@ == orig.account_keys@,
                self.db == orig.db,
                self.slots@ == orig.slots@,
                self.slot_keys@ == orig.slot_keys@,
                self.transient@ == orig.transient@,
                self.warm_addresses@ == orig.warm_addresses@,
                self.warm_slots@ == orig.warm_slots@,
                self.precompiles@ == orig.precompiles@,
                self.logs@ == orig.logs@,
                self.entries@ == orig.entries@,
                self.depth == orig.depth,
                self.spec_id == orig.spec_id,
                forall|a: u64|
                    !orig.account_keys@.subrange(0, j as int).contains(a) ==> (
                    #[trigger] self.cache@.dom().contains(a) == orig.cache@.dom().contains(a)
                        && (orig.cache@.dom().contains(a) ==> self.cache@[a] == orig.cache@[a])),
                forall|j1: int|
                    0 <= j1 < account_changes@.len() ==> {
                        let d = #[trigger] account_changes@[j1];
                        &&& orig.is_cached(d.address)
                        &&& orig.snapshot().accounts[d.address].touched
                        &&& d.balance == orig.snapshot().accounts[d.address].balance
                        &&& d.nonce == orig.snapshot().accounts[d.address].nonce
                        &&& d.code_hash == orig.snapshot().accounts[d.address].code_hash
                        &&& d.created == orig.snapshot().accounts[d.address].created
                        &&& d.destroyed == orig.snapshot().accounts[d.address].destroyed
                        &&& orig.account_keys@.subrange(0, j as int).contains(d.address)
                    },
                forall|t: int|
                    0 <= t < j ==> {
                        let a = #[trigger] orig.account_keys@[t];
                        orig.snapshot().accounts[a].touched ==> exists|j1: int|
                            0 <= j1 < account_changes@.len() && (#[trigger] account_changes@[j1]).address
                                == a
                    },
                forall|j1: int, j2: int|
                    0 <= j1 < j2 < account_changes@.len() ==> account_changes@[j1].address
                        != account_changes@[j2].address,
                forall|a: u64|
                    #[trigger] new_cache@.dom().contains(a) == (orig.account_keys@.subrange(
                        0,
                        j as int,
                    ).contains(a) && orig.is_cached(a) && !orig.snapshot().accounts[a].destroyed),
                forall|a: u64|
                    #[trigger] new_cache@.dom().contains(a) ==> account_model(
                        new_cache@[a],
                        orig.db.db(),
                    ) == (AccountModel {
                        touched: false,
                        created: false,
                        ..orig.snapshot().accounts[a]
                    }),
                new_keys@.no_duplicates(),
                new_keys@.to_set() =~= new_cache@.dom(),
            decreases self.account_keys@.len() - j,
        {
            let a = self.account_keys[j];
            proof {
                assert(orig.account_keys@.contains(a));
                assert(orig.cache@.dom().contains(a));
                assert forall|t: int| 0 <= t < j implies orig.account_keys@[t] != a by {}
                assert(!orig.account_keys@.subrange(0, j as int).contains(a));
                assert(self.cache@.dom().contains(a));
            }
            let ghost cache0 = self.cache@;
            let ghost changes0 = account_changes@;
            let acct = self.cache.remove(&a).unwrap();
            proof {
                assert(cache0[a] == orig.cache@[a]);
                assert(orig.snapshot().accounts[a].touched == orig.cache@[a].touched);
                assert(orig.snapshot().accounts[a].destroyed == orig.cache@[a].destroyed);
            }
            if acct.touched {
                proof {
                    assert forall|j1: int|
                        0 <= j1 < account_changes@.len() implies account_changes@[j1].address
                        != a by {}
                }
                account_changes.push(
                    AccountChange {
                        address: a,
                        balance: acct.balance,
                        nonce: acct.nonce,
                        code_hash: acct.code_hash,
                        created: acct.created,
                        destroyed: acct.destroyed,
                    },
                );
            }
            if !acct.destroyed {
                let mut acct2 = acct;
                acct2.touched = false;
                acct2.created = false;
                proof {
                    assert(!new_cache@.dom().contains(a));
                    lemma_push_to_set(new_keys@, a);
                }
                new_cache.insert(a, acct2);
                new_keys.push(a);
            }
            j = j + 1;
            proof {
                let prefix_old = orig.account_keys@.subrange(0, j as int - 1);
                let prefix_new = orig.account_keys@.subrange(0, j as int);
                assert(prefix_new =~= prefix_old.push(a));
                lemma_push_to_set(prefix_old, a);
                assert forall|b: u64| prefix_new.contains(b) == (prefix_old.contains(b) || b
                    == a) by {
                    assert(prefix_new.to_set().contains(b) == prefix_new.contains(b));
                    assert(prefix_new.to_set() == prefix_old.to_set().insert(a));
                }
                assert forall|b: u64|
                    !prefix_new.contains(b) implies (#[trigger] self.cache@.dom().contains(b)
                    == orig.cache@.dom().contains(b) && (orig.cache@.dom().contains(b)
                    ==> self.cache@[b] == orig.cache@[b])) by {
                    assert(b != a);
                    assert(!prefix_old.contains(b));
                    assert(self.cache@ == cache0.remove(a));
                    assert(cache0.dom().contains(b) == orig.cache@.dom().contains(b));
                }
                assert forall|t: int|
                    0 <= t < account_changes@.len() implies prefix_new.contains(
                    (#[trigger] account_changes@[t]).address,
                ) by {
                    if t < changes0.len() {
                        assert(account_changes@[t] == changes0[t]);
                        assert(prefix_old.contains(changes0[t].address));
                    } else {
                        assert(account_changes@[t].address == a);
                        assert(prefix_new[j as int - 1] == a);
                    }
                }
                assert forall|t: int| 0 <= t < j implies ({
                    let b = #[trigger] orig.account_keys@[t];
                    orig.snapshot().accounts[b].touched ==> exists|j1: int|
                        0 <= j1 < account_changes@.len() && (#[trigger] account_changes@[j1]).address
                            == b
                }) by {
                    let b = orig.account_keys@[t];
                    if orig.snapshot().accounts[b].touched {
                        if t == j - 1 {
                            let last = account_changes@.len() - 1;
                            assert(account_changes@[last].address == b);
                        } else {
                            let w = choose|w: int|
                                0 <= w < changes0.len() && changes0[w].address == b;
                            assert(account_changes@[w].address == b);
                        }
                    }
                }
                assert forall|b: u64|
                    #[trigger] new_cache@.dom().contains(b) == (prefix_new.contains(b)
                        && orig.is_cached(b) && !orig.snapshot().accounts[b].destroyed) by {}
            }
        }
        self.cache = new_cache;
        self.account_keys = new_keys;
        self.slots = new_slots;
        self.slot_keys = new_slot_keys;
        self.entries.clear();
        self.history = Ghost(Seq::empty());
        self.warm_addresses.clear();
        self.warm_slots.clear();
        self.transient.clear();
        self.logs.clear();
        self.depth = 0;
        if self.transaction_id < u64::MAX {
            self.transaction_id = self.transaction_id + 1;
        }
        let ghost ac = account_changes@;
        let ghost sc = storage_changes@;
        let result = StateDiff { accounts: account_changes, storage: storage_changes };
        proof {
            assert(result.accounts@ == ac);
            assert(result.storage@ == sc);
            assert(orig.account_keys@.subrange(0, orig.account_keys@.len() as int)
                =~= orig.account_keys@);
            assert(orig.slot_id_seq().to_set() =~= orig.slots@.dom());
            assert forall|a: u64|
                self.is_cached(a) == (orig.is_cached(a) && !orig.snapshot().accounts[a].destroyed) by {
                if orig.is_cached(a) {
                    assert(orig.account_keys@.to_set().contains(a));
                    assert(orig.account_keys@.contains(a));
                }
            }
            assert forall|a: u64, k: u64|
                self.is_slot_cached(slot_id(a, k)) == (orig.is_slot_cached(slot_id(a, k))
                    && !orig.snapshot().accounts[a].destroyed) by {
                let sid = slot_id(a, k);
                if self.slots@.dom().contains(sid) {
                    let t = choose|t: int|
                        0 <= t < orig.slot_keys@.len() && slot_id(
                            orig.slot_keys@[t].0,
                            orig.slot_keys@[t].1,
                        ) == sid && !orig.snapshot().accounts[orig.slot_keys@[t].0].destroyed;
                    lemma_slot_id_injective(orig.slot_keys@[t].0, orig.slot_keys@[t].1, a, k);
                    assert(orig.slot_id_seq()[t] == sid);
                    assert(orig.slot_id_seq().contains(sid));
                    assert(orig.slots@.dom().contains(sid));
                }
                if orig.slots@.dom().contains(sid) && !orig.snapshot().accounts[a].destroyed {
                    assert(orig.slot_id_seq().to_set().contains(sid));
                    assert(orig.slot_id_seq().contains(sid));
                    let t = choose|t: int|
                        0 <= t < orig.slot_id_seq().len() && orig.slot_id_seq()[t] == sid;
                    assert(slot_id(orig.slot_keys@[t].0, orig.slot_keys@[t].1) == sid);
                    lemma_slot_id_injective(orig.slot_keys@[t].0, orig.slot_keys@[t].1, a, k);
                }
            }
            assert forall|a: u64, k: u64|
                old(self).is_slot_cached(slot_id(a, k)) && !old(self).snapshot().accounts[a].destroyed
                    && old(self).snapshot().slots[slot_id(a, k)].original != old(
                    self,
                ).snapshot().slots[slot_id(a, k)].present implies exists|j1: int|
                0 <= j1 < result.storage@.len() && (#[trigger] result.storage@[j1]).address == a
                    && result.storage@[j1].key == k by {
                let sid = slot_id(a, k);
                assert(orig.slot_id_seq().to_set().contains(sid));
                assert(orig.slot_id_seq().contains(sid));
                let t = choose|t: int|
                    0 <= t < orig.slot_id_seq().len() && orig.slot_id_seq()[t] == sid;
                assert(slot_id(orig.slot_keys@[t].0, orig.slot_keys@[t].1) == sid);
                lemma_slot_id_injective(orig.slot_keys@[t].0, orig.slot_keys@[t].1, a, k);
                assert(orig.slot_keys@[t] == (a, k));
                let w = choose|w: int|
                    0 <= w < sc.len() && (#[trigger] sc[w]).address == a && sc[w].key == k;
                assert(result.storage@[w].address == a && result.storage@[w].key == k);
            }
            assert forall|a: u64|
                old(self).is_cached(a) && old(self).snapshot().accounts[a].touched
                    implies exists|j1: int|
                0 <= j1 < result.accounts@.len() && (#[trigger] result.accounts@[j1]).address
                    == a by {
                assert(orig.account_keys@.to_set().contains(a));
                assert(orig.account_keys@.contains(a));
                let t = choose|t: int|
                    0 <= t < orig.account_keys@.len() && orig.account_keys@[t] == a;
                let w = choose|w: int| 0 <= w < ac.len() && (#[trigger] ac[w]).address == a;
                assert(result.accounts@[w].address == a);
            }
            assert forall|a: u64| #[trigger]
                self.is_cached(a) implies self.snapshot().accounts[a] == (AccountModel {
                touched: false,
                created: false,
                ..orig.snapshot().accounts[a]
            }) by {}
            assert forall|a: u64, k: u64| #[trigger]
                self.is_slot_cached(slot_id(a, k)) implies self.snapshot().slots[slot_id(a, k)]
                == (Slot {
                original: orig.snapshot().slots[slot_id(a, k)].present,
                present: orig.snapshot().slots[slot_id(a, k)].present,
            }) by {}
            assert(self.snapshot().transient =~= Map::total(|s: u128| 0u128));
            assert(self.snapshot().logs =~= Seq::<LogModel>::empty());
            assert forall|idx: int|
                0 <= idx < self.slot_keys@.len() implies self.cache@.dom().contains(
                (#[trigger] self.slot_keys@[idx]).0,
            ) by {
                let p = self.slot_keys@[idx];
                assert(orig.account_keys@.to_set().contains(p.0));
                assert(orig.account_keys@.contains(p.0));
            }
        }
        result
    }

    /// Cleans all residue data from the journal at the end of the
    /// transaction, discarding the diff: the journal resets exactly as by
    /// [`Self::finalize`] — destroyed accounts and their slots evicted,
    /// kept accounts retain their committed values with the
    /// per-transaction flags cleared, kept slots restart with the present
    /// value as the new original, and everything per-transaction is
    /// emptied.
    pub fn clear(&mut self)
        requires
            old(self).wf(),
        ensures
            final(self).wf(),
            final(self).journal_len() == 0,
            final(self).call_depth() == 0,
            final(self).db_model() == old(self).db_model(),
            final(self).hardfork() == old(self).hardfork(),
            forall|a: u64| final(self).is_precompile(a) == old(self).is_precompile(a),
            forall|a: u64|
                final(self).is_cached(a) == (old(self).is_cached(a) && !old(
                    self,
                ).snapshot().accounts[a].destroyed),
            forall|a: u64|
                #[trigger] final(self).is_cached(a) ==> final(self).snapshot().accounts[a]
                    == (AccountModel {
                    touched: false,
                    created: false,
                    ..old(self).snapshot().accounts[a]
                }),
            forall|a: u64|
                !final(self).is_cached(a) ==> final(self).snapshot().accounts[a]
                    == default_account_model(old(self).db_model(), a),
            forall|a: u64, k: u64|
                final(self).is_slot_cached(slot_id(a, k)) == (old(self).is_slot_cached(
                    slot_id(a, k),
                ) && !old(self).snapshot().accounts[a].destroyed),
            forall|a: u64, k: u64|
                #[trigger] final(self).is_slot_cached(slot_id(a, k)) ==> final(self).snapshot().slots[slot_id(a, k)] == (Slot {
                    original: old(self).snapshot().slots[slot_id(a, k)].present,
                    present: old(self).snapshot().slots[slot_id(a, k)].present,
                }),
            forall|s: u128|
                !final(self).is_slot_cached(s) ==> final(self).snapshot().slots[s] == default_slot(
                    old(self).db_model(),
                    s,
                ),
            final(self).snapshot().warm_addresses == Set::<u64>::empty(),
            final(self).snapshot().warm_slots == Set::<u128>::empty(),
            final(self).snapshot().transient == Map::total(|s: u128| 0u128),
            final(self).snapshot().logs == Seq::<LogModel>::empty(),
    {
        let _ = self.finalize();
    }
}

/// Whether creating an account at an occupied address must fail: the
/// occupant has a nonzero nonce or carries code, or — before the
/// delegation-rules hardfork — holds any balance.
pub open spec fn create_collision(m: AccountModel, spec_id: SpecId) -> bool {
    m.nonce != 0 || m.code_hash != EMPTY_CODE_HASH || (!spec_id.spec_has_delegation() && m.balance
        != 0)
}

/// The account map after a self-destruct: both parties touched, the balance
/// moved to the target (saturating; none for a self-target), the account
/// zeroed and flagged destroyed.
pub open spec fn selfdestruct_accounts(s: Snapshot, address: u64, target: u64) -> Map<
    u64,
    AccountModel,
> {
    let bal = s.accounts[address].balance;
    let tbal = s.accounts[target].balance;
    let delta = if address == target {
        0u128
    } else if bal + tbal <= u128::MAX {
        bal
    } else {
        (u128::MAX - tbal) as u128
    };
    let t1 = s.accounts.insert(address, (AccountModel { touched: true, ..s.accounts[address] }));
    let t2 = t1.insert(target, (AccountModel { touched: true, ..t1[target] }));
    let u1 = t2.insert(
        target,
        (AccountModel { balance: (t2[target].balance + delta) as u128, ..t2[target] }),
    );
    u1.insert(address, (AccountModel { balance: 0, destroyed: true, ..u1[address] }))
}

/// Classification of a transfer attempt on the given snapshot: out of
/// funds, target overflow (a self-transfer nets to zero and cannot
/// overflow), or permitted.
pub open spec fn transfer_outcome(s: Snapshot, from: u64, to: u64, amount: u128) -> Option<
    TransferError,
> {
    if s.accounts[from].balance < amount {
        Some(TransferError::OutOfFunds)
    } else if from != to && s.accounts[to].balance + amount > u128::MAX {
        Some(TransferError::OverflowPayment)
    } else {
        None
    }
}

/// The account map after a transfer attempt: both parties are touched, and
/// the balances move only when the attempt is permitted.
pub open spec fn transfer_accounts(s: Snapshot, from: u64, to: u64, amount: u128) -> Map<
    u64,
    AccountModel,
> {
    let t1 = s.accounts.insert(from, (AccountModel { touched: true, ..s.accounts[from] }));
    let t2 = t1.insert(to, (AccountModel { touched: true, ..t1[to] }));
    if transfer_outcome(s, from, to, amount) is Some {
        t2
    } else {
        let u1 = t2.insert(
            from,
            (AccountModel { balance: (t2[from].balance - amount) as u128, ..t2[from] }),
        );
        u1.insert(to, (AccountModel { balance: (u1[to].balance + amount) as u128, ..u1[to] }))
    }
}

/// Appending an element to a sequence inserts it into the sequence's value
/// set, and keeps the sequence duplicate-free when it was new.
proof fn lemma_push_to_set<T>(s: Seq<T>, x: T)
    ensures
        s.push(x).to_set() == s.to_set().insert(x),
        !s.contains(x) && s.no_duplicates() ==> s.push(x).no_duplicates(),
{
    let t = s.push(x);
    assert forall|y: T| t.to_set().contains(y) == s.to_set().insert(x).contains(y) by {
        if y == x {
            assert(t[s.len() as int] == x);
            assert(t.contains(y));
        } else {
            if s.contains(y) {
                let i = choose|i: int| 0 <= i < s.len() && s[i] == y;
                assert(t[i] == y);
            }
            if t.contains(y) {
                let i = choose|i: int| 0 <= i < t.len() && t[i] == y;
                assert(i < s.len());
                assert(s[i] == y);
            }
        }
    }
    assert(t.to_set() =~= s.to_set().insert(x));
    if !s.contains(x) && s.no_duplicates() {
        assert forall|i: int, j: int| 0 <= i < j < t.len() implies t[i] != t[j] by {
            if j == s.len() {
                assert(s[i] == t[i]);
            }
        }
    }
}

/// Whether a vector of addresses contains the given one.
fn vec_contains_u64(v: &Vec<u64>, x: u64) -> (r: bool)
    ensures
        r == v@.contains(x),
{
    let mut i: usize = 0;
    while i < v.len()
        invariant
            i <= v.len(),
            forall|j: int| 0 <= j < i ==> v@[j] != x,
        decreases v.len() - i,
    {
        if v[i] == x {
            return true;
        }
        i = i + 1;
    }
    false
}

/// The observable state of a journal no operation has run on: everything
/// reads as the database content, nothing is warm.
pub open spec fn initial_snapshot(db: DbModel) -> Snapshot {
    Snapshot {
        accounts: Map::total(|a: u64| default_account_model(db, a)),
        slots: Map::total(|sid: u128| default_slot(db, sid)),
        warm_addresses: Set::empty(),
        warm_slots: Set::empty(),
        transient: Map::total(|sid: u128| 0u128),
        logs: Seq::empty(),
    }
}

} // verus!
