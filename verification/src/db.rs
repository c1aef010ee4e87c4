//! The database collaborator: the interface the journal loads account and
//! storage data through on a cache miss, and an in-memory implementation.
//!
//! The journal only forwards a database error, never interprets it, and
//! never consults the database to undo anything.

use vstd::prelude::*;

use crate::types::{make_slot_id, slot_id, AccountData, EMPTY_CODE_HASH};

verus! {

broadcast use vstd::std_specs::hash::group_hash_axioms;

/// Mathematical content of a database: account records by address, storage
/// values by slot identifier, bytecode by hash.
#[verifier::ext_equal]
pub ghost struct DbModel {
    /// Account records by address.
    pub accounts: Map<u64, AccountData>,
    /// Storage values by packed slot identifier.
    pub storage: Map<u128, u128>,
    /// Bytecode by hash.
    pub code: Map<u64, Seq<u8>>,
}

/// The account record the database reports for an address; an absent
/// address reads as the empty record.
pub open spec fn db_account_at(db: DbModel, address: u64) -> AccountData {
    if db.accounts.dom().contains(address) {
        db.accounts[address]
    } else {
        AccountData { balance: 0, nonce: 0, code_hash: EMPTY_CODE_HASH }
    }
}

/// The storage value the database reports for a slot; an absent slot reads
/// as zero.
pub open spec fn db_storage_at(db: DbModel, slot: u128) -> u128 {
    if db.storage.dom().contains(slot) {
        db.storage[slot]
    } else {
        0
    }
}

/// The bytecode the database reports for a hash; an absent hash reads as
/// empty bytecode.
pub open spec fn db_code_at(db: DbModel, code_hash: u64) -> Seq<u8> {
    if db.code.dom().contains(code_hash) {
        db.code[code_hash]
    } else {
        Seq::empty()
    }
}

/// Interface over any persistent account/storage database.  Calls are
/// fallible with an implementer-defined error; a successful call reports
/// exactly the database's content, and no call changes that content.
pub trait Database: Sized {
    /// Implementer-defined error type; the journal forwards it verbatim.
    type Error;

    /// Mathematical content of the database.
    spec fn db(&self) -> DbModel;

    /// Fetches the account record stored for `address`, or `None` if the
    /// database holds none.
    fn get_account(&mut self, address: u64) -> (r: Result<Option<AccountData>, Self::Error>)
        ensures
            final(self).db() == old(self).db(),
            r matches Ok(a) ==> a == (if old(self).db().accounts.dom().contains(address) {
                Some(old(self).db().accounts[address])
            } else {
                None::<AccountData>
            }),
    ;

    /// Fetches the storage value for the given address and key.
    fn get_storage(&mut self, address: u64, key: u64) -> (r: Result<u128, Self::Error>)
        ensures
            final(self).db() == old(self).db(),
            r matches Ok(v) ==> v == db_storage_at(old(self).db(), slot_id(address, key)),
    ;

    /// Fetches the bytecode stored under `code_hash`.
    fn get_code(&mut self, code_hash: u64) -> (r: Result<Vec<u8>, Self::Error>)
        ensures
            final(self).db() == old(self).db(),
            r matches Ok(c) ==> c@ == db_code_at(old(self).db(), code_hash),
    ;
}

/// In-memory database: the reference implementation of [`Database`], also
/// convenient for seeding test states.  Its calls never fail.
pub struct MemDb {
    accounts: vstd::hash_map::HashMapWithView<u64, AccountData>,
    storage: vstd::hash_map::HashMapWithView<u128, u128>,
    code: vstd::hash_map::HashMapWithView<u64, Vec<u8>>,
}

impl MemDb {
    /// An empty database.
    pub fn new() -> (r: MemDb)
        ensures
            r.db() == (DbModel {
                accounts: Map::<u64, AccountData>::empty(),
                storage: Map::<u128, u128>::empty(),
                code: Map::<u64, Seq<u8>>::empty(),
            }),
    {
        let r = MemDb {
            accounts: vstd::hash_map::HashMapWithView::new(),
            storage: vstd::hash_map::HashMapWithView::new(),
            code: vstd::hash_map::HashMapWithView::new(),
        };
        proof {
            assert(r.db().code =~= Map::<u64, Seq<u8>>::empty());
        }
        r
    }

    /// Stores an account record.
    pub fn set_account(&mut self, address: u64, data: AccountData)
        ensures
            final(self).db() == (DbModel {
                accounts: old(self).db().accounts.insert(address, data),
                ..old(self).db()
            }),
    {
        self.accounts.insert(address, data);
        proof {
            assert(self.db().code =~= old(self).db().code);
        }
    }

    /// Stores a storage value.
    pub fn set_storage(&mut self, address: u64, key: u64, value: u128)
        ensures
            final(self).db() == (DbModel {
                storage: old(self).db().storage.insert(slot_id(address, key), value),
                ..old(self).db()
            }),
    {
        let sid = make_slot_id(address, key);
        self.storage.insert(sid, value);
        proof {
            assert(self.db().code =~= old(self).db().code);
        }
    }

    /// Stores bytecode under its hash.
    pub fn set_code(&mut self, code_hash: u64, code: Vec<u8>)
        ensures
            final(self).db() == (DbModel {
                code: old(self).db().code.insert(code_hash, code@),
                ..old(self).db()
            }),
    {
        let ghost prev = self.db().code;
        self.code.insert(code_hash, code);
        proof {
            assert(self.db().code =~= prev.insert(code_hash, self.code@[code_hash]@));
        }
    }
}

impl Database for MemDb {
    type Error = ();

    closed spec fn db(&self) -> DbModel {
        DbModel {
            accounts: self.accounts@,
            storage: self.storage@,
            code: self.code@.map_values(|c: Vec<u8>| c@),
        }
    }

    fn get_account(&mut self, address: u64) -> (r: Result<Option<AccountData>, ()>) {
        match self.accounts.get(&address) {
            Some(d) => Ok(Some(*d)),
            None => Ok(None),
        }
    }

    fn get_storage(&mut self, address: u64, key: u64) -> (r: Result<u128, ()>) {
        let sid = make_slot_id(address, key);
        match self.storage.get(&sid) {
            Some(v) => Ok(*v),
            None => Ok(0),
        }
    }

    fn get_code(&mut self, code_hash: u64) -> (r: Result<Vec<u8>, ()>) {
        let r = match self.code.get(&code_hash) {
            Some(c) => clone_bytes(c),
            None => Vec::new(),
        };
        Ok(r)
    }
}

/// Copies a byte vector.
pub(crate) fn clone_bytes(v: &Vec<u8>) -> (r: Vec<u8>)
    ensures
        r@ == v@,
{
    let mut r: Vec<u8> = Vec::new();
    let mut i: usize = 0;
    while i < v.len()
        invariant
            i <= v.len(),
            r@ == v@.subrange(0, i as int),
        decreases v.len() - i,
    {
        r.push(v[i]);
        i = i + 1;
        proof {
            assert(r@ =~= v@.subrange(0, i as int));
        }
    }
    proof {
        assert(r@ =~= v@);
    }
    r
}

} // verus!
