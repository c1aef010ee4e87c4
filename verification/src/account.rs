//! Cached account records and their mathematical model.

use vstd::prelude::*;

use crate::db::{db_code_at, DbModel};
use crate::types::EMPTY_CODE_HASH;

verus! {

/// One account as held in the journal's cache: scalar fields, lazily loaded
/// bytecode, and the per-transaction status flags.
pub struct Account {
    /// Current balance.
    pub balance: u128,
    /// Current nonce.
    pub nonce: u64,
    /// Hash of the account's bytecode.
    pub code_hash: u64,
    /// The bytecode itself; `None` until first needed, then fetched from the
    /// database by hash.
    pub code: Option<Vec<u8>>,
    /// Touched by a state-changing operation in this transaction.
    pub touched: bool,
    /// Created in this transaction.
    pub created: bool,
    /// Self-destructed in this transaction.
    pub destroyed: bool,
}

/// Mathematical value of an account: the bytecode is always resolved, a
/// not-yet-fetched code field reads as what the database holds for the hash.
#[verifier::ext_equal]
pub ghost struct AccountModel {
    /// Current balance.
    pub balance: u128,
    /// Current nonce.
    pub nonce: u64,
    /// Hash of the account's bytecode.
    pub code_hash: u64,
    /// The resolved bytecode.
    pub code: Seq<u8>,
    /// Touched by a state-changing operation in this transaction.
    pub touched: bool,
    /// Created in this transaction.
    pub created: bool,
    /// Self-destructed in this transaction.
    pub destroyed: bool,
}

/// Resolves an optionally cached code field against the database: a missing
/// field reads as the database's bytecode for the hash, and the hash of the
/// empty bytecode resolves to no code without consulting the database.
pub open spec fn resolve_code(db: DbModel, code: Option<Seq<u8>>, code_hash: u64) -> Seq<u8> {
    match code {
        Some(c) => c,
        None => if code_hash == EMPTY_CODE_HASH {
            Seq::empty()
        } else {
            db_code_at(db, code_hash)
        },
    }
}

/// Mathematical value of a cached account record.
pub open spec fn account_model(a: Account, db: DbModel) -> AccountModel {
    AccountModel {
        balance: a.balance,
        nonce: a.nonce,
        code_hash: a.code_hash,
        code: resolve_code(
            db,
            match a.code {
                Some(c) => Some(c@),
                None => None,
            },
            a.code_hash,
        ),
        touched: a.touched,
        created: a.created,
        destroyed: a.destroyed,
    }
}

/// An account is empty when it has zero balance, zero nonce and the empty
/// code hash.
pub open spec fn account_is_empty(m: AccountModel) -> bool {
    m.balance == 0 && m.nonce == 0 && m.code_hash == EMPTY_CODE_HASH
}

/// The big-endian 64-bit value of the eight bytes starting at `off`.
pub open spec fn be_u64_at(b: Seq<u8>, off: int) -> u64 {
    ((b[off] as u64) * 0x0100_0000_0000_0000 + (b[off + 1] as u64) * 0x0001_0000_0000_0000 + (b[off
        + 2] as u64) * 0x0000_0100_0000_0000 + (b[off + 3] as u64) * 0x0000_0001_0000_0000 + (b[off
        + 4] as u64) * 0x0000_0000_0100_0000 + (b[off + 5] as u64) * 0x0000_0000_0001_0000 + (b[off
        + 6] as u64) * 0x0000_0000_0000_0100 + (b[off + 7] as u64)) as u64
}

/// A delegation designator: a three-byte marker followed by the big-endian
/// address of the account the code delegates to.  Any other byte string is
/// ordinary code.
pub open spec fn delegate_target(code: Seq<u8>) -> Option<u64> {
    if code.len() == 11 && code[0] == 0xef && code[1] == 0x01 && code[2] == 0x00 {
        Some(be_u64_at(code, 3))
    } else {
        None
    }
}

/// Parses a delegation designator out of bytecode.
pub fn delegate_of(code: &Vec<u8>) -> (r: Option<u64>)
    ensures
        r == delegate_target(code@),
{
    if code.len() != 11 || code[0] != 0xef || code[1] != 0x01 || code[2] != 0x00 {
        return None;
    }
    let target = (code[3] as u64) * 0x0100_0000_0000_0000 + (code[4] as u64)
        * 0x0001_0000_0000_0000 + (code[5] as u64) * 0x0000_0100_0000_0000 + (code[6] as u64)
        * 0x0000_0001_0000_0000 + (code[7] as u64) * 0x0000_0000_0100_0000 + (code[8] as u64)
        * 0x0000_0000_0001_0000 + (code[9] as u64) * 0x0000_0000_0000_0100 + (code[10] as u64);
    Some(target)
}

} // verus!
