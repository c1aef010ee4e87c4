//! A verified journaled-state core for an account-based virtual machine.
//!
//! The journal tracks every mutation an in-flight execution makes to
//! accounts, storage slots, transient storage, emitted logs and destruction
//! markers, and can roll any nested sub-call back independently without
//! disturbing committed ancestor state.  Cold/warm access history is kept
//! per transaction so a gas-metering collaborator can classify accesses.
//!
//! The observable state of a journal is captured by the ghost [`snapshot::Snapshot`]
//! record; every mutating operation states exactly how it changes the
//! snapshot, and reverting to a checkpoint is proved to restore the snapshot
//! that was current when the checkpoint was issued.

pub mod account;
pub mod db;
pub mod journal;
pub mod results;
pub mod snapshot;
pub mod types;
