//! A deterministic governance ledger: DAO accounts, proposals keyed by
//! (DAO, title), one-vote-per-user voter records, and per-(DAO, user)
//! reward points.
//!
//! The ledger is a plain in-memory record store. Every operation is a
//! synchronous read-modify-write that either applies all of its effects
//! or none of them; the contracts on [`ledger::GovernanceLedger`] state
//! exactly when each operation succeeds and what it changes.

pub mod keyed;
pub mod ledger;
pub mod records;
