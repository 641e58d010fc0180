//! A verified payments ledger.
//!
//! The library ingests an ordered stream of ledger entries — deposits,
//! withdrawals, and the dispute/resolve/chargeback operations that act on
//! prior entries — and maintains per-client account balances together with
//! per-transaction state. Money is held in exact fixed-point units of
//! 1/10000, so repeated additions and subtractions never drift.
//!
//! * [`ledger`] holds the state machine itself and its contracts.
//! * [`laws`] states and proves the global properties of that machine.
//! * [`numfmt`] renders and parses exact decimal numerals.
//! * [`input`] turns raw record fields into ledger entries.
//! * [`report`] renders the final account snapshot.

pub mod input;
pub mod laws;
pub mod ledger;
pub mod numfmt;
pub mod report;
