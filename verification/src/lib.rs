//! A poll state and vote ledger engine.
//!
//! Polls are created, modified, closed and voted on under strict time and
//! authorization rules. Each poll keeps a per-option tally together with a
//! ledger of who has voted; the central invariant is that the tallies always
//! sum to the ledger size. The hosting environment supplies the caller's
//! identity and the current time as plain values on every call.

pub mod ledger;
pub mod laws;
pub mod poll;
pub mod registry;
