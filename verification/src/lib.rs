//! A contribution ledger: callers add amounts under their identity, the ledger
//! keeps one accumulated record per identity and a running pool total.
//!
//! - [`contract`]: the calls of the ledger, each on a store handed to it.
//! - [`policy`]: how a contribution merges into a record, and how the total is
//!   kept or recomputed.
//! - [`state`]: where the ledger's state lies in the store, and what it means
//!   for the total to agree with the records.
//! - [`store`]: the store itself, an outside type, and the calls into it.
//! - [`laws`]: what holds over any run of contributions.
//! - [`amount`], [`msg`], [`response`], [`error`], [`sums`]: amounts as text,
//!   requests, replies, failures, and sums over maps.

pub mod amount;
pub mod contract;
pub mod error;
pub mod laws;
pub mod msg;
pub mod policy;
pub mod response;
pub mod state;
pub mod store;
pub mod sums;
