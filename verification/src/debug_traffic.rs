//! What was sent to a provider and what came back, kept for finding faults.
//!
//! Credentials in headers are never kept. Two bounds hold what is kept in check: a body that is too
//! large is cut, and when there are too many entries, or too large ones, the older half goes.
use vstd::prelude::*;

pub mod cut;
pub mod entry;
pub mod store;
pub mod capture;
pub mod traffic_laws;

verus! {

/// The name of the file that the entries are kept in.
pub const FILE_NAME: &'static str = "debug-traffic.jsonl";

/// The most bytes that the body of a request is kept with, and as many the body of an answer.
pub const MAX_ENTRY_BYTES: usize = 2097152;

/// The most entries that are kept.
pub const MAX_ENTRIES: usize = 500;

/// The most bytes that the entries are kept with when they are read.
pub const MAX_TOTAL_BYTES: usize = 67108864;

} // verus!
