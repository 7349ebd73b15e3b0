//! The account file: its records, the one global queue of priorities, and every operation on it.
//!
//! Two things hold throughout. A record keeps every field that an operation does not name, so
//! that fields this version does not know survive. And priorities are unique over the whole
//! queue: what would make two accounts share one is refused.
pub mod priority;
pub mod state;
pub mod store;
pub mod store_crud;
pub mod store_admin;
pub mod record_laws;
pub mod queue_laws;
pub mod store_laws;

use vstd::prelude::*;

verus! {

/// How many accounts the file may hold.
pub const MAX_ACCOUNTS: usize = 20;

/// How many characters a token may have.
pub const MAX_TOKEN_LENGTH: usize = 8192;

/// The provider of a record that names none.
pub open spec fn default_provider() -> Seq<char> {
    "workbuddy"@
}

} // verus!
