//! The logic of a local gateway that offers several chat providers behind one API.
use vstd::prelude::*;

pub mod text;
pub mod text_laws;
pub mod words;
pub mod order;
pub mod number;
pub mod json;
pub mod js;
pub mod account_store;
pub mod account_transfer;
pub mod transfer_laws;
pub mod protocol;
pub mod providers;
pub mod login;
pub mod login_laws;
pub mod desensitize;
pub mod model_rules;
pub mod model_seeds;
pub mod shared_rules;
pub mod rule_laws;
pub mod update;
pub mod update_laws;
pub mod api_keys;
pub mod key_laws;
pub mod routing;
pub mod routing_laws;
pub mod checkin;
pub mod debug_traffic;

verus! {

} // verus!
