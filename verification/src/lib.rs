//! Verified decision logic of the proxy's HTTP filters.
//!
//! Every module states what its filter decides over plain values; reading
//! sockets, clocks and configuration files is left to the embedding program.

use vstd::prelude::*;

pub mod access_log;
pub mod actions;
pub mod binding;
pub mod body;
pub mod circuit_breaker;
pub mod error;
pub mod forwarded_headers;
pub mod headers;
pub mod json;
pub mod json_body;
pub mod json_body_field;
pub mod json_rpc;
pub mod policy;
pub mod request_id;
pub mod router;
pub mod sorted_map;
pub mod sticky_sessions;
pub mod text;

verus! {

} // verus!
