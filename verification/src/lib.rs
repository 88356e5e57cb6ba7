//! Core of a DNS forwarding resolver with blocklist filtering.
//!
//! Queries and resolved names are classified against blacklist/whitelist
//! policy sources; verdicts are memoized in a bounded cache; allowed queries
//! are forwarded to a DNS-over-HTTPS upstream reachable either over the
//! default route or through a tunnel interface.

pub mod authority;
pub mod blocklist;
pub mod cache;
pub mod convert;
pub mod dns;
pub mod name;
pub mod netif;
pub mod parse;
pub mod resolver;
pub mod session;
pub mod text;

use vstd::prelude::*;

verus! {

} // verus!
