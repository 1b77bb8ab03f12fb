//! Matchmaking dispatcher core for a multiplayer game: a registry of backend
//! game servers with their reported load, a deterministic capacity-based
//! selector, and a join coordinator that deduplicates requests by player
//! identity and reserves capacity against races.

pub mod args;
pub mod coordinator;
pub mod ident;
pub mod link;
pub mod registry;
pub mod report;
pub mod selector;

use vstd::prelude::*;

verus! {

/// Protocol version this dispatcher speaks; clients must declare the same.
pub const VERSION: u32 = 1;

} // verus!
