//! Process configuration handed to the dispatcher by whoever starts it.

use vstd::prelude::*;

verus! {

/// Configuration for one dispatcher process: the port range that backend game
/// servers are expected to listen on, and how many players one game holds.
#[derive(Clone, Copy, PartialEq, Eq, Structural, Debug)]
pub struct ServerArgs {
    pub port_start: u16,
    pub port_end: u16,
    pub players_per_game: usize,
}

impl Default for ServerArgs {
    /// The stock configuration: ports 42069..=43069, 100 players per game.
    fn default() -> (r: Self)
        ensures
            r.port_start == 42069,
            r.port_end == 43069,
            r.players_per_game == 100,
    {
        ServerArgs { port_start: 42069, port_end: 43069, players_per_game: 100 }
    }
}

} // verus!
