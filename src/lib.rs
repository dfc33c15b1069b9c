//! Lobbies and game state of a multiplayer snake server: connections gather in named
//! lobbies, vote to start, and then play on a shared field that advances tick by tick.

use vstd::prelude::*;

pub mod con_map;
pub mod conf;
pub mod hub;
pub mod lobbies;
pub mod lobby;
pub mod state;
pub mod usernames;
pub mod world;

verus! {

} // verus!
