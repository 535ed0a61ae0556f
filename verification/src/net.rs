use vstd::prelude::*;

use std::collections::HashMap;

verus! {

/// Marks an entity whose state the server sends to its clients.
#[derive(Debug)]
pub struct Replicated;

/// Marks an entity that a client received from the server.
#[derive(Debug)]
pub struct Remote;

/// A snapshot of the replicated entities, each component serialised, keyed
/// by the entity's id on the server.
pub struct States {
    pub well_states: HashMap<u32, String>,
    pub randomizer_states: HashMap<u32, String>,
    pub level_states: HashMap<u32, String>,
    pub game_states: HashMap<u32, String>,
    pub active_piece_states: HashMap<u32, String>,
}

} // verus!
