//! Arriving in the world.
use vstd::prelude::*;

use crate::bot::bot_state::State;

verus! {

/// What the bot says on arriving in the world: it asks for the town's server
/// until it has joined the town.
pub fn handle_spawn(state: &State) -> (commands: Vec<String>)
    ensures
        commands@.len() == (if state.on_towny { 0int } else { 1int }),
        !state.on_towny ==> commands@[0]@ == "/server towny"@,
{
    let mut commands: Vec<String> = Vec::new();
    if !state.on_towny {
        commands.push("/server towny".to_owned());
    }
    commands
}

} // verus!
