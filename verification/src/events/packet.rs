//! Game packets.
use vstd::prelude::*;

use crate::bot::bot_state::State;

verus! {

/// What the bot says on a game packet: nothing.
pub fn handle_packet(state: &State) -> (commands: Vec<String>)
    ensures
        commands@.len() == 0,
{
    Vec::new()
}

} // verus!
