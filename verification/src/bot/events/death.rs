//! Dying.
use vstd::prelude::*;

verus! {

/// What the bot says on dying: it asks to be taken home.
pub fn handle_death() -> (commands: Vec<String>)
    ensures
        commands@.len() == 1,
        commands@[0]@ == "/pw head"@,
{
    let mut commands: Vec<String> = Vec::new();
    commands.push("/pw head".to_owned());
    commands
}

} // verus!
