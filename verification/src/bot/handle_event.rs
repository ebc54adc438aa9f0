//! Dispatching what happens to the bot in the world.
use vstd::prelude::*;

use crate::bot::bot_state::State;
use crate::bot::events::chat::{
    handle_chat, opt_view, spec_chat_outcome, string_views, ChatError,
};
use crate::bot::events::death::handle_death;
use crate::events::packet::handle_packet;
use crate::events::spawn::handle_spawn;

verus! {

/// What happens to the bot in the world.
pub enum BotEvent {
    /// It arrives in the world.
    Spawn,
    /// A game packet arrives.
    Packet,
    /// A chat line arrives, as plain text.
    Chat(String),
    /// It dies.
    Death,
    /// Anything else.
    Other,
}

/// What the bot does on an event: whether it leaves the server now, the
/// commands it sends, in order, and whether the event could be handled.
pub struct EventReaction {
    pub disconnect: bool,
    pub commands: Vec<String>,
    pub result: Result<(), ChatError>,
}

/// Whether the bot leaves on this event: it was asked to, and has not left yet.
pub open spec fn spec_disconnects(shutdown_signal: bool, shutdown_signal_sent: bool) -> bool {
    shutdown_signal && !shutdown_signal_sent
}

/// The bot leaves once only: once it has left on an event, no later event
/// makes it leave again, whatever it is asked.
pub proof fn law_leaves_once(shutdown_signal_sent: bool, first_signal: bool, later_signal: bool)
    requires
        spec_disconnects(first_signal, shutdown_signal_sent),
    ensures
        !spec_disconnects(
            later_signal,
            shutdown_signal_sent || spec_disconnects(first_signal, shutdown_signal_sent),
        ),
{
}

/// Handles an event. Once asked to leave, the bot leaves on the next event
/// and handles nothing more; it leaves once only.
pub fn handle_event(
    event: &BotEvent,
    state: &mut State,
    shutdown_signal: bool,
    sudo_player: &Option<String>,
    tab_names: &Vec<String>,
) -> (r: EventReaction)
    ensures
        r.disconnect == spec_disconnects(shutdown_signal, old(state).shutdown_signal_sent),
        final(state).shutdown_signal_sent == (old(state).shutdown_signal_sent || r.disconnect),
        final(state).knows_at_least(old(state)),
        r.disconnect ==> {
            &&& r.commands@.len() == 0
            &&& r.result is Ok
            &&& final(state).same_town(old(state))
            &&& final(state).on_towny == old(state).on_towny
        },
        !r.disconnect ==> match event {
            BotEvent::Chat(m) => spec_chat_outcome(
                old(state),
                final(state),
                m@,
                opt_view(*sudo_player),
                string_views(tab_names@),
                string_views(r.commands@),
                r.result,
            ),
            BotEvent::Spawn => {
                &&& *final(state) == *old(state)
                &&& r.result is Ok
                &&& string_views(r.commands@) == (if old(state).on_towny {
                    Seq::<Seq<char>>::empty()
                } else {
                    seq!["/server towny"@]
                })
            },
            BotEvent::Death => {
                &&& *final(state) == *old(state)
                &&& r.result is Ok
                &&& string_views(r.commands@) == seq!["/pw head"@]
            },
            _ => {
                &&& *final(state) == *old(state)
                &&& r.result is Ok
                &&& r.commands@.len() == 0
            },
        },
{
    if shutdown_signal && !state.shutdown_signal_sent {
        state.shutdown_signal_sent = true;
        return EventReaction { disconnect: true, commands: Vec::new(), result: Ok(()) };
    }
    match event {
        BotEvent::Spawn => {
            let commands = handle_spawn(state);
            proof {
                if old(state).on_towny {
                    assert(string_views(commands@) =~= Seq::<Seq<char>>::empty());
                } else {
                    assert(string_views(commands@) =~= seq!["/server towny"@]);
                }
            }
            EventReaction { disconnect: false, commands, result: Ok(()) }
        },
        BotEvent::Packet => {
            let commands = handle_packet(state);
            EventReaction { disconnect: false, commands, result: Ok(()) }
        },
        BotEvent::Chat(message) => {
            let reaction = handle_chat(state, message.as_str(), sudo_player, tab_names);
            EventReaction { disconnect: false, commands: reaction.commands, result: reaction.result }
        },
        BotEvent::Death => {
            let commands = handle_death();
            assert(string_views(commands@) =~= seq!["/pw head"@]);
            EventReaction { disconnect: false, commands, result: Ok(()) }
        },
        BotEvent::Other => EventReaction { disconnect: false, commands: Vec::new(), result: Ok(()) },
    }
}

} // verus!
