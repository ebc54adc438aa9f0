//! Telling the bot what to do.
use vstd::prelude::*;

use crate::bot::activity::Activity;
use crate::bot::bot_controller::SharedState;
use crate::text::{chars_of, concat_chars, string_of};

verus! {

/// A request that the bot say something.
pub struct BotSayInput {
    message: String,
}

impl BotSayInput {
    /// A request that the bot say `message`.
    pub fn new(message: String) -> (r: BotSayInput)
        ensures
            r.message() == message,
    {
        BotSayInput { message }
    }

    /// What the bot is asked to say.
    pub closed spec fn message(&self) -> String {
        self.message
    }
}

/// The reply to a request that the bot say `message`.
pub open spec fn say_reply(message: Seq<char>) -> Seq<char> {
    "Saying \""@ + message + "\""@
}

/// Queues the request that the bot say something, behind the tasks already
/// waiting, and gives back the reply.
pub fn bot_say_handler(shared: &mut SharedState, body: &BotSayInput) -> (reply: String)
    ensures
        final(shared).activity_list@ == old(shared).activity_list@.push(
            Activity::Say { message: body.message() },
        ),
        final(shared).shutdown_signal == old(shared).shutdown_signal,
        final(shared).startup_commands == old(shared).startup_commands,
        final(shared).auto_respawn == old(shared).auto_respawn,
        reply@ == say_reply(body.message()@),
{
    shared.add_activity(Activity::Say { message: body.message.clone() });
    let head = concat_chars(&chars_of("Saying \""), &chars_of(body.message.as_str()));
    let line = concat_chars(&head, &chars_of("\""));
    string_of(&line)
}

/// Asks the running bot to leave, and gives back the reply.
pub fn bot_stop_handler(shared: &mut SharedState) -> (reply: String)
    ensures
        final(shared).shutdown_signal,
        final(shared).activity_list == old(shared).activity_list,
        final(shared).startup_commands == old(shared).startup_commands,
        final(shared).auto_respawn == old(shared).auto_respawn,
        reply@ == "Bot stopped."@,
{
    shared.request_shutdown();
    "Bot stopped.".to_owned()
}

} // verus!
