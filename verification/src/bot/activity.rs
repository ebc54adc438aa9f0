//! What the bot is asked to do.
use vstd::prelude::*;

verus! {

/// A task for the bot.
#[derive(Debug)]
pub enum Activity {
    /// Leave the server.
    Exit,
    /// Send `message` to the player `to` by mail.
    MailSend { to: String, message: String },
    /// Say `message` in chat.
    Say { message: String },
}

} // verus!
