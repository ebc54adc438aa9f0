//! What the bot's controller shares with the running bot.
use vstd::prelude::*;

use std::collections::VecDeque;

use crate::bot::activity::Activity;

verus! {

/// The state that the controller and the running bot share: whether the bot
/// is to leave, the tasks waiting for it, the commands it sends on arrival and
/// the command it sends on dying.
pub struct SharedState {
    pub shutdown_signal: bool,
    pub activity_list: VecDeque<Activity>,
    pub startup_commands: Vec<String>,
    pub auto_respawn: Option<String>,
}

impl SharedState {
    /// Nothing asked of the bot yet.
    pub fn new() -> (s: SharedState)
        ensures
            !s.shutdown_signal,
            s.activity_list@.len() == 0,
            s.startup_commands@.len() == 0,
            s.auto_respawn is None,
    {
        SharedState {
            shutdown_signal: false,
            activity_list: VecDeque::new(),
            startup_commands: Vec::new(),
            auto_respawn: None,
        }
    }

    /// Replaces the waiting tasks.
    pub fn set_activity(&mut self, activity_list: VecDeque<Activity>)
        ensures
            final(self).activity_list == activity_list,
            final(self).shutdown_signal == old(self).shutdown_signal,
            final(self).startup_commands == old(self).startup_commands,
            final(self).auto_respawn == old(self).auto_respawn,
    {
        self.activity_list = activity_list;
    }

    /// Replaces the commands sent on arrival.
    pub fn set_startup_commands(&mut self, startup_commands: Vec<String>)
        ensures
            final(self).startup_commands == startup_commands,
            final(self).shutdown_signal == old(self).shutdown_signal,
            final(self).activity_list == old(self).activity_list,
            final(self).auto_respawn == old(self).auto_respawn,
    {
        self.startup_commands = startup_commands;
    }

    /// Sets the command sent on dying.
    pub fn set_auto_respawn(&mut self, auto_respawn: String)
        ensures
            final(self).auto_respawn == Some(auto_respawn),
            final(self).shutdown_signal == old(self).shutdown_signal,
            final(self).activity_list == old(self).activity_list,
            final(self).startup_commands == old(self).startup_commands,
    {
        self.auto_respawn = Some(auto_respawn);
    }

    /// `self` with its waiting tasks replaced.
    pub fn with_activity(self, activity_list: VecDeque<Activity>) -> (s: SharedState)
        ensures
            s.activity_list == activity_list,
            s.shutdown_signal == self.shutdown_signal,
            s.startup_commands == self.startup_commands,
            s.auto_respawn == self.auto_respawn,
    {
        let mut s = self;
        s.set_activity(activity_list);
        s
    }

    /// `self` with its commands on arrival replaced.
    pub fn with_startup_commands(self, startup_commands: Vec<String>) -> (s: SharedState)
        ensures
            s.startup_commands == startup_commands,
            s.shutdown_signal == self.shutdown_signal,
            s.activity_list == self.activity_list,
            s.auto_respawn == self.auto_respawn,
    {
        let mut s = self;
        s.set_startup_commands(startup_commands);
        s
    }

    /// `self` with its command on dying set.
    pub fn with_auto_respawn(self, auto_respawn: String) -> (s: SharedState)
        ensures
            s.auto_respawn == Some(auto_respawn),
            s.shutdown_signal == self.shutdown_signal,
            s.activity_list == self.activity_list,
            s.startup_commands == self.startup_commands,
    {
        let mut s = self;
        s.set_auto_respawn(auto_respawn);
        s
    }

    /// Asks the running bot to leave.
    pub fn request_shutdown(&mut self)
        ensures
            final(self).shutdown_signal,
            final(self).activity_list == old(self).activity_list,
            final(self).startup_commands == old(self).startup_commands,
            final(self).auto_respawn == old(self).auto_respawn,
    {
        self.shutdown_signal = true;
    }

    /// Queues a task behind those already waiting.
    pub fn add_activity(&mut self, activity: Activity)
        ensures
            final(self).activity_list@ == old(self).activity_list@.push(activity),
            final(self).shutdown_signal == old(self).shutdown_signal,
            final(self).startup_commands == old(self).startup_commands,
            final(self).auto_respawn == old(self).auto_respawn,
    {
        self.activity_list.push_back(activity);
    }
}

} // verus!
