use std::collections::VecDeque;

use towny_bot::api::handler::bot::{bot_say_handler, bot_stop_handler, BotSayInput};
use towny_bot::bot::activity::Activity;
use towny_bot::bot::bot_controller::SharedState;
use towny_bot::bot::bot_state::State;
use towny_bot::bot::events::chat::ChatError;
use towny_bot::bot::events::death::handle_death;
use towny_bot::bot::handle_event::{handle_event, BotEvent};
use towny_bot::text::IntErrorKind;

#[test]
fn the_bot_leaves_once() {
    let mut state = State::new();
    let first = handle_event(&BotEvent::Spawn, &mut state, true, &None, &vec![]);
    assert!(first.disconnect);
    assert!(first.commands.is_empty());
    assert!(state.shutdown_signal_sent);
    let second = handle_event(&BotEvent::Spawn, &mut state, true, &None, &vec![]);
    assert!(!second.disconnect);
    assert_eq!(second.commands, vec!["/server towny"]);
}

#[test]
fn events_are_dispatched() {
    let mut state = State::new();
    let death = handle_event(&BotEvent::Death, &mut state, false, &None, &vec![]);
    assert_eq!(death.commands, vec!["/pw head"]);
    assert_eq!(handle_death(), vec!["/pw head"]);
    let packet = handle_event(&BotEvent::Packet, &mut state, false, &None, &vec![]);
    assert!(packet.commands.is_empty());
    let other = handle_event(&BotEvent::Other, &mut state, false, &None, &vec![]);
    assert!(other.commands.is_empty() && other.result.is_ok());
    let chat = handle_event(
        &BotEvent::Chat("Residents [x]: Bob".to_string()),
        &mut state,
        false,
        &None,
        &vec![],
    );
    assert_eq!(chat.result, Err(ChatError::InvalidCount(IntErrorKind::InvalidDigit)));
    let greet = handle_event(
        &BotEvent::Chat("[+] Lestallum".to_string()),
        &mut state,
        false,
        &None,
        &vec![],
    );
    assert_eq!(greet.commands.len(), 5);
    assert!(state.on_towny);
    let spawn = handle_event(&BotEvent::Spawn, &mut state, false, &None, &vec![]);
    assert!(spawn.commands.is_empty());
}

#[test]
fn shared_state_builders_set_one_field() {
    let s = SharedState::new()
        .with_activity(VecDeque::from([Activity::Say { message: "hi".to_string() }]))
        .with_startup_commands(vec!["/pvp on".to_string()])
        .with_auto_respawn("/pw head".to_string());
    assert!(!s.shutdown_signal);
    assert_eq!(s.activity_list.len(), 1);
    assert_eq!(s.startup_commands, vec!["/pvp on"]);
    assert_eq!(s.auto_respawn, Some("/pw head".to_string()));
}

#[test]
fn say_queues_behind_waiting_tasks() {
    let mut s = SharedState::new();
    s.add_activity(Activity::Exit);
    let reply = bot_say_handler(&mut s, &BotSayInput::new("hello".to_string()));
    assert_eq!(reply, "Saying \"hello\"");
    assert_eq!(s.activity_list.len(), 2);
    assert!(matches!(s.activity_list[0], Activity::Exit));
    assert!(matches!(&s.activity_list[1], Activity::Say { message } if message == "hello"));
}

#[test]
fn stop_raises_the_shutdown_signal() {
    let mut s = SharedState::new();
    assert_eq!(bot_stop_handler(&mut s), "Bot stopped.");
    assert!(s.shutdown_signal);
}
