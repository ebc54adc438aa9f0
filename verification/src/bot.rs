pub mod activity;
pub mod bot_controller;
pub mod bot_state;
pub mod events;
pub mod handle_event;
