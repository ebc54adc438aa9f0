pub mod bot;
pub mod login;
