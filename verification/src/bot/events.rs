pub mod chat;
pub mod death;
