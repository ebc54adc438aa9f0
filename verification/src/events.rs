pub mod chat;
pub mod packet;
pub mod spawn;
