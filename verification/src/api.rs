pub mod claims;
pub mod handler;
pub mod middleware;
