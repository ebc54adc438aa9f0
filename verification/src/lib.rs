pub mod api;
pub mod app_config;
pub mod bot;
pub mod events;
pub mod mojang;
pub mod names;
pub mod text;
