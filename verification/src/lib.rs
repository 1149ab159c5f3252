pub mod auth;
pub mod cache;
pub mod client;
pub mod config;
pub mod json;
pub mod lyrics;
pub mod models;
pub mod playback;
pub mod player;
pub mod text;
