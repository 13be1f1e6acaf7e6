//! Decision logic of a service that watches Discord voice channels and announces
//! streams and calls on Mastodon.
pub mod activity;
pub mod avatars;
pub mod card;
pub mod codec;
pub mod config;
pub mod digest;
pub mod discord;
pub mod engine;
pub mod gateway;
pub mod http;
pub mod json;
pub mod keys;
pub mod laws;
pub mod link_titles;
pub mod mastodon;
pub mod notation;
pub mod number;
pub mod portraits;
pub mod sharing;
pub mod store;
pub mod survey;
pub mod table;
pub mod targets;
pub mod text;
pub mod time;
pub mod url;
pub mod visit;
