//! Verified core of the Trigobot Discord bot: configuration, the announcement
//! cache, feed state and the decisions taken around RSS announcements.

pub mod env;
pub mod cache;
pub mod message;
pub mod text;
pub mod feed;
pub mod announce;
pub mod state;
pub mod commands;
pub mod events;
pub mod network;
pub mod render;
