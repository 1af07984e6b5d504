//! The rules of a chat bot that follows Riftbound tournaments.
//!
//! The crate decides which addresses of the tournament service to ask, how replies are cached
//! and collected page by page, which round counts as the latest complete one, and what the bot
//! answers.  Talking to the network, to the chat and to the disk is left to the application.
#![allow(unused_imports)]

pub mod cache;
pub mod channels;
pub mod journey;
pub mod link;
pub mod model;
pub mod pagination;
pub mod standings;
pub mod table;
pub mod text;
pub mod urls;
