//! A bridge between line-oriented chat networks and a relay platform: the
//! protocol client's framing, parsing and routing rules.

pub mod codec;
pub mod config;
pub mod delivery;
pub mod discord;
pub mod error;
pub mod irc;
pub mod listener;
pub mod message;
pub mod number;
pub mod outside;
pub mod parse;
pub mod routing;
pub mod text;
pub mod trim;
