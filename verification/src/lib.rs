//! Text transforms for a chat relay between an IRC network and a Discord
//! channel.
//!
//! The heart of the crate is [`irc_to_discord::Converter`], which rewrites
//! IRC control-code formatting (bold, italic, underline, strikethrough,
//! monospace, colors) into Discord markdown, deriving a spoiler span from
//! equal foreground and background colors, escaping markdown-significant
//! characters, and leaving confirmed URLs untouched. Next to it stand the
//! nickname helpers of [`utils`], which normalize IRC nicknames and insert
//! zero-width spaces at grapheme-cluster boundaries so that relayed names do
//! not trigger mention notifications.

pub mod chars;
pub mod config;
pub mod discord;
pub mod laws;
pub mod state;
pub mod tokens;
pub mod irc;
pub mod irc_to_discord;
pub mod urls;
pub mod utils;
pub mod webhook;
