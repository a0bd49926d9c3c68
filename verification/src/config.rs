//! Configuration data for the relay.
//!
//! These are plain value types; reading them from a configuration file and
//! from the environment is I/O and lives with the surrounding application.
//! Of the IRC connection settings, the library keeps only what its own
//! decisions read: the bot's own nickname.

use vstd::prelude::*;

verus! {

/// Credentials for operator authentication on networks that support
/// impersonated relay messages.
#[derive(Clone, Debug)]
pub struct IrcOzingerConfig {
    pub username: String,
    pub password: String,
}

/// The IRC side of the relay.
#[derive(Clone, Debug)]
pub struct IrcConfig {
    /// The bot's own nickname on the IRC network, when one is configured.
    pub nickname: Option<String>,
    /// The channel the relay joins and watches.
    pub channel: String,
    /// Nicknames whose messages are not relayed.
    pub ignores: Vec<String>,
    pub ozinger: Option<IrcOzingerConfig>,
    /// Relay join, part, quit and kick events to the Discord channel.
    pub bridge_member_changes: bool,
    /// Insert zero-width spaces into relayed display names so they do not
    /// trigger mention notifications.
    pub prevent_noti_by_nicknames: bool,
    /// Look up the avatar of an IRC user by searching the Discord channel
    /// for a member with the same display name.
    pub auto_detect_avatar: bool,
}

/// The Discord side of the relay.
#[derive(Clone, Debug)]
pub struct DiscordConfig {
    pub token: String,
    pub channel_id: u64,
    pub webhook_id: u64,
    pub webhook_token: String,
    /// Author names whose messages are not relayed.
    pub ignores: Vec<String>,
}

/// The whole relay configuration.
#[derive(Clone, Debug)]
pub struct Config {
    pub irc: IrcConfig,
    pub discord: DiscordConfig,
}

} // verus!
