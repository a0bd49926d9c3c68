//! Decisions for events arriving from IRC.
//!
//! The surrounding application receives IRC protocol messages, hands them
//! here as plain values, and performs whatever action comes back: nothing,
//! the post-welcome authentication and join, a relayed channel message
//! through the Discord webhook, or a member-change announcement in the
//! Discord channel.

use vstd::prelude::*;
use vstd::string::{StrSliceExecFns, StringExecFns};

use crate::chars::{chars_of, str_eq, string_from_chars};
use crate::config::{DiscordConfig, IrcConfig, IrcOzingerConfig};
use crate::irc_to_discord::{Converter, convert_spec};
use crate::utils::{contains_name, name_in};

verus! {

/// One event arriving from the IRC connection, as plain values.
pub enum IrcEvent {
    /// A protocol error notice.
    Error { message: String },
    /// The welcome reply after registering.
    Welcome,
    /// A channel message from a named user.
    Privmsg { nick: String, content: String },
    /// A named user joined the channel.
    Join { nick: String },
    /// A named user left the channel.
    Part { nick: String, comment: Option<String> },
    /// A named user quit the network.
    Quit { nick: String, comment: Option<String> },
    /// A user was kicked from the channel.
    Kick { kicked: String, by: String, comment: Option<String> },
    /// Anything else.
    Other,
}

/// What the relay does in response to one IRC event.
pub enum IrcAction {
    /// Nothing to relay (at most a log line).
    Nothing,
    /// After the welcome: authenticate as operator when configured, then
    /// join the channel.
    Welcome { oper: Option<IrcOzingerConfig>, channel: String },
    /// Post a converted message through the webhook, optionally looking
    /// the author's avatar up first.
    RelayMessage { username: String, content: String, want_avatar: bool },
    /// Say an announcement in the Discord channel.
    Announce { channel_id: u64, message: String },
}

/// Whether the configured own nickname is exactly `nick`.
pub open spec fn own_nick_is(nickname: Option<String>, nick: Seq<char>) -> bool {
    match nickname {
        Some(n) => n@ == nick,
        None => false,
    }
}

/// A join by `nick` is announced when member changes are bridged, the
/// joiner is not the bot itself, and the joiner is not ignored.
pub open spec fn announces_join(irc: IrcConfig, nick: Seq<char>) -> bool {
    irc.bridge_member_changes && !own_nick_is(irc.nickname, nick) && !name_in(irc.ignores@, nick)
}

/// A part, quit or kick of `nick` is announced when member changes are
/// bridged, the affected nickname is the configured own one, and it is not
/// ignored.
pub open spec fn announces_leave(irc: IrcConfig, nick: Seq<char>) -> bool {
    irc.bridge_member_changes && own_nick_is(irc.nickname, nick) && !name_in(irc.ignores@, nick)
}

/// The parenthesized comment appended to an announcement, if one came with
/// the event.
pub open spec fn comment_suffix_spec(comment: Option<String>) -> Seq<char> {
    match comment {
        Some(c) => (" (`")@ + c@ + ("`)")@,
        None => Seq::empty(),
    }
}

pub open spec fn join_announcement_spec(nick: Seq<char>) -> Seq<char> {
    ("**")@ + nick + ("** has joined the channel.")@
}

pub open spec fn left_announcement_spec(nick: Seq<char>, comment: Option<String>) -> Seq<char> {
    ("**")@ + nick + ("** has left the channel.")@ + comment_suffix_spec(comment)
}

pub open spec fn kick_announcement_spec(
    kicked: Seq<char>,
    by: Seq<char>,
    comment: Option<String>,
) -> Seq<char> {
    ("**")@ + kicked + ("** has been kicked by **")@ + by + ("**.")@ + comment_suffix_spec(comment)
}

fn append_str(out: &mut Vec<char>, s: &str)
    ensures
        final(out)@ == old(out)@ + s@,
{
    let mut part = chars_of(s);
    out.append(&mut part);
}

fn append_comment_suffix(out: &mut Vec<char>, comment: &Option<String>)
    ensures
        final(out)@ == old(out)@ + comment_suffix_spec(*comment),
{
    match comment {
        Some(c) => {
            append_str(out, " (`");
            append_str(out, c.as_str());
            append_str(out, "`)");
            proof {
                assert(out@ =~= old(out)@ + comment_suffix_spec(*comment));
            }
        },
        None => {
            proof {
                assert(out@ =~= old(out)@ + comment_suffix_spec(*comment));
            }
        },
    }
}

/// Builds the announcement for a join.
pub fn join_announcement(nick: &str) -> (r: String)
    ensures
        r@ == join_announcement_spec(nick@),
{
    let mut out = chars_of("**");
    append_str(&mut out, nick);
    append_str(&mut out, "** has joined the channel.");
    string_from_chars(&out)
}

/// Builds the announcement for a part or quit.
pub fn left_announcement(nick: &str, comment: &Option<String>) -> (r: String)
    ensures
        r@ == left_announcement_spec(nick@, *comment),
{
    let mut out = chars_of("**");
    append_str(&mut out, nick);
    append_str(&mut out, "** has left the channel.");
    append_comment_suffix(&mut out, comment);
    string_from_chars(&out)
}

/// Builds the announcement for a kick.
pub fn kick_announcement(kicked: &str, by: &str, comment: &Option<String>) -> (r: String)
    ensures
        r@ == kick_announcement_spec(kicked@, by@, *comment),
{
    let mut out = chars_of("**");
    append_str(&mut out, kicked);
    append_str(&mut out, "** has been kicked by **");
    append_str(&mut out, by);
    append_str(&mut out, "**.");
    append_comment_suffix(&mut out, comment);
    string_from_chars(&out)
}

fn own_nick_matches(nickname: &Option<String>, nick: &str) -> (r: bool)
    ensures
        r == own_nick_is(*nickname, nick@),
{
    match nickname {
        Some(n) => str_eq(n.as_str(), nick),
        None => false,
    }
}

fn clone_ozinger(o: &Option<IrcOzingerConfig>) -> (r: Option<IrcOzingerConfig>)
    ensures
        r == *o,
{
    match o {
        Some(c) => Some(
            IrcOzingerConfig { username: c.username.clone(), password: c.password.clone() },
        ),
        None => None,
    }
}

/// Decides what one IRC event becomes: nothing for errors, ignored or
/// unnamed senders and unbridged member changes; the authentication and
/// join after the welcome; a converted, webhook-posted message for channel
/// text; an announcement for bridged member changes.
pub fn plan_irc_event(event: &IrcEvent, irc: &IrcConfig, discord: &DiscordConfig) -> (r: IrcAction)
    ensures
        match event {
            IrcEvent::Error { .. } => r is Nothing,
            IrcEvent::Welcome => {
                &&& r matches IrcAction::Welcome { oper, channel }
                &&& oper == irc.ozinger
                &&& channel@ == irc.channel@
            },
            IrcEvent::Privmsg { nick, content } => {
                if name_in(irc.ignores@, nick@) {
                    r is Nothing
                } else {
                    &&& r matches IrcAction::RelayMessage { username, content: c, want_avatar }
                    &&& username@ == nick@
                    &&& c@ == convert_spec(content@)
                    &&& want_avatar == irc.auto_detect_avatar
                }
            },
            IrcEvent::Join { nick } => {
                if announces_join(*irc, nick@) {
                    &&& r matches IrcAction::Announce { channel_id, message }
                    &&& channel_id == discord.channel_id
                    &&& message@ == join_announcement_spec(nick@)
                } else {
                    r is Nothing
                }
            },
            IrcEvent::Part { nick, comment } => {
                if announces_leave(*irc, nick@) {
                    &&& r matches IrcAction::Announce { channel_id, message }
                    &&& channel_id == discord.channel_id
                    &&& message@ == left_announcement_spec(nick@, *comment)
                } else {
                    r is Nothing
                }
            },
            IrcEvent::Quit { nick, comment } => {
                if announces_leave(*irc, nick@) {
                    &&& r matches IrcAction::Announce { channel_id, message }
                    &&& channel_id == discord.channel_id
                    &&& message@ == left_announcement_spec(nick@, *comment)
                } else {
                    r is Nothing
                }
            },
            IrcEvent::Kick { kicked, by, comment } => {
                if announces_leave(*irc, kicked@) {
                    &&& r matches IrcAction::Announce { channel_id, message }
                    &&& channel_id == discord.channel_id
                    &&& message@ == kick_announcement_spec(kicked@, by@, *comment)
                } else {
                    r is Nothing
                }
            },
            IrcEvent::Other => r is Nothing,
        },
{
    match event {
        IrcEvent::Error { .. } => IrcAction::Nothing,
        IrcEvent::Welcome => IrcAction::Welcome {
            oper: clone_ozinger(&irc.ozinger),
            channel: irc.channel.clone(),
        },
        IrcEvent::Privmsg { nick, content } => {
            if contains_name(&irc.ignores, nick.as_str()) {
                IrcAction::Nothing
            } else {
                IrcAction::RelayMessage {
                    username: nick.clone(),
                    content: Converter::convert(content.as_str()),
                    want_avatar: irc.auto_detect_avatar,
                }
            }
        },
        IrcEvent::Join { nick } => {
            if irc.bridge_member_changes && !own_nick_matches(&irc.nickname, nick.as_str())
                && !contains_name(&irc.ignores, nick.as_str()) {
                IrcAction::Announce {
                    channel_id: discord.channel_id,
                    message: join_announcement(nick.as_str()),
                }
            } else {
                IrcAction::Nothing
            }
        },
        IrcEvent::Part { nick, comment } => {
            if irc.bridge_member_changes && own_nick_matches(&irc.nickname, nick.as_str())
                && !contains_name(&irc.ignores, nick.as_str()) {
                IrcAction::Announce {
                    channel_id: discord.channel_id,
                    message: left_announcement(nick.as_str(), comment),
                }
            } else {
                IrcAction::Nothing
            }
        },
        IrcEvent::Quit { nick, comment } => {
            if irc.bridge_member_changes && own_nick_matches(&irc.nickname, nick.as_str())
                && !contains_name(&irc.ignores, nick.as_str()) {
                IrcAction::Announce {
                    channel_id: discord.channel_id,
                    message: left_announcement(nick.as_str(), comment),
                }
            } else {
                IrcAction::Nothing
            }
        },
        IrcEvent::Kick { kicked, by, comment } => {
            if irc.bridge_member_changes && own_nick_matches(&irc.nickname, kicked.as_str())
                && !contains_name(&irc.ignores, kicked.as_str()) {
                IrcAction::Announce {
                    channel_id: discord.channel_id,
                    message: kick_announcement(kicked.as_str(), by.as_str(), comment),
                }
            } else {
                IrcAction::Nothing
            }
        },
        IrcEvent::Other => IrcAction::Nothing,
    }
}

/// The first member whose display name is exactly `target`: the avatar
/// lookup picks that member's face.
pub fn find_member_by_name(display_names: &Vec<String>, target: &str) -> (r: Option<usize>)
    ensures
        match r {
            Some(i) => i < display_names@.len() && display_names@[i as int]@ == target@
                && forall|j: int| 0 <= j < i ==> display_names@[j]@ != target@,
            None => forall|j: int| 0 <= j < display_names@.len() ==> display_names@[j]@ != target@,
        },
{
    let n = display_names.len();
    let mut i: usize = 0;
    while i < n
        invariant
            i <= n == display_names@.len(),
            forall|j: int| 0 <= j < i ==> display_names@[j]@ != target@,
        decreases n - i,
    {
        if str_eq(display_names[i].as_str(), target) {
            return Some(i);
        }
        i = i + 1;
    }
    None
}

} // verus!
