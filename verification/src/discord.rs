//! Decisions for messages arriving from Discord.
//!
//! A Discord message is relayed to IRC line by line. The surrounding
//! application receives the events and performs the sends; this module
//! holds the decisions and the text they produce: whether a message is
//! relayed at all, how its body is split into lines, and the exact IRC
//! command each line becomes — an impersonated `FAKEMSG` when operator
//! relay is configured, an ordinary `PRIVMSG` otherwise.

use vstd::prelude::*;
use vstd::string::{StrSliceExecFns, StringExecFns};

use crate::chars::{chars_of, copy_range, string_from_chars};
use crate::config::{DiscordConfig, IrcConfig};
use crate::utils::{
    grapheme_clusters, insert_seps_spec, insert_zero_width_spaces_into_nickname, name_in,
    contains_name, normalize_char, normalize_irc_nickname,
};

verus! {

/// The position of the first newline at or after `i`, or the end.
pub open spec fn next_newline(s: Seq<char>, i: int) -> int
    decreases s.len() - i,
{
    if 0 <= i < s.len() {
        if s[i] == '\n' {
            i
        } else {
            next_newline(s, i + 1)
        }
    } else {
        s.len() as int
    }
}

/// The lines of `s` from position `i` on, split at newlines: one more line
/// than there are newlines, so a trailing newline yields a final empty
/// line.
pub open spec fn lines_from(s: Seq<char>, i: int) -> Seq<Seq<char>>
    decreases s.len() - i,
{
    let j = next_newline(s, i);
    if 0 <= i <= j && j < s.len() {
        seq![s.subrange(i, j)] + lines_from(s, j + 1)
    } else {
        seq![s.subrange(i, s.len() as int)]
    }
}

proof fn lemma_next_newline_is(s: Seq<char>, i: int, j: int)
    requires
        0 <= i <= j <= s.len(),
        forall|k: int| i <= k < j ==> s[k] != '\n',
        j < s.len() ==> s[j] == '\n',
    ensures
        next_newline(s, i) == if j < s.len() {
            j
        } else {
            s.len() as int
        },
    decreases j - i,
{
    if i < j {
        lemma_next_newline_is(s, i + 1, j);
    }
}

/// Splits a message body into its lines, as `split('\n')` does: without
/// the newlines, keeping empty lines.
pub fn split_lines(s: &str) -> (r: Vec<String>)
    ensures
        r@.map_values(|t: String| t@) == lines_from(s@, 0),
{
    let chars = chars_of(s);
    let n = chars.len();
    let mut r: Vec<String> = Vec::new();
    let mut start: usize = 0;
    let mut i: usize = 0;
    proof {
        assert(r@.map_values(|t: String| t@) + lines_from(s@, 0) =~= lines_from(s@, 0));
    }
    while i < n
        invariant
            start <= i <= n == chars@.len(),
            chars@ == s@,
            forall|k: int| start <= k < i ==> s@[k] != '\n',
            lines_from(s@, 0) == r@.map_values(|t: String| t@) + lines_from(s@, start as int),
        decreases n - i,
    {
        if chars[i] == '\n' {
            let piece = copy_range(&chars, start, i);
            let line = string_from_chars(&piece);
            let ghost old_views = r@.map_values(|t: String| t@);
            r.push(line);
            proof {
                lemma_next_newline_is(s@, start as int, i as int);
                assert(lines_from(s@, start as int) == seq![s@.subrange(start as int, i as int)]
                    + lines_from(s@, i + 1));
                assert(r@.map_values(|t: String| t@) =~= old_views + seq![line@]);
                assert(old_views + (seq![s@.subrange(start as int, i as int)] + lines_from(
                    s@,
                    i + 1,
                )) =~= (old_views + seq![line@]) + lines_from(s@, i + 1));
            }
            start = i + 1;
            i = i + 1;
        } else {
            i = i + 1;
        }
    }
    let piece = copy_range(&chars, start, n);
    let line = string_from_chars(&piece);
    let ghost old_views = r@.map_values(|t: String| t@);
    r.push(line);
    proof {
        lemma_next_newline_is(s@, start as int, n as int);
        assert(lines_from(s@, start as int) == seq![s@.subrange(start as int, n as int)]);
        assert(r@.map_values(|t: String| t@) =~= old_views + seq![line@]);
        assert(old_views + seq![s@.subrange(start as int, n as int)] =~= r@.map_values(
            |t: String| t@,
        ));
    }
    r
}

/// The lowercase hexadecimal digit for a value below sixteen.
pub open spec fn hex_digit(d: int) -> char {
    if d == 0 {
        '0'
    } else if d == 1 {
        '1'
    } else if d == 2 {
        '2'
    } else if d == 3 {
        '3'
    } else if d == 4 {
        '4'
    } else if d == 5 {
        '5'
    } else if d == 6 {
        '6'
    } else if d == 7 {
        '7'
    } else if d == 8 {
        '8'
    } else if d == 9 {
        '9'
    } else if d == 10 {
        'a'
    } else if d == 11 {
        'b'
    } else if d == 12 {
        'c'
    } else if d == 13 {
        'd'
    } else if d == 14 {
        'e'
    } else if d == 15 {
        'f'
    } else {
        '0'
    }
}

/// The lowercase hexadecimal digits of `n`, most significant first, with
/// no leading zeros (a single `0` for zero itself).
pub open spec fn hex_of(n: int) -> Seq<char>
    decreases n,
{
    if n < 16 {
        seq![hex_digit(n)]
    } else {
        hex_of(n / 16) + seq![hex_digit(n % 16)]
    }
}

fn hex_digit_char(d: u64) -> (c: char)
    requires
        d < 16,
    ensures
        c == hex_digit(d as int),
{
    match d {
        0 => '0',
        1 => '1',
        2 => '2',
        3 => '3',
        4 => '4',
        5 => '5',
        6 => '6',
        7 => '7',
        8 => '8',
        9 => '9',
        10 => 'a',
        11 => 'b',
        12 => 'c',
        13 => 'd',
        14 => 'e',
        _ => 'f',
    }
}

/// Appends the lowercase hexadecimal digits of `id`.
fn push_hex(id: u64, out: &mut Vec<char>)
    ensures
        final(out)@ == old(out)@ + hex_of(id as int),
    decreases id,
{
    if id < 16 {
        out.push(hex_digit_char(id));
        proof {
            assert(out@ =~= old(out)@ + hex_of(id as int));
        }
    } else {
        proof {
            assert(id / 16 < id) by (nonlinear_arith)
                requires
                    id >= 16,
            ;
        }
        push_hex(id / 16, out);
        out.push(hex_digit_char(id % 16));
        proof {
            assert(out@ =~= old(out)@ + hex_of(id as int));
        }
    }
}

/// The source field of an impersonated relay message: the normalized
/// nickname, a fullwidth at-sign marker, the author's id in hexadecimal,
/// and the relay's host tag.
pub open spec fn fakemsg_source_spec(name: Seq<char>, id: u64) -> Seq<char> {
    name.map_values(|c: char| normalize_char(c)) + ("\u{FF20}d!")@ + hex_of(id as int) + (
    "@pbzweihander/discord-irc-rs")@
}

/// Builds the source field of an impersonated relay message.
pub fn fakemsg_source(name: &str, id: u64) -> (r: String)
    ensures
        r@ == fakemsg_source_spec(name@, id),
{
    let normalized = normalize_irc_nickname(name);
    let mut out = chars_of(normalized.as_str());
    let mut marker_part = chars_of("\u{FF20}d!");
    out.append(&mut marker_part);
    push_hex(id, &mut out);
    let mut tag = chars_of("@pbzweihander/discord-irc-rs");
    out.append(&mut tag);
    string_from_chars(&out)
}

/// How a relayed line reads in an ordinary channel message.
pub open spec fn privmsg_line_spec(display_name: Seq<char>, line: Seq<char>) -> Seq<char> {
    ("<")@ + display_name + ("> ")@ + line
}

/// Builds one ordinary channel message line.
pub fn privmsg_line(display_name: &str, line: &str) -> (r: String)
    ensures
        r@ == privmsg_line_spec(display_name@, line@),
{
    let mut out = chars_of("<");
    let mut name_part = chars_of(display_name);
    out.append(&mut name_part);
    let mut sep = chars_of("> ");
    out.append(&mut sep);
    let mut line_part = chars_of(line);
    out.append(&mut line_part);
    string_from_chars(&out)
}

/// The display name a message is relayed under: the author's name, with
/// zero-width spaces inserted when mention prevention is configured.
pub open spec fn display_name_spec(name: Seq<char>, prevent_noti: bool) -> Seq<char> {
    if prevent_noti {
        insert_seps_spec(grapheme_clusters(name))
    } else {
        name
    }
}

/// One IRC command to send for one relayed line.
pub enum OutboundIrcCommand {
    /// An impersonated message, available when operator relay is
    /// configured.
    Fakemsg { source: String, channel: String, line: String },
    /// An ordinary channel message.
    Privmsg { channel: String, line: String },
}

/// What the command for one relayed line must hold.
pub open spec fn line_command_matches(
    c: OutboundIrcCommand,
    line: Seq<char>,
    name: Seq<char>,
    id: u64,
    irc: IrcConfig,
) -> bool {
    if irc.ozinger is Some {
        &&& c matches OutboundIrcCommand::Fakemsg { source, channel, line: l }
        &&& source@ == fakemsg_source_spec(name, id)
        &&& channel@ == irc.channel@
        &&& l@ == line
    } else {
        &&& c matches OutboundIrcCommand::Privmsg { channel, line: l }
        &&& channel@ == irc.channel@
        &&& l@ == privmsg_line_spec(display_name_spec(name, irc.prevent_noti_by_nicknames), line)
    }
}

/// The command for one relayed line.
pub fn outbound_command(line: &str, display_name: &str, author_name: &str, author_id: u64, irc: &IrcConfig) -> (r:
    OutboundIrcCommand)
    requires
        display_name@ == display_name_spec(author_name@, irc.prevent_noti_by_nicknames),
    ensures
        line_command_matches(r, line@, author_name@, author_id, *irc),
{
    match &irc.ozinger {
        Some(_) => OutboundIrcCommand::Fakemsg {
            source: fakemsg_source(author_name, author_id),
            channel: irc.channel.clone(),
            line: String::from_str(line),
        },
        None => OutboundIrcCommand::Privmsg {
            channel: irc.channel.clone(),
            line: privmsg_line(display_name, line),
        },
    }
}

/// What to do with one message arriving from Discord.
pub enum DiscordPlan {
    /// Not for this relay: a bot's message, or another channel.
    Skip,
    /// The author is ignored: relay nothing.
    Ignored,
    /// Send these commands to IRC, in order: one per line of the body,
    /// then one per attachment URL.
    Send { commands: Vec<OutboundIrcCommand> },
}

/// Decides what a message arriving from Discord becomes: nothing for bot
/// messages, other channels and ignored authors; otherwise one IRC command
/// per line of the body and per attachment URL.
pub fn plan_discord_message(
    author_is_bot: bool,
    message_channel_id: u64,
    author_name: &str,
    author_id: u64,
    content: &str,
    attachment_urls: &Vec<String>,
    irc: &IrcConfig,
    discord: &DiscordConfig,
) -> (r: DiscordPlan)
    ensures
        (author_is_bot || message_channel_id != discord.channel_id) ==> r is Skip,
        (!author_is_bot && message_channel_id == discord.channel_id && name_in(
            discord.ignores@,
            author_name@,
        )) ==> r is Ignored,
        (!author_is_bot && message_channel_id == discord.channel_id && !name_in(
            discord.ignores@,
            author_name@,
        )) ==> ({
            let lines = lines_from(content@, 0) + attachment_urls@.map_values(|u: String| u@);
            &&& r matches DiscordPlan::Send { commands }
            &&& commands@.len() == lines.len()
            &&& forall|i: int|
                0 <= i < lines.len() ==> line_command_matches(
                    #[trigger] commands@[i],
                    lines[i],
                    author_name@,
                    author_id,
                    *irc,
                )
        }),
{
    if author_is_bot || message_channel_id != discord.channel_id {
        return DiscordPlan::Skip;
    }
    if contains_name(&discord.ignores, author_name) {
        return DiscordPlan::Ignored;
    }
    let display_name = if irc.prevent_noti_by_nicknames {
        insert_zero_width_spaces_into_nickname(author_name)
    } else {
        String::from_str(author_name)
    };
    let ghost lines = lines_from(content@, 0) + attachment_urls@.map_values(|u: String| u@);
    let body_lines = split_lines(content);
    let mut commands: Vec<OutboundIrcCommand> = Vec::new();
    let n = body_lines.len();
    let mut i: usize = 0;
    while i < n
        invariant
            i <= n == body_lines@.len(),
            body_lines@.map_values(|t: String| t@) == lines_from(content@, 0),
            lines == lines_from(content@, 0) + attachment_urls@.map_values(|u: String| u@),
            display_name@ == display_name_spec(author_name@, irc.prevent_noti_by_nicknames),
            commands@.len() == i,
            forall|j: int|
                0 <= j < i ==> line_command_matches(
                    #[trigger] commands@[j],
                    lines[j],
                    author_name@,
                    author_id,
                    *irc,
                ),
        decreases n - i,
    {
        proof {
            assert(lines[i as int] == body_lines@.map_values(|t: String| t@)[i as int]);
        }
        let c = outbound_command(body_lines[i].as_str(), display_name.as_str(), author_name, author_id, irc);
        commands.push(c);
        i = i + 1;
    }
    let m = attachment_urls.len();
    let mut k: usize = 0;
    while k < m
        invariant
            k <= m == attachment_urls@.len(),
            n == body_lines@.len(),
            body_lines@.map_values(|t: String| t@) == lines_from(content@, 0),
            lines == lines_from(content@, 0) + attachment_urls@.map_values(|u: String| u@),
            display_name@ == display_name_spec(author_name@, irc.prevent_noti_by_nicknames),
            commands@.len() == n + k,
            forall|j: int|
                0 <= j < n + k ==> line_command_matches(
                    #[trigger] commands@[j],
                    lines[j],
                    author_name@,
                    author_id,
                    *irc,
                ),
        decreases m - k,
    {
        proof {
            assert(lines[n + k] == attachment_urls@.map_values(|u: String| u@)[k as int]);
        }
        let c = outbound_command(attachment_urls[k].as_str(), display_name.as_str(), author_name, author_id, irc);
        commands.push(c);
        k = k + 1;
    }
    DiscordPlan::Send { commands }
}

} // verus!
