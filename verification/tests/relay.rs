//! Tests for the relay decision functions.

use discord_irc_rs::config::{DiscordConfig, IrcConfig, IrcOzingerConfig};
use discord_irc_rs::discord::{
    fakemsg_source, plan_discord_message, privmsg_line, split_lines, DiscordPlan,
    OutboundIrcCommand,
};
use discord_irc_rs::irc::{
    find_member_by_name, join_announcement, kick_announcement, left_announcement, plan_irc_event,
    IrcAction, IrcEvent,
};
use discord_irc_rs::utils::contains_name;
use discord_irc_rs::webhook::WebhookBody;

fn irc_config() -> IrcConfig {
    IrcConfig {
        nickname: Some("bridgebot".to_string()),
        channel: "#relay".to_string(),
        ignores: vec!["spammer".to_string()],
        ozinger: None,
        bridge_member_changes: true,
        prevent_noti_by_nicknames: false,
        auto_detect_avatar: false,
    }
}

fn discord_config() -> DiscordConfig {
    DiscordConfig {
        token: "SECRET-REDACTED".to_string(),
        channel_id: 42,
        webhook_id: 7,
        webhook_token: "SECRET-REDACTED".to_string(),
        ignores: vec!["blocked".to_string()],
    }
}

#[test]
fn split_lines_matches_newlines() {
    let lines = split_lines("a\nb\nc");
    assert_eq!(lines, vec!["a", "b", "c"]);
    assert_eq!(split_lines(""), vec![""]);
    assert_eq!(split_lines("x\n"), vec!["x", ""]);
}

#[test]
fn fakemsg_source_formats_id_in_hex() {
    assert_eq!(
        fakemsg_source("nick", 255),
        "nick\u{FF20}d!ff@pbzweihander/discord-irc-rs"
    );
    assert_eq!(
        fakemsg_source("a b", 0),
        "a_b\u{FF20}d!0@pbzweihander/discord-irc-rs"
    );
}

#[test]
fn privmsg_line_brackets_the_name() {
    assert_eq!(privmsg_line("nick", "hello"), "<nick> hello");
}

#[test]
fn announcements_read_as_expected() {
    assert_eq!(join_announcement("ada"), "**ada** has joined the channel.");
    assert_eq!(
        left_announcement("ada", &None),
        "**ada** has left the channel."
    );
    assert_eq!(
        left_announcement("ada", &Some("bye".to_string())),
        "**ada** has left the channel. (`bye`)"
    );
    assert_eq!(
        kick_announcement("ada", "mod", &Some("rude".to_string())),
        "**ada** has been kicked by **mod**. (`rude`)"
    );
}

#[test]
fn privmsg_event_is_relayed_converted() {
    let action = plan_irc_event(
        &IrcEvent::Privmsg {
            nick: "ada".to_string(),
            content: "\u{2}hi\u{2} there_".to_string(),
        },
        &irc_config(),
        &discord_config(),
    );
    match action {
        IrcAction::RelayMessage {
            username,
            content,
            want_avatar,
        } => {
            assert_eq!(username, "ada");
            assert_eq!(content, "**hi** there\\_");
            assert!(!want_avatar);
        }
        _ => panic!("expected a relayed message"),
    }
}

#[test]
fn ignored_nick_is_not_relayed() {
    let action = plan_irc_event(
        &IrcEvent::Privmsg {
            nick: "spammer".to_string(),
            content: "buy stuff".to_string(),
        },
        &irc_config(),
        &discord_config(),
    );
    assert!(matches!(action, IrcAction::Nothing));
}

#[test]
fn welcome_joins_the_channel() {
    let mut cfg = irc_config();
    cfg.ozinger = Some(IrcOzingerConfig {
        username: "op".to_string(),
        password: "SECRET-REDACTED".to_string(),
    });
    let action = plan_irc_event(&IrcEvent::Welcome, &cfg, &discord_config());
    match action {
        IrcAction::Welcome { oper, channel } => {
            assert_eq!(channel, "#relay");
            assert_eq!(oper.map(|o| o.username), Some("op".to_string()));
        }
        _ => panic!("expected the welcome action"),
    }
}

#[test]
fn join_announced_for_others_only() {
    let cfg = irc_config();
    let dcfg = discord_config();
    let action = plan_irc_event(
        &IrcEvent::Join {
            nick: "ada".to_string(),
        },
        &cfg,
        &dcfg,
    );
    match action {
        IrcAction::Announce {
            channel_id,
            message,
        } => {
            assert_eq!(channel_id, 42);
            assert_eq!(message, "**ada** has joined the channel.");
        }
        _ => panic!("expected an announcement"),
    }
    // The bot's own join is not announced.
    let own = plan_irc_event(
        &IrcEvent::Join {
            nick: "bridgebot".to_string(),
        },
        &cfg,
        &dcfg,
    );
    assert!(matches!(own, IrcAction::Nothing));
}

#[test]
fn part_announced_for_own_nick_only() {
    let cfg = irc_config();
    let dcfg = discord_config();
    let own = plan_irc_event(
        &IrcEvent::Part {
            nick: "bridgebot".to_string(),
            comment: Some("restart".to_string()),
        },
        &cfg,
        &dcfg,
    );
    match own {
        IrcAction::Announce { message, .. } => {
            assert_eq!(message, "**bridgebot** has left the channel. (`restart`)");
        }
        _ => panic!("expected an announcement"),
    }
    let other = plan_irc_event(
        &IrcEvent::Part {
            nick: "ada".to_string(),
            comment: None,
        },
        &cfg,
        &dcfg,
    );
    assert!(matches!(other, IrcAction::Nothing));
}

#[test]
fn discord_message_becomes_privmsg_lines() {
    let plan = plan_discord_message(
        false,
        42,
        "ada",
        9,
        "one\ntwo",
        &vec!["https://cdn.example/img.png".to_string()],
        &irc_config(),
        &discord_config(),
    );
    match plan {
        DiscordPlan::Send { commands } => {
            assert_eq!(commands.len(), 3);
            match &commands[0] {
                OutboundIrcCommand::Privmsg { channel, line } => {
                    assert_eq!(channel, "#relay");
                    assert_eq!(line, "<ada> one");
                }
                _ => panic!("expected a channel message"),
            }
            match &commands[2] {
                OutboundIrcCommand::Privmsg { line, .. } => {
                    assert_eq!(line, "<ada> https://cdn.example/img.png");
                }
                _ => panic!("expected a channel message"),
            }
        }
        _ => panic!("expected commands"),
    }
}

#[test]
fn discord_message_becomes_fakemsg_when_oper() {
    let mut cfg = irc_config();
    cfg.ozinger = Some(IrcOzingerConfig {
        username: "op".to_string(),
        password: "SECRET-REDACTED".to_string(),
    });
    let plan = plan_discord_message(
        false,
        42,
        "ada",
        255,
        "hi",
        &vec![],
        &cfg,
        &discord_config(),
    );
    match plan {
        DiscordPlan::Send { commands } => {
            assert_eq!(commands.len(), 1);
            match &commands[0] {
                OutboundIrcCommand::Fakemsg {
                    source,
                    channel,
                    line,
                } => {
                    assert_eq!(source, "ada\u{FF20}d!ff@pbzweihander/discord-irc-rs");
                    assert_eq!(channel, "#relay");
                    assert_eq!(line, "hi");
                }
                _ => panic!("expected an impersonated message"),
            }
        }
        _ => panic!("expected commands"),
    }
}

#[test]
fn discord_display_name_obfuscated_when_configured() {
    let mut cfg = irc_config();
    cfg.prevent_noti_by_nicknames = true;
    let plan = plan_discord_message(
        false,
        42,
        "ada",
        9,
        "hi",
        &vec![],
        &cfg,
        &discord_config(),
    );
    match plan {
        DiscordPlan::Send { commands } => match &commands[0] {
            OutboundIrcCommand::Privmsg { line, .. } => {
                assert_eq!(line, "<a\u{200B}d\u{200B}a> hi");
            }
            _ => panic!("expected a channel message"),
        },
        _ => panic!("expected commands"),
    }
}

#[test]
fn bot_and_foreign_channel_messages_skipped() {
    let plan = plan_discord_message(
        true,
        42,
        "ada",
        9,
        "hi",
        &vec![],
        &irc_config(),
        &discord_config(),
    );
    assert!(matches!(plan, DiscordPlan::Skip));
    let other = plan_discord_message(
        false,
        41,
        "ada",
        9,
        "hi",
        &vec![],
        &irc_config(),
        &discord_config(),
    );
    assert!(matches!(other, DiscordPlan::Skip));
    let ignored = plan_discord_message(
        false,
        42,
        "blocked",
        9,
        "hi",
        &vec![],
        &irc_config(),
        &discord_config(),
    );
    assert!(matches!(ignored, DiscordPlan::Ignored));
}

#[test]
fn member_lookup_finds_first_match() {
    let names = vec![
        "ada".to_string(),
        "grace".to_string(),
        "ada".to_string(),
    ];
    assert_eq!(find_member_by_name(&names, "grace"), Some(1));
    assert_eq!(find_member_by_name(&names, "ada"), Some(0));
    assert_eq!(find_member_by_name(&names, "linus"), None);
    assert!(contains_name(&names, "ada"));
    assert!(!contains_name(&names, "linus"));
}

#[test]
fn webhook_body_holds_its_fields() {
    let body = WebhookBody::new("hello".to_string(), "ada".to_string());
    assert_eq!(body.content, "hello");
    assert_eq!(body.username, "ada");
}
