//! Tests for the tokenizer and the formatting delimiters.

use discord_irc_rs::state::Formatting;
use discord_irc_rs::tokens::Token;

#[test]
fn delimiters_as_str() {
    assert_eq!(Formatting::Bold.as_str(), "**");
    assert_eq!(Formatting::Italic.as_str(), "*");
    assert_eq!(Formatting::Underline.as_str(), "__");
    assert_eq!(Formatting::Strikethrough.as_str(), "~~");
    assert_eq!(Formatting::Monospace.as_str(), "`");
    assert_eq!(Formatting::Spoiler.as_str(), "||");
}

#[test]
fn read_one_scans_a_text_run() {
    let msg: Vec<char> = "ab\u{2}cd".chars().collect();
    let n = msg.len();
    let (token, next) = Token::read_one(&msg, 0, n);
    match token {
        Token::Text(t) => assert_eq!(t, vec!['a', 'b']),
        _ => panic!("expected a text run"),
    }
    assert_eq!(next, 2);
    let (token, next) = Token::read_one(&msg, 2, n);
    assert!(matches!(token, Token::Bold));
    assert_eq!(next, 3);
}

#[test]
fn read_one_escapes_markup() {
    let msg: Vec<char> = "_x".chars().collect();
    let (token, next) = Token::read_one(&msg, 0, 2);
    match token {
        Token::Text(t) => assert_eq!(t, vec!['\\', '_']),
        _ => panic!("expected an escape"),
    }
    assert_eq!(next, 1);
}

#[test]
fn read_one_parses_color_codes() {
    let msg: Vec<char> = "\u{3}12,34rest".chars().collect();
    let n = msg.len();
    let (token, next) = Token::read_one(&msg, 0, n);
    match token {
        Token::Color(fg, bg) => {
            assert_eq!(fg, Some(12));
            assert_eq!(bg, Some(34));
        }
        _ => panic!("expected a color instruction"),
    }
    assert_eq!(next, 6);
}

#[test]
fn read_one_color_without_digits() {
    let msg: Vec<char> = "\u{3}x".chars().collect();
    let (token, next) = Token::read_one(&msg, 0, 2);
    match token {
        Token::Color(fg, bg) => {
            assert_eq!(fg, None);
            assert_eq!(bg, None);
        }
        _ => panic!("expected a color instruction"),
    }
    assert_eq!(next, 1);
}
