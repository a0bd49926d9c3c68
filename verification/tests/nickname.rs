//! Tests for the nickname helpers.

use discord_irc_rs::utils::{insert_zero_width_spaces_into_nickname, normalize_irc_nickname};

#[test]
pub fn test_insert_boms_into_nickname() {
    let f = insert_zero_width_spaces_into_nickname;

    assert_eq!(f("기이다란닉네임"), "기이\u{200B}다란\u{200B}닉네임");
    assert_eq!(f("기다란닉네임"), "기다\u{200B}란닉\u{200B}네임");
    assert_eq!(f("가나다라마"), "가\u{200B}나다\u{200B}라마");
    assert_eq!(f("지현지현"), "지\u{200B}현\u{200B}지현");
    assert_eq!(f("김지현"), "김\u{200B}지\u{200B}현");
    assert_eq!(f("지현"), "지\u{200B}현");
    assert_eq!(f("젼"), "젼");
    assert_eq!(f(""), "");

    assert_eq!(f("a̐éö̲"), "a̐\u{200B}é\u{200B}ö̲");
}

#[test]
fn empty_and_single_cluster_unchanged() {
    assert_eq!(insert_zero_width_spaces_into_nickname(""), "");
    assert_eq!(insert_zero_width_spaces_into_nickname("a"), "a");
}

#[test]
fn two_clusters_get_one_separator() {
    assert_eq!(insert_zero_width_spaces_into_nickname("AB"), "A\u{200B}B");
}

#[test]
fn removing_separators_restores_the_name() {
    for name in ["기이다란닉네임", "김지현", "AB", "a̐éö̲", "plain name", ""] {
        let obfuscated = insert_zero_width_spaces_into_nickname(name);
        let restored: String = obfuscated.chars().filter(|&c| c != '\u{200B}').collect();
        assert_eq!(restored, name);
    }
}

#[test]
fn separators_never_split_clusters() {
    // A base character plus combining marks stays one piece.
    let name = "e\u{301}e\u{301}e\u{301}";
    let obfuscated = insert_zero_width_spaces_into_nickname(name);
    assert_eq!(obfuscated, "e\u{301}\u{200B}e\u{301}\u{200B}e\u{301}");
}

#[test]
fn normalize_replaces_protocol_characters() {
    assert_eq!(normalize_irc_nickname("a b!c@d"), "a_b\u{1C3}c\u{FF20}d");
    assert_eq!(normalize_irc_nickname("plain"), "plain");
    assert_eq!(normalize_irc_nickname(""), "");
}
