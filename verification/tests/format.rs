//! Tests for the IRC-to-Discord message converter.

use discord_irc_rs::irc_to_discord::Converter;

#[test]
fn url_with_underline() {
    assert_eq!(
        Converter::convert("see this https://example.com/some_path_with_underline?and_this="),
        "see this https://example.com/some_path_with_underline?and_this=",
    );
    assert_eq!(
        Converter::convert("example.com/this_is_not_url wow really?"),
        "example.com/this\\_is\\_not\\_url wow really?",
    );
    assert_eq!(
        Converter::convert("http://example.com/multiple_urls https://example.com/should_work example.com/but_not_this"),
        "http://example.com/multiple_urls https://example.com/should_work example.com/but\\_not\\_this",
    );
}

#[test]
fn empty_message_stays_empty() {
    assert_eq!(Converter::convert(""), "");
}

#[test]
fn plain_text_is_only_escaped() {
    assert_eq!(Converter::convert("hello world"), "hello world");
    assert_eq!(Converter::convert("a_b"), "a\\_b");
    assert_eq!(Converter::convert("*_`>\\"), "\\*\\_\\`\\>\\\\");
}

#[test]
fn bold_round_trip() {
    assert_eq!(Converter::convert("\u{2}bold\u{2}"), "**bold**");
}

#[test]
fn every_toggle_round_trip() {
    assert_eq!(Converter::convert("\u{1d}i\u{1d}"), "*i*");
    assert_eq!(Converter::convert("\u{1f}u\u{1f}"), "__u__");
    assert_eq!(Converter::convert("\u{1e}s\u{1e}"), "~~s~~");
    assert_eq!(Converter::convert("\u{11}m\u{11}"), "`m`");
}

#[test]
fn no_state_leaks_between_messages() {
    assert_eq!(Converter::convert("\u{2}left open"), "**left open**");
    // A following independent conversion starts fresh.
    assert_eq!(Converter::convert("plain"), "plain");
}

#[test]
fn unterminated_toggle_closed_by_reset() {
    assert_eq!(Converter::convert("\u{2}a\u{1d}b"), "**a*b***");
}

#[test]
fn nested_toggle_keeps_outer_open() {
    // Bold, then italic, then closing bold in the middle: the trailing
    // text is still italicized, and the implicit reset closes the italic.
    assert_eq!(Converter::convert("\u{2}\u{1d}x\u{2}y"), "***x****y*");
}

#[test]
fn monospace_keeps_markup_outside() {
    // A toggle inside a monospace span closes and reopens the monospace,
    // so no markup characters land inside the code span.
    assert_eq!(
        Converter::convert("\u{11}code\u{2}bold\u{11}"),
        "`code`**`bold`**"
    );
}

#[test]
fn equal_colors_toggle_spoiler() {
    // Setting equal foreground and background opens the spoiler; clearing
    // the colors closes it.
    assert_eq!(
        Converter::convert("\u{3}4,4hidden\u{3}done"),
        "||hidden||done"
    );
    // The implicit reset also closes a spoiler still open at the end.
    assert_eq!(Converter::convert("\u{3}3,3sec"), "||sec||");
    // Unequal colors never open it.
    assert_eq!(Converter::convert("\u{3}4,5shown"), "shown");
}

#[test]
fn color_codes_are_consumed() {
    assert_eq!(Converter::convert("\u{3}04red\u{3} plain"), "red plain");
    assert_eq!(Converter::convert("\u{3}12,34x"), "x");
}

#[test]
fn partial_color_code_at_end_of_input() {
    // A bare color control character, or one with missing digit groups,
    // degrades gracefully: missing groups mean "cleared".
    assert_eq!(Converter::convert("\u{3}"), "");
    assert_eq!(Converter::convert("a\u{3}1"), "a");
    assert_eq!(Converter::convert("\u{3}12"), "");
    // A comma not followed by a digit stays literal text.
    assert_eq!(Converter::convert("\u{3}1,"), ",");
}

#[test]
fn reverse_color_swaps_channels() {
    // Foreground 4, then reverse twice: back to foreground-only, so the
    // swap to equal channels never happens and no spoiler appears.
    assert_eq!(Converter::convert("\u{3}4a\u{16}b\u{16}c"), "abc");
}

#[test]
fn reset_clears_everything() {
    assert_eq!(Converter::convert("\u{2}a\u{f}b"), "**a**b");
}

#[test]
fn url_underscore_kept_while_other_escaped() {
    assert_eq!(
        Converter::convert("see https://example.com/a_b?c=d end"),
        "see https://example.com/a_b?c=d end"
    );
    assert_eq!(
        Converter::convert("see https://example.com/a_b?c=d _end"),
        "see https://example.com/a_b?c=d \\_end"
    );
}

#[test]
fn rejected_candidate_is_escaped_normally() {
    // Looks like a URL, but has an empty host, so strict validation
    // rejects it and its underscore is escaped like any other text.
    assert_eq!(
        Converter::convert("http://#a_b"),
        "http://#a\\_b"
    );
}

#[test]
fn uppercase_scheme_is_detected() {
    assert_eq!(
        Converter::convert("HTTPS://example.com/a_b"),
        "HTTPS://example.com/a_b"
    );
}

#[test]
fn trailing_punctuation_is_outside_the_url() {
    assert_eq!(
        Converter::convert("go to https://example.com/x_y."),
        "go to https://example.com/x_y."
    );
}
