//! Tokenization of IRC-formatted message text.
//!
//! The scanner walks the input one character at a time. A handful of control
//! characters toggle formatting attributes or carry a color instruction with
//! a short, greedy numeric encoding; markdown-significant characters become
//! escaped text; every other run of characters is passed through as a single
//! literal text token. Any malformed or truncated control sequence degrades
//! to literal text or absent fields, never an error.

use vstd::prelude::*;

use crate::chars::copy_range;

verus! {

/// One scanned unit of input.
pub enum Token {
    /// Literal text, already escaped where needed.
    Text(Vec<char>),
    Bold,
    Italic,
    Underline,
    Strikethrough,
    Monospace,
    /// Absolute color instruction: optional foreground and background,
    /// each an index in `0..=99`.
    Color(Option<u8>, Option<u8>),
    ReverseColor,
    Reset,
}

/// The mathematical shape of a [`Token`].
pub enum TokenV {
    Text(Seq<char>),
    Bold,
    Italic,
    Underline,
    Strikethrough,
    Monospace,
    Color(Option<u8>, Option<u8>),
    ReverseColor,
    Reset,
}

impl View for Token {
    type V = TokenV;

    open spec fn view(&self) -> TokenV {
        match self {
            Token::Text(v) => TokenV::Text(v@),
            Token::Bold => TokenV::Bold,
            Token::Italic => TokenV::Italic,
            Token::Underline => TokenV::Underline,
            Token::Strikethrough => TokenV::Strikethrough,
            Token::Monospace => TokenV::Monospace,
            Token::Color(f, b) => TokenV::Color(*f, *b),
            Token::ReverseColor => TokenV::ReverseColor,
            Token::Reset => TokenV::Reset,
        }
    }
}

/// Characters that end a literal text run: markdown characters that need
/// escaping, and the formatting control characters.
pub open spec fn is_special_char(c: char) -> bool {
    ||| c == '_'
    ||| c == '*'
    ||| c == '`'
    ||| c == '>'
    ||| c == '\\'
    ||| c == '\u{2}'
    ||| c == '\u{1d}'
    ||| c == '\u{1f}'
    ||| c == '\u{1e}'
    ||| c == '\u{11}'
    ||| c == '\u{16}'
    ||| c == '\u{f}'
    ||| c == '\u{3}'
}

pub open spec fn is_digit(c: char) -> bool {
    48 <= c as u32 <= 57
}

/// Numeric value of a decimal digit character.
pub open spec fn digit_val(c: char) -> int {
    c as u32 - 48
}

/// The position of the first special character at or after `i` (and before
/// `end`), or `end` if there is none.
pub open spec fn next_special(s: Seq<char>, i: int, end: int) -> int
    decreases end - i,
{
    if i < 0 || i >= end {
        end
    } else if is_special_char(s[i]) {
        i
    } else {
        next_special(s, i + 1, end)
    }
}

pub proof fn lemma_next_special(s: Seq<char>, i: int, end: int)
    requires
        0 <= i <= end <= s.len(),
    ensures
        i <= next_special(s, i, end) <= end,
        forall|k: int| i <= k < next_special(s, i, end) ==> !is_special_char(s[k]),
        next_special(s, i, end) < end ==> is_special_char(s[next_special(s, i, end)]),
    decreases end - i,
{
    if i < end && !is_special_char(s[i]) {
        lemma_next_special(s, i + 1, end);
    }
}

/// The background half of a color instruction. `comma` is the position of
/// the separating comma; the comma is consumed only when at least one digit
/// follows it.
pub open spec fn spec_read_bg(s: Seq<char>, fg: int, comma: int, end: int) -> (TokenV, int) {
    let e0 = comma + 1 < end && is_digit(s[comma + 1]);
    let e1 = comma + 2 < end && is_digit(s[comma + 2]);
    if e0 && e1 {
        (
            TokenV::Color(
                Some(fg as u8),
                Some((digit_val(s[comma + 1]) * 10 + digit_val(s[comma + 2])) as u8),
            ),
            comma + 3,
        )
    } else if e0 {
        (TokenV::Color(Some(fg as u8), Some(digit_val(s[comma + 1]) as u8)), comma + 2)
    } else {
        (TokenV::Color(Some(fg as u8), None), comma)
    }
}

/// A color instruction's digits, beginning at `i` (just past the color
/// control character): up to two decimal digits of foreground, then
/// optionally a comma and up to two decimal digits of background. Missing
/// digit groups mean the corresponding channel is cleared.
pub open spec fn spec_read_color(s: Seq<char>, i: int, end: int) -> (TokenV, int) {
    let d0 = i < end && is_digit(s[i]);
    let d1 = i + 1 < end && is_digit(s[i + 1]);
    let c1 = i + 1 < end && s[i + 1] == ',';
    let c2 = i + 2 < end && s[i + 2] == ',';
    if d0 && d1 && c2 {
        spec_read_bg(s, digit_val(s[i]) * 10 + digit_val(s[i + 1]), i + 2, end)
    } else if d0 && c1 {
        spec_read_bg(s, digit_val(s[i]), i + 1, end)
    } else if d0 && d1 {
        (TokenV::Color(Some((digit_val(s[i]) * 10 + digit_val(s[i + 1])) as u8), None), i + 2)
    } else if d0 {
        (TokenV::Color(Some(digit_val(s[i]) as u8), None), i + 1)
    } else {
        (TokenV::Color(None, None), i)
    }
}

/// One token read from position `i` (before `end`), and the position just
/// past it.
pub open spec fn spec_read_one(s: Seq<char>, i: int, end: int) -> (TokenV, int)
    recommends
        0 <= i < end <= s.len(),
{
    let c = s[i];
    if c == '_' {
        (TokenV::Text(seq!['\\', '_']), i + 1)
    } else if c == '*' {
        (TokenV::Text(seq!['\\', '*']), i + 1)
    } else if c == '`' {
        (TokenV::Text(seq!['\\', '`']), i + 1)
    } else if c == '>' {
        (TokenV::Text(seq!['\\', '>']), i + 1)
    } else if c == '\\' {
        (TokenV::Text(seq!['\\', '\\']), i + 1)
    } else if c == '\u{2}' {
        (TokenV::Bold, i + 1)
    } else if c == '\u{1d}' {
        (TokenV::Italic, i + 1)
    } else if c == '\u{1f}' {
        (TokenV::Underline, i + 1)
    } else if c == '\u{1e}' {
        (TokenV::Strikethrough, i + 1)
    } else if c == '\u{11}' {
        (TokenV::Monospace, i + 1)
    } else if c == '\u{16}' {
        (TokenV::ReverseColor, i + 1)
    } else if c == '\u{f}' {
        (TokenV::Reset, i + 1)
    } else if c == '\u{3}' {
        spec_read_color(s, i + 1, end)
    } else {
        (TokenV::Text(s.subrange(i, next_special(s, i + 1, end))), next_special(s, i + 1, end))
    }
}

/// Reading a token always consumes at least one character and never runs
/// past `end`.
pub proof fn lemma_read_one_bounds(s: Seq<char>, i: int, end: int)
    requires
        0 <= i < end <= s.len(),
    ensures
        i < spec_read_one(s, i, end).1 <= end,
{
    lemma_next_special(s, i + 1, end);
}

fn is_special(c: char) -> (b: bool)
    ensures
        b == is_special_char(c),
{
    c == '_' || c == '*' || c == '`' || c == '>' || c == '\\' || c == '\u{2}' || c == '\u{1d}'
        || c == '\u{1f}' || c == '\u{1e}' || c == '\u{11}' || c == '\u{16}' || c == '\u{f}'
        || c == '\u{3}'
}

fn digit_of(c: char) -> (r: Option<u8>)
    ensures
        r is Some <==> is_digit(c),
        r is Some ==> r.unwrap() == digit_val(c),
{
    let u = c as u32;
    if 48 <= u && u <= 57 {
        Some((u - 48) as u8)
    } else {
        None
    }
}

fn find_next_special(msg: &Vec<char>, start: usize, end: usize) -> (j: usize)
    requires
        start <= end <= msg@.len(),
    ensures
        j == next_special(msg@, start as int, end as int),
{
    let mut k: usize = start;
    while k < end
        invariant
            start <= k <= end <= msg@.len(),
            next_special(msg@, start as int, end as int) == next_special(msg@, k as int, end as int),
        decreases end - k,
    {
        if is_special(msg[k]) {
            return k;
        }
        k = k + 1;
    }
    k
}

fn read_color(msg: &Vec<char>, i: usize, end: usize) -> (r: (Option<u8>, Option<u8>, usize))
    requires
        i <= end <= msg@.len(),
    ensures
        spec_read_color(msg@, i as int, end as int) == (TokenV::Color(r.0, r.1), r.2 as int),
        i <= r.2 <= end,
{
    let d0 = if i < end { digit_of(msg[i]) } else { None };
    let d1 = if end - i >= 2 { digit_of(msg[i + 1]) } else { None };
    let c1 = end - i >= 2 && msg[i + 1] == ',';
    let c2 = end - i >= 3 && msg[i + 2] == ',';
    match (d0, d1) {
        (Some(a), Some(b)) if c2 => read_bg(msg, a * 10 + b, i + 2, end),
        (Some(a), _) if c1 => read_bg(msg, a, i + 1, end),
        (Some(a), Some(b)) => (Some(a * 10 + b), None, i + 2),
        (Some(a), _) => (Some(a), None, i + 1),
        _ => (None, None, i),
    }
}

fn read_bg(msg: &Vec<char>, fg: u8, comma: usize, end: usize) -> (r: (Option<u8>, Option<u8>, usize))
    requires
        comma < end <= msg@.len(),
    ensures
        spec_read_bg(msg@, fg as int, comma as int, end as int) == (TokenV::Color(r.0, r.1), r.2 as int),
        comma <= r.2 <= end,
{
    let e0 = if end - comma >= 2 { digit_of(msg[comma + 1]) } else { None };
    let e1 = if end - comma >= 3 { digit_of(msg[comma + 2]) } else { None };
    match (e0, e1) {
        (Some(a), Some(b)) => (Some(fg), Some(a * 10 + b), comma + 3),
        (Some(a), _) => (Some(fg), Some(a), comma + 2),
        _ => (Some(fg), None, comma),
    }
}

impl Token {
    /// Reads the next token of `msg` starting at `start`, staying strictly
    /// before `end`. Returns the token and the position just past it; at
    /// least one character is always consumed, so the scan makes progress.
    pub fn read_one(msg: &Vec<char>, start: usize, end: usize) -> (r: (Token, usize))
        requires
            start < end <= msg@.len(),
        ensures
            ({
                let (t, j) = spec_read_one(msg@, start as int, end as int);
                r.0@ == t && r.1 == j
            }),
            start < r.1 <= end,
    {
        proof {
            lemma_read_one_bounds(msg@, start as int, end as int);
        }
        let c = msg[start];
        if c == '_' {
            (Token::Text(vec!['\\', '_']), start + 1)
        } else if c == '*' {
            (Token::Text(vec!['\\', '*']), start + 1)
        } else if c == '`' {
            (Token::Text(vec!['\\', '`']), start + 1)
        } else if c == '>' {
            (Token::Text(vec!['\\', '>']), start + 1)
        } else if c == '\\' {
            (Token::Text(vec!['\\', '\\']), start + 1)
        } else if c == '\u{2}' {
            (Token::Bold, start + 1)
        } else if c == '\u{1d}' {
            (Token::Italic, start + 1)
        } else if c == '\u{1f}' {
            (Token::Underline, start + 1)
        } else if c == '\u{1e}' {
            (Token::Strikethrough, start + 1)
        } else if c == '\u{11}' {
            (Token::Monospace, start + 1)
        } else if c == '\u{16}' {
            (Token::ReverseColor, start + 1)
        } else if c == '\u{f}' {
            (Token::Reset, start + 1)
        } else if c == '\u{3}' {
            let (fg, bg, j) = read_color(msg, start + 1, end);
            (Token::Color(fg, bg), j)
        } else {
            let j = find_next_special(msg, start + 1, end);
            proof {
                lemma_next_special(msg@, start as int + 1, end as int);
            }
            (Token::Text(copy_range(msg, start, j)), j)
        }
    }
}

} // verus!
