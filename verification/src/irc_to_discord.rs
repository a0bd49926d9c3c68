//! The IRC-to-Discord message converter.
//!
//! [`Converter::convert`] rewrites one IRC-formatted message into Discord
//! markdown. A conversion runs in three layers, each proved against the
//! spec functions of [`crate::state`], [`crate::tokens`] and
//! [`crate::urls`]:
//!
//! - confirmed URL spans are copied verbatim, everything else is tokenized;
//! - each token makes one state transition on the formatting stack, the
//!   color pair and the output buffer;
//! - after the whole input, one implicit reset closes every open attribute,
//!   so no formatting leaks past the end of the message.
//!
//! The function is total: malformed control sequences degrade to literal
//! text, and no input makes it fail.

use vstd::prelude::*;

use crate::chars::{chars_of, copy_range, string_from_chars};
use crate::state::{
    ConvState, Formatting, init_state, is_spoiler, markers_fwd, markers_rev, find_fmt,
    lemma_find_fmt, lemma_markers_fwd_snoc, lemma_markers_rev_head, process_token_spec,
    push_marker, reset_spec, toggle_spec, update_color_spec,
};
use crate::tokens::{Token, TokenV, lemma_read_one_bounds, spec_read_one};
use crate::urls::{
    find_url_candidates, is_valid_url, lemma_candidates_wf, ranges_view, url_candidates,
    url_parse_ok,
};

verus! {

/// The tokenizer applied to `s[i..end)`, folded over the state: every token
/// in turn makes its transition.
pub open spec fn push_state(st: ConvState, s: Seq<char>, i: int, end: int) -> ConvState
    decreases end - i,
{
    if 0 <= i && i < end && end <= s.len() {
        let (t, j) = spec_read_one(s, i, end);
        if i < j <= end {
            push_state(process_token_spec(st, t), s, j, end)
        } else {
            st
        }
    } else {
        st
    }
}

/// One URL-segmented pass over `s` from position `last`, with the candidate
/// spans `cands` still ahead: text outside candidates is tokenized, a
/// candidate accepted by the URL parser is copied verbatim, a rejected one
/// is tokenized like any other text.
pub open spec fn segments_state(st: ConvState, s: Seq<char>, cands: Seq<(int, int)>, last: int) -> ConvState
    decreases cands.len(),
{
    if cands.len() == 0 {
        push_state(st, s, last, s.len() as int)
    } else {
        let (a, b) = cands[0];
        let st1 = push_state(st, s, last, a);
        let st2 = if url_parse_ok(s.subrange(a, b)) {
            ConvState { out: st1.out + s.subrange(a, b), ..st1 }
        } else {
            push_state(st1, s, a, b)
        };
        segments_state(st2, s, cands.drop_first(), b)
    }
}

/// What converting a message yields: the URL-segmented pass over the whole
/// input from the initial state, followed by one final reset.
pub open spec fn convert_spec(s: Seq<char>) -> Seq<char> {
    process_token_spec(
        segments_state(init_state(), s, url_candidates(s), 0),
        TokenV::Reset,
    ).out
}

/// Converts one IRC-formatted message into Discord markdown text.
///
/// A converter owns the formatting stack, the color pair and the output
/// buffer of a single conversion; it is created fresh for each message and
/// discarded afterwards.
pub struct Converter {
    stack: Vec<Formatting>,
    message: Vec<char>,
    fg: Option<u8>,
    bg: Option<u8>,
}

impl View for Converter {
    type V = ConvState;

    closed spec fn view(&self) -> ConvState {
        ConvState { stack: self.stack@, fg: self.fg, bg: self.bg, out: self.message@ }
    }
}

/// The position of `format` on the stack, if it is open.
fn find_on_stack(stack: &Vec<Formatting>, format: Formatting) -> (r: Option<usize>)
    ensures
        match r {
            Option::Some(p) => stack@.contains(format) && p as int == find_fmt(stack@, format)
                && p < stack@.len(),
            Option::None => !stack@.contains(format),
        },
{
    let n = stack.len();
    let mut pos: usize = 0;
    while pos < n
        invariant
            pos <= n == stack@.len(),
            forall|j: int| 0 <= j < pos ==> stack@[j] != format,
        decreases n - pos,
    {
        if stack[pos] == format {
            proof {
                lemma_find_fmt(stack@, format);
                assert(stack@[pos as int] == format);
                assert(stack@.contains(format));
                let ff = find_fmt(stack@, format);
                if ff < pos {
                    assert(stack@[ff] != format);
                    assert(stack@[ff] == format);
                }
                if ff > pos {
                    assert(stack@[pos as int] != format);
                }
                assert(pos as int == ff);
            }
            return Some(pos);
        }
        pos = pos + 1;
    }
    proof {
        if stack@.contains(format) {
            let i = choose|i: int| 0 <= i < stack@.len() && stack@[i] == format;
            assert(stack@[i] != format);
        }
    }
    None
}

impl Converter {
    /// A fresh converter: nothing open, no colors, empty output.
    pub fn new() -> (c: Converter)
        ensures
            c@ == init_state(),
    {
        let c = Converter { stack: Vec::new(), message: Vec::new(), fg: None, bg: None };
        proof {
            assert(c@.stack =~= init_state().stack);
            assert(c@.out =~= init_state().out);
        }
        c
    }

    /// Whether the current colors denote hidden ("spoiler") text.
    pub fn is_spoilers_state(&self) -> (b: bool)
        ensures
            b == is_spoiler(self@.fg, self@.bg),
    {
        match (self.fg, self.bg) {
            (Some(f), Some(b)) => f == b,
            _ => false,
        }
    }

    /// Toggles the formatting attribute `format`, closing and reopening
    /// whatever the nesting rules require.
    pub fn toggle_format(&mut self, format: Formatting)
        ensures
            final(self)@ == toggle_spec(old(self)@, format),
    {
        let n = self.stack.len();
        if let Some(pos) = find_on_stack(&self.stack, format) {
            let ghost ss = old(self)@.stack;
            let ghost out0 = old(self)@.out;
            // Close everything from the top down to `format`.
            let mut k = n;
            while k > pos
                invariant
                    pos <= k <= n == self.stack@.len(),
                    self.stack@ == ss,
                    self.fg == old(self).fg,
                    self.bg == old(self).bg,
                    self.message@ == out0 + markers_rev(ss.subrange(k as int, n as int)),
                decreases k,
            {
                let ghost k_old = k as int;
                k = k - 1;
                push_marker(&mut self.message, self.stack[k]);
                proof {
                    let sub = ss.subrange(k as int, n as int);
                    lemma_markers_rev_head(sub);
                    assert(sub.drop_first() =~= ss.subrange(k_old, n as int));
                    assert(sub[0] == ss[k as int]);
                    assert(self.message@ =~= out0 + markers_rev(sub));
                }
            }
            // Reopen, in their old order, the attributes that sat above it.
            proof {
                assert(ss.subrange(pos as int + 1, pos as int + 1) =~= Seq::<Formatting>::empty());
                assert(markers_fwd(Seq::<Formatting>::empty()) == Seq::<char>::empty());
                assert(self.message@ =~= out0 + markers_rev(ss.subrange(pos as int, n as int))
                    + markers_fwd(ss.subrange(pos as int + 1, pos as int + 1)));
            }
            let mut k2 = pos + 1;
            while k2 < n
                invariant
                    pos < k2 <= n == self.stack@.len(),
                    self.stack@ == ss,
                    self.fg == old(self).fg,
                    self.bg == old(self).bg,
                    self.message@ == out0 + markers_rev(ss.subrange(pos as int, n as int))
                        + markers_fwd(ss.subrange(pos as int + 1, k2 as int)),
                decreases n - k2,
            {
                push_marker(&mut self.message, self.stack[k2]);
                k2 = k2 + 1;
                proof {
                    let prev = ss.subrange(pos as int + 1, k2 - 1);
                    lemma_markers_fwd_snoc(prev, ss[k2 - 1]);
                    assert(prev.push(ss[k2 - 1]) =~= ss.subrange(pos as int + 1, k2 as int));
                    assert(self.message@ =~= out0 + markers_rev(
                        ss.subrange(pos as int, n as int),
                    ) + markers_fwd(ss.subrange(pos as int + 1, k2 as int)));
                }
            }
            self.stack.remove(pos);
            proof {
                if pos + 1 == n {
                    assert(ss.subrange(pos as int + 1, n as int) =~= Seq::<Formatting>::empty());
                    assert(self.message@ =~= out0 + markers_rev(
                        ss.subrange(pos as int, n as int),
                    ) + markers_fwd(ss.subrange(pos as int + 1, n as int)));
                }
                assert(self@ == toggle_spec(old(self)@, format));
            }
        } else {
            let top_is_mono = if n > 0 {
                self.stack[n - 1] == Formatting::Monospace
            } else {
                false
            };
            if !(format == Formatting::Monospace) && top_is_mono {
                push_marker(&mut self.message, Formatting::Monospace);
                self.stack.pop();
                push_marker(&mut self.message, format);
                self.stack.push(format);
                push_marker(&mut self.message, Formatting::Monospace);
                self.stack.push(Formatting::Monospace);
                proof {
                    assert(old(self)@.stack.last() == Formatting::Monospace);
                    assert(!old(self)@.stack.contains(format));
                    assert(self@.stack =~= toggle_spec(old(self)@, format).stack);
                    assert(self@.out =~= toggle_spec(old(self)@, format).out);
                }
            } else {
                push_marker(&mut self.message, format);
                self.stack.push(format);
                proof {
                    assert(!old(self)@.stack.contains(format));
                    assert(self@ == toggle_spec(old(self)@, format));
                }
            }
        }
    }

    /// Applies a color instruction and toggles the spoiler attribute when
    /// the spoiler predicate flips.
    pub fn update_color(&mut self, new_fg: Option<u8>, new_bg: Option<u8>)
        ensures
            final(self)@ == update_color_spec(old(self)@, new_fg, new_bg),
    {
        let spoilers_before = self.is_spoilers_state();
        self.fg = new_fg;
        if new_fg.is_none() || new_bg.is_some() {
            self.bg = new_bg;
        }
        if spoilers_before != self.is_spoilers_state() {
            self.toggle_format(Formatting::Spoiler);
        }
    }

    /// Applies one token to the state.
    pub fn process_token(&mut self, token: Token)
        ensures
            final(self)@ == process_token_spec(old(self)@, token@),
    {
        match token {
            Token::Text(s) => {
                let mut i: usize = 0;
                let len = s.len();
                while i < len
                    invariant
                        i <= len == s@.len(),
                        self.stack@ == old(self).stack@,
                        self.fg == old(self).fg,
                        self.bg == old(self).bg,
                        self.message@ == old(self).message@ + s@.subrange(0, i as int),
                    decreases len - i,
                {
                    self.message.push(s[i]);
                    i = i + 1;
                    proof {
                        assert(self.message@ =~= old(self).message@ + s@.subrange(0, i as int));
                    }
                }
                proof {
                    assert(s@.subrange(0, s@.len() as int) =~= s@);
                    assert(self@ == process_token_spec(old(self)@, token@));
                }
            },
            Token::Bold => self.toggle_format(Formatting::Bold),
            Token::Italic => self.toggle_format(Formatting::Italic),
            Token::Underline => self.toggle_format(Formatting::Underline),
            Token::Strikethrough => self.toggle_format(Formatting::Strikethrough),
            Token::Monospace => self.toggle_format(Formatting::Monospace),
            Token::Color(fg, bg) => self.update_color(fg, bg),
            Token::ReverseColor => {
                let t = self.fg;
                self.fg = self.bg;
                self.bg = t;
            },
            Token::Reset => {
                let ghost ss = old(self)@.stack;
                let ghost out0 = old(self)@.out;
                while self.stack.len() > 0
                    invariant
                        self.stack@.len() <= ss.len(),
                        self.stack@ == ss.subrange(0, self.stack@.len() as int),
                        self.message@ == out0 + markers_rev(
                            ss.subrange(self.stack@.len() as int, ss.len() as int),
                        ),
                        self.fg == old(self).fg,
                        self.bg == old(self).bg,
                    decreases self.stack@.len(),
                {
                    let ghost i = self.stack@.len() as int;
                    let f = self.stack.pop().unwrap();
                    push_marker(&mut self.message, f);
                    proof {
                        assert(ss.subrange(0, i)[i - 1] == ss[i - 1]);
                        assert(f == ss[i - 1]);
                        assert(self.stack@ =~= ss.subrange(0, i - 1));
                        let sub = ss.subrange(i - 1, ss.len() as int);
                        lemma_markers_rev_head(sub);
                        assert(sub.drop_first() =~= ss.subrange(i, ss.len() as int));
                        assert(sub[0] == ss[i - 1]);
                        assert(self.message@ =~= out0 + markers_rev(sub));
                    }
                }
                self.fg = None;
                self.bg = None;
                proof {
                    assert(ss.subrange(0, ss.len() as int) =~= ss);
                    assert(self@.out =~= reset_spec(old(self)@).out);
                    assert(self@.stack =~= reset_spec(old(self)@).stack);
                }
            },
        }
    }

    /// Tokenizes `msg[start..end)` and applies every token in turn.
    pub fn push(&mut self, msg: &Vec<char>, start: usize, end: usize)
        requires
            start <= end <= msg@.len(),
        ensures
            final(self)@ == push_state(old(self)@, msg@, start as int, end as int),
    {
        let mut i: usize = start;
        while i < end
            invariant
                start <= i <= end <= msg@.len(),
                push_state(old(self)@, msg@, start as int, end as int) == push_state(
                    self@,
                    msg@,
                    i as int,
                    end as int,
                ),
            decreases end - i,
        {
            proof {
                lemma_read_one_bounds(msg@, i as int, end as int);
            }
            let (token, j) = Token::read_one(msg, i, end);
            self.process_token(token);
            i = j;
        }
    }

    /// Converts one message. URL candidate spans confirmed by the URL
    /// parser are copied verbatim; all other text is tokenized, escaped and
    /// reformatted; a final implicit reset closes everything still open.
    pub fn convert(message: &str) -> (r: String)
        ensures
            r@ == convert_spec(message@),
    {
        let chars = chars_of(message);
        let mut converter = Converter::new();
        let cands = find_url_candidates(&chars);
        proof {
            lemma_candidates_wf(chars@, 0);
        }
        let ghost s = chars@;
        let ghost cs = url_candidates(chars@);
        let m = cands.len();
        let mut idx: usize = 0;
        let mut last: usize = 0;
        proof {
            assert(cs.skip(0) =~= cs);
        }
        while idx < m
            invariant
                idx <= m == cs.len(),
                cs == ranges_view(cands@),
                s == chars@,
                last <= s.len(),
                idx < m ==> last <= cs[idx as int].0,
                forall|i: int|
                    0 <= i < cs.len() ==> 0 <= (#[trigger] cs[i]).0 && cs[i].0 < cs[i].1
                        <= s.len(),
                forall|i: int| 0 <= i < cs.len() - 1 ==> (#[trigger] cs[i]).1 <= cs[i + 1].0,
                segments_state(init_state(), s, cs, 0) == segments_state(
                    converter@,
                    s,
                    cs.skip(idx as int),
                    last as int,
                ),
            decreases m - idx,
        {
            let (a, b) = (cands[idx].0, cands[idx].1);
            proof {
                assert(cs[idx as int] == (a as int, b as int));
                assert(cs.skip(idx as int)[0] == cs[idx as int]);
            }
            converter.push(&chars, last, a);
            let candidate = copy_range(&chars, a, b);
            let candidate_str = string_from_chars(&candidate);
            if is_valid_url(candidate_str.as_str()) {
                converter.process_token(Token::Text(candidate));
            } else {
                converter.push(&chars, a, b);
            }
            proof {
                assert(cs.skip(idx as int).drop_first() =~= cs.skip(idx as int + 1));
                if idx as int + 1 < cs.len() {
                    assert(cs[idx as int].1 <= cs[idx as int + 1].0);
                }
            }
            last = b;
            idx = idx + 1;
        }
        proof {
            assert(cs.skip(m as int) =~= Seq::<(int, int)>::empty());
        }
        converter.push(&chars, last, chars.len());
        converter.process_token(Token::Reset);
        string_from_chars(&converter.message)
    }
}

} // verus!
