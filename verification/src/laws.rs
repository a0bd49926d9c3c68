//! The laws the converter obeys, stated and proved over the spec functions
//! that [`crate::irc_to_discord`]'s contracts use.

use vstd::prelude::*;

use crate::irc_to_discord::{convert_spec, push_state, segments_state};
use crate::state::{
    ConvState, Formatting, init_state, is_spoiler, marker, markers_fwd, markers_rev,
    process_token_spec, toggle_spec, update_color_spec,
};
use crate::tokens::{TokenV, is_special_char, next_special, lemma_next_special, spec_read_one};
use crate::urls::{next_match, url_candidates, url_parse_ok};

verus! {

/// The characters that carry formatting instructions in the input.
pub open spec fn is_control_char(c: char) -> bool {
    ||| c == '\u{2}'
    ||| c == '\u{1d}'
    ||| c == '\u{1f}'
    ||| c == '\u{1e}'
    ||| c == '\u{11}'
    ||| c == '\u{16}'
    ||| c == '\u{f}'
    ||| c == '\u{3}'
}

/// The characters that are significant to the output markup and must be
/// escaped when they occur as literal text.
pub open spec fn is_markup_char(c: char) -> bool {
    c == '_' || c == '*' || c == '`' || c == '>' || c == '\\'
}

/// A stretch of input free of formatting instructions.
pub open spec fn control_free(s: Seq<char>, i: int, end: int) -> bool {
    forall|k: int| i <= k < end ==> !is_control_char(s[k])
}

/// What escaping one literal character yields.
pub open spec fn escape_char(c: char) -> Seq<char> {
    if is_markup_char(c) {
        seq!['\\', c]
    } else {
        seq![c]
    }
}

/// The characters of `s[i..end)`, with every markup-significant character
/// backslash-escaped.
pub open spec fn escape_range(s: Seq<char>, i: int, end: int) -> Seq<char>
    decreases end - i,
{
    if i < end {
        escape_char(s[i]) + escape_range(s, i + 1, end)
    } else {
        Seq::empty()
    }
}

pub proof fn lemma_escape_range_split(s: Seq<char>, i: int, k: int, j: int)
    requires
        i <= k <= j,
    ensures
        escape_range(s, i, j) == escape_range(s, i, k) + escape_range(s, k, j),
    decreases k - i,
{
    if i == k {
        assert(escape_range(s, i, k) == Seq::<char>::empty());
        assert(escape_range(s, i, j) =~= escape_range(s, i, k) + escape_range(s, k, j));
    } else {
        lemma_escape_range_split(s, i + 1, k, j);
        assert(escape_range(s, i, j) =~= escape_range(s, i, k) + escape_range(s, k, j));
    }
}

/// A run without special characters escapes to itself.
proof fn lemma_escape_plain(s: Seq<char>, i: int, j: int)
    requires
        0 <= i <= j <= s.len(),
        forall|k: int| i <= k < j ==> !is_special_char(s[k]),
    ensures
        escape_range(s, i, j) == s.subrange(i, j),
    decreases j - i,
{
    if i < j {
        lemma_escape_plain(s, i + 1, j);
        assert(!is_markup_char(s[i]));
        assert(escape_char(s[i]) == seq![s[i]]);
        assert(escape_range(s, i, j) =~= s.subrange(i, j));
    } else {
        assert(escape_range(s, i, j) =~= s.subrange(i, j));
    }
}

/// Tokenizing a control-free stretch appends exactly its escaped text and
/// leaves the stack and colors alone.
pub proof fn lemma_push_control_free(st: ConvState, s: Seq<char>, i: int, end: int)
    requires
        0 <= i <= end <= s.len(),
        control_free(s, i, end),
    ensures
        push_state(st, s, i, end) == (ConvState {
            out: st.out + escape_range(s, i, end),
            ..st
        }),
    decreases end - i,
{
    if i >= end {
        assert(st.out + escape_range(s, i, end) =~= st.out);
        assert(push_state(st, s, i, end) =~= (ConvState {
            out: st.out + escape_range(s, i, end),
            ..st
        }));
    } else {
        let (t, j) = spec_read_one(s, i, end);
        let c = s[i];
        assert(!is_control_char(c));
        if is_markup_char(c) {
            assert(t == TokenV::Text(escape_char(c)));
            assert(j == i + 1);
            let st1 = process_token_spec(st, t);
            lemma_push_control_free(st1, s, i + 1, end);
            assert(st1.out + escape_range(s, i + 1, end) =~= st.out + escape_range(s, i, end));
            assert(push_state(st, s, i, end) =~= (ConvState {
                out: st.out + escape_range(s, i, end),
                ..st
            }));
        } else {
            let jj = next_special(s, i + 1, end);
            lemma_next_special(s, i + 1, end);
            assert(t == TokenV::Text(s.subrange(i, jj)));
            assert(j == jj);
            lemma_escape_plain(s, i, jj);
            let st1 = process_token_spec(st, t);
            lemma_push_control_free(st1, s, jj, end);
            lemma_escape_range_split(s, i, jj, end);
            assert(st1.out + escape_range(s, jj, end) =~= st.out + escape_range(s, i, end));
            assert(push_state(st, s, i, end) =~= (ConvState {
                out: st.out + escape_range(s, i, end),
                ..st
            }));
        }
    }
}

/// Tokenizing up to a special character at `mid` appends the escaped text
/// before `mid` and then continues from `mid`, with stack and colors
/// untouched so far: token boundaries never cross a special character.
pub proof fn lemma_push_until_special(st: ConvState, s: Seq<char>, i: int, mid: int, end: int)
    requires
        0 <= i <= mid < end <= s.len(),
        control_free(s, i, mid),
        is_special_char(s[mid]),
    ensures
        push_state(st, s, i, end) == push_state(
            ConvState { out: st.out + escape_range(s, i, mid), ..st },
            s,
            mid,
            end,
        ),
    decreases mid - i,
{
    if i == mid {
        assert(st.out + escape_range(s, i, mid) =~= st.out);
        assert((ConvState { out: st.out + escape_range(s, i, mid), ..st }) =~= st);
    } else {
        let (t, j) = spec_read_one(s, i, end);
        let c = s[i];
        assert(!is_control_char(c));
        if is_markup_char(c) {
            assert(t == TokenV::Text(escape_char(c)));
            assert(j == i + 1);
            let st1 = process_token_spec(st, t);
            lemma_push_until_special(st1, s, i + 1, mid, end);
            assert(st1.out + escape_range(s, i + 1, mid) =~= st.out + escape_range(s, i, mid));
            assert((ConvState { out: st1.out + escape_range(s, i + 1, mid), ..st1 }) =~= (
            ConvState { out: st.out + escape_range(s, i, mid), ..st }));
        } else {
            let jj = next_special(s, i + 1, end);
            lemma_next_special(s, i + 1, end);
            assert(jj <= mid) by {
                if jj > mid {
                    assert(!is_special_char(s[mid]));
                }
            }
            assert(t == TokenV::Text(s.subrange(i, jj)));
            assert(j == jj);
            lemma_escape_plain(s, i, jj);
            let st1 = process_token_spec(st, t);
            if jj == mid {
                assert(st1.out =~= st.out + escape_range(s, i, mid));
                assert(st1 =~= (ConvState { out: st.out + escape_range(s, i, mid), ..st }));
            } else {
                lemma_push_until_special(st1, s, jj, mid, end);
                lemma_escape_range_split(s, i, jj, mid);
                assert(st1.out + escape_range(s, jj, mid) =~= st.out + escape_range(s, i, mid));
                assert((ConvState { out: st1.out + escape_range(s, jj, mid), ..st1 }) =~= (
                ConvState { out: st.out + escape_range(s, i, mid), ..st }));
            }
        }
    }
}

/// Escaping depends only on the characters in the range.
pub proof fn lemma_escape_range_congruent(s1: Seq<char>, i1: int, s2: Seq<char>, i2: int, n: int)
    requires
        0 <= n,
        forall|k: int| 0 <= k < n ==> s1[#[trigger] (i1 + k)] == s2[i2 + k],
    ensures
        escape_range(s1, i1, i1 + n) == escape_range(s2, i2, i2 + n),
    decreases n,
{
    if n > 0 {
        assert(s1[i1 + 0] == s2[i2 + 0]);
        assert forall|k: int| 0 <= k < n - 1 implies s1[#[trigger] (i1 + 1 + k)] == s2[i2 + 1 + k] by {
            assert(s1[i1 + (k + 1)] == s2[i2 + (k + 1)]);
        }
        lemma_escape_range_congruent(s1, i1 + 1, s2, i2 + 1, n - 1);
        assert(escape_range(s1, i1, i1 + n) =~= escape_range(s2, i2, i2 + n));
    } else {
        assert(escape_range(s1, i1, i1 + n) =~= escape_range(s2, i2, i2 + n));
    }
}

/// The formatting attribute a toggle control character drives, if any.
pub open spec fn toggle_fmt_of(c: char) -> Option<Formatting> {
    if c == '\u{2}' {
        Some(Formatting::Bold)
    } else if c == '\u{1d}' {
        Some(Formatting::Italic)
    } else if c == '\u{1f}' {
        Some(Formatting::Underline)
    } else if c == '\u{1e}' {
        Some(Formatting::Strikethrough)
    } else if c == '\u{11}' {
        Some(Formatting::Monospace)
    } else {
        None
    }
}

/// With no formatting instructions and no URL candidates in the input,
/// converting a message only escapes it: the output is the input with each
/// markup-significant character backslash-prefixed, and nothing else.
pub proof fn lemma_convert_escapes(s: Seq<char>)
    requires
        control_free(s, 0, s.len() as int),
        url_candidates(s) == Seq::<(int, int)>::empty(),
    ensures
        convert_spec(s) == escape_range(s, 0, s.len() as int),
{
    let st1 = segments_state(init_state(), s, url_candidates(s), 0);
    lemma_push_control_free(init_state(), s, 0, s.len() as int);
    assert(st1.stack =~= Seq::<Formatting>::empty());
    assert(markers_rev(Seq::<Formatting>::empty()) == Seq::<char>::empty());
    assert(st1.out =~= escape_range(s, 0, s.len() as int));
    assert(process_token_spec(st1, TokenV::Reset).out =~= st1.out);
}

/// Converting the empty message yields the empty message.
pub proof fn lemma_convert_empty()
    ensures
        convert_spec(Seq::<char>::empty()) == Seq::<char>::empty(),
{
    let s = Seq::<char>::empty();
    assert(next_match(s, 0) is None);
    assert(url_candidates(s) == Seq::<(int, int)>::empty());
    lemma_convert_escapes(s);
    assert(escape_range(s, 0, 0) == Seq::<char>::empty());
}

/// Toggle round-trip: a message that wraps otherwise plain text in one
/// toggle's control character on both sides converts to exactly one pair
/// of that attribute's delimiters around the escaped text. The final
/// implicit reset leaves nothing open, so no state leaks into any later
/// message: each conversion starts fresh.
pub proof fn lemma_toggle_round_trip(c: char, f: Formatting, s: Seq<char>)
    requires
        toggle_fmt_of(c) == Some(f),
        control_free(s, 0, s.len() as int),
        url_candidates(seq![c] + s + seq![c]) == Seq::<(int, int)>::empty(),
    ensures
        convert_spec(seq![c] + s + seq![c]) == marker(f) + escape_range(
            s,
            0,
            s.len() as int,
        ) + marker(f),
{
    let full = seq![c] + s + seq![c];
    let l = full.len() as int;
    assert(l == s.len() + 2);
    assert(full[0] == c);
    assert(full[l - 1] == c);
    assert(is_special_char(c));
    assert forall|k: int| 1 <= k < l - 1 implies !is_control_char(#[trigger] full[k]) by {
        assert(full[k] == s[k - 1]);
    }
    // The first control character opens the attribute.
    let st0 = init_state();
    let (t0, j0) = spec_read_one(full, 0, l);
    assert(j0 == 1);
    assert(!st0.stack.contains(f));
    let st1 = process_token_spec(st0, t0);
    assert(st1 == toggle_spec(st0, f));
    assert(st1.stack =~= seq![f]);
    assert(st1.out =~= marker(f));
    assert(push_state(st0, full, 0, l) == push_state(st1, full, 1, l));
    // The plain middle is escaped.
    lemma_push_until_special(st1, full, 1, l - 1, l);
    let st2 = ConvState { out: st1.out + escape_range(full, 1, l - 1), ..st1 };
    // The second control character closes the attribute in place.
    let (t2, j2) = spec_read_one(full, l - 1, l);
    assert(j2 == l);
    let st3 = process_token_spec(st2, t2);
    assert(st3 == toggle_spec(st2, f));
    assert(st2.stack.contains(f)) by {
        assert(st2.stack[0] == f);
    }
    assert(crate::state::find_fmt(st2.stack, f) == 0);
    assert(st2.stack.subrange(0, 1) =~= seq![f]);
    assert(st2.stack.subrange(1, 1) =~= Seq::<Formatting>::empty());
    assert(markers_rev(seq![f]) =~= marker(f)) by {
        assert(seq![f].drop_last() =~= Seq::<Formatting>::empty());
        assert(markers_rev(Seq::<Formatting>::empty()) == Seq::<char>::empty());
    }
    assert(markers_fwd(Seq::<Formatting>::empty()) == Seq::<char>::empty());
    assert(st3.stack =~= Seq::<Formatting>::empty());
    assert(st3.out =~= st2.out + marker(f));
    assert(push_state(st2, full, l - 1, l) == push_state(st3, full, l, l));
    assert(push_state(st3, full, l, l) == st3);
    // Nothing is open at the end, so the implicit reset adds nothing.
    let st4 = process_token_spec(st3, TokenV::Reset);
    assert(st4.out =~= st3.out);
    assert(convert_spec(full) == st4.out);
    // The escaped middle of the padded message is the escaped text itself.
    assert(escape_range(full, 1, l - 1) == escape_range(s, 0, s.len() as int)) by {
        assert forall|k: int| 0 <= k < s.len() implies full[#[trigger] (1 + k)] == s[0 + k] by {
            assert(full[1 + k] == s[k]);
        }
        lemma_escape_range_congruent(full, 1, s, 0, s.len() as int);
    }
    assert(convert_spec(full) =~= marker(f) + escape_range(s, 0, s.len() as int) + marker(f));
}

/// Closing a toggle in the middle of the stack keeps the outer ones open:
/// in a message that opens bold, then italic, then closes bold between two
/// stretches of plain text, the second stretch is still italicized in the
/// output, and the italic is closed once by the implicit reset at the end.
pub proof fn lemma_nested_toggles(x: Seq<char>, y: Seq<char>)
    requires
        control_free(x, 0, x.len() as int),
        control_free(y, 0, y.len() as int),
        url_candidates(
            seq!['\u{2}', '\u{1d}'] + x + seq!['\u{2}'] + y,
        ) == Seq::<(int, int)>::empty(),
    ensures
        convert_spec(seq!['\u{2}', '\u{1d}'] + x + seq!['\u{2}'] + y) == marker(Formatting::Bold)
            + marker(Formatting::Italic) + escape_range(x, 0, x.len() as int) + marker(
            Formatting::Italic,
        ) + marker(Formatting::Bold) + marker(Formatting::Italic) + escape_range(
            y,
            0,
            y.len() as int,
        ) + marker(Formatting::Italic),
{
    let bold = Formatting::Bold;
    let italic = Formatting::Italic;
    let xl = x.len() as int;
    let yl = y.len() as int;
    let full = seq!['\u{2}', '\u{1d}'] + x + seq!['\u{2}'] + y;
    let l = full.len() as int;
    let mid = 2 + xl;
    assert(l == xl + yl + 3);
    assert(full[0] == '\u{2}');
    assert(full[1] == '\u{1d}');
    assert(full[mid] == '\u{2}');
    assert forall|k: int| 2 <= k < mid implies full[k] == x[k - 2] && !is_control_char(
        #[trigger] full[k],
    ) by {
        assert(full[k] == x[k - 2]);
    }
    assert forall|k: int| mid < k < l implies full[k] == y[k - mid - 1] && !is_control_char(
        #[trigger] full[k],
    ) by {
        assert(full[k] == y[k - mid - 1]);
    }
    // Open bold, then italic.
    let st0 = init_state();
    let (t0, j0) = spec_read_one(full, 0, l);
    assert(j0 == 1);
    let st1 = process_token_spec(st0, t0);
    assert(!st0.stack.contains(bold));
    assert(st1.stack =~= seq![bold]);
    assert(st1.out =~= marker(bold));
    let (t1, j1) = spec_read_one(full, 1, l);
    assert(j1 == 2);
    let st2 = process_token_spec(st1, t1);
    assert(st2 == toggle_spec(st1, italic));
    assert(!st1.stack.contains(italic)) by {
        if st1.stack.contains(italic) {
            let i = choose|i: int| 0 <= i < st1.stack.len() && st1.stack[i] == italic;
            assert(st1.stack[0] == bold);
        }
    }
    assert(st1.stack.last() == bold);
    assert(st2.stack =~= seq![bold, italic]);
    assert(st2.out =~= marker(bold) + marker(italic));
    // The first plain stretch is escaped under both attributes.
    lemma_push_until_special(st2, full, 2, mid, l);
    let st3 = ConvState { out: st2.out + escape_range(full, 2, mid), ..st2 };
    // Closing bold closes italic too, then reopens it.
    let (t3, j3) = spec_read_one(full, mid, l);
    assert(j3 == mid + 1);
    let st4 = process_token_spec(st3, t3);
    assert(st4 == toggle_spec(st3, bold));
    assert(st3.stack.contains(bold)) by {
        assert(st3.stack[0] == bold);
    }
    assert(crate::state::find_fmt(st3.stack, bold) == 0);
    assert(st3.stack.subrange(0, 2) =~= seq![bold, italic]);
    assert(st3.stack.subrange(1, 2) =~= seq![italic]);
    assert(markers_rev(seq![bold, italic]) =~= marker(italic) + marker(bold)) by {
        assert(seq![bold, italic].drop_last() =~= seq![bold]);
        assert(seq![bold].drop_last() =~= Seq::<Formatting>::empty());
        assert(markers_rev(Seq::<Formatting>::empty()) == Seq::<char>::empty());
        assert(markers_rev(seq![bold]) == marker(bold) + Seq::<char>::empty());
        assert(markers_rev(seq![bold, italic]) == marker(italic) + (marker(bold)
            + Seq::<char>::empty()));
    }
    assert(markers_fwd(seq![italic]) =~= marker(italic)) by {
        assert(seq![italic].drop_first() =~= Seq::<Formatting>::empty());
        assert(markers_fwd(Seq::<Formatting>::empty()) == Seq::<char>::empty());
    }
    assert(st4.stack =~= seq![italic]) by {
        assert(st3.stack.remove(0) =~= seq![italic]);
    }
    assert(st4.out =~= st3.out + (marker(italic) + marker(bold)) + marker(italic));
    // The second plain stretch is escaped with italic still open.
    lemma_push_control_free(st4, full, mid + 1, l);
    let st5 = ConvState { out: st4.out + escape_range(full, mid + 1, l), ..st4 };
    // The implicit reset closes the italic that is still open.
    let st6 = process_token_spec(st5, TokenV::Reset);
    assert(markers_rev(seq![italic]) =~= marker(italic)) by {
        assert(seq![italic].drop_last() =~= Seq::<Formatting>::empty());
        assert(markers_rev(Seq::<Formatting>::empty()) == Seq::<char>::empty());
    }
    assert(st6.out =~= st5.out + marker(italic));
    // Chain the steps together.
    assert(push_state(st0, full, 0, l) == push_state(st1, full, 1, l));
    assert(push_state(st1, full, 1, l) == push_state(st2, full, 2, l));
    assert(push_state(st3, full, mid, l) == push_state(st4, full, mid + 1, l));
    assert(push_state(st4, full, mid + 1, l) == st5);
    assert(convert_spec(full) == st6.out);
    // Each plain stretch of the padded message escapes as the stretch
    // itself.
    assert(escape_range(full, 2, mid) == escape_range(x, 0, xl)) by {
        assert forall|k: int| 0 <= k < xl implies full[#[trigger] (2 + k)] == x[0 + k] by {
            assert(full[2 + k] == x[k]);
        }
        lemma_escape_range_congruent(full, 2, x, 0, xl);
    }
    assert(escape_range(full, mid + 1, l) == escape_range(y, 0, yl)) by {
        assert forall|k: int| 0 <= k < yl implies full[#[trigger] (mid + 1 + k)] == y[0 + k] by {
            assert(full[mid + 1 + k] == y[k]);
        }
        lemma_escape_range_congruent(full, mid + 1, y, 0, yl);
    }
    assert(convert_spec(full) =~= marker(bold) + marker(italic) + escape_range(x, 0, xl)
        + marker(italic) + marker(bold) + marker(italic) + escape_range(y, 0, yl) + marker(
        italic,
    ));
}

/// No attribute is open twice.
pub open spec fn stack_no_dup(ss: Seq<Formatting>) -> bool {
    forall|i: int, j: int| 0 <= i < j < ss.len() ==> ss[i] != ss[j]
}

/// A reachable converter state: no attribute is open twice, and the
/// spoiler attribute is open exactly when the colors denote hidden text.
pub open spec fn state_wf(st: ConvState) -> bool {
    stack_no_dup(st.stack) && (st.stack.contains(Formatting::Spoiler) <==> is_spoiler(
        st.fg,
        st.bg,
    ))
}

/// A fresh conversion starts well-formed.
pub proof fn lemma_init_wf()
    ensures
        state_wf(init_state()),
{
    assert(!init_state().stack.contains(Formatting::Spoiler)) by {
        if init_state().stack.contains(Formatting::Spoiler) {
            let i = choose|i: int|
                0 <= i < init_state().stack.len() && init_state().stack[i]
                    == Formatting::Spoiler;
        }
    }
}

/// Toggling flips exactly the toggled attribute's membership, keeps every
/// other attribute's, keeps the stack duplicate-free, and leaves the
/// colors alone.
pub proof fn lemma_toggle_membership(st: ConvState, f: Formatting)
    requires
        stack_no_dup(st.stack),
    ensures
        stack_no_dup(toggle_spec(st, f).stack),
        toggle_spec(st, f).stack.contains(f) <==> !st.stack.contains(f),
        forall|g: Formatting|
            g != f ==> (toggle_spec(st, f).stack.contains(g) <==> st.stack.contains(g)),
        toggle_spec(st, f).fg == st.fg,
        toggle_spec(st, f).bg == st.bg,
{
    let ss = st.stack;
    let st2 = toggle_spec(st, f);
    let ss2 = st2.stack;
    if ss.contains(f) {
        let idx = crate::state::find_fmt(ss, f);
        crate::state::lemma_find_fmt(ss, f);
        assert(ss2 == ss.remove(idx));
        assert forall|k: int| 0 <= k < ss2.len() implies #[trigger] ss2[k] != f by {
            if k < idx {
                assert(ss2[k] == ss[k]);
            } else {
                assert(ss2[k] == ss[k + 1]);
            }
        }
        assert(!ss2.contains(f)) by {
            if ss2.contains(f) {
                let k = choose|k: int| 0 <= k < ss2.len() && ss2[k] == f;
                assert(ss2[k] != f);
            }
        }
        assert forall|g: Formatting| g != f implies (ss2.contains(g) <==> ss.contains(g)) by {
            if ss2.contains(g) {
                let k = choose|k: int| 0 <= k < ss2.len() && ss2[k] == g;
                if k < idx {
                    assert(ss[k] == g);
                } else {
                    assert(ss[k + 1] == g);
                }
            }
            if ss.contains(g) {
                let k = choose|k: int| 0 <= k < ss.len() && ss[k] == g;
                assert(k != idx);
                if k < idx {
                    assert(ss2[k] == g);
                } else {
                    assert(ss2[k - 1] == g);
                }
            }
        }
        assert forall|i: int, j: int| 0 <= i < j < ss2.len() implies ss2[i] != ss2[j] by {
            let i0 = if i < idx {
                i
            } else {
                i + 1
            };
            let j0 = if j < idx {
                j
            } else {
                j + 1
            };
            assert(ss2[i] == ss[i0]);
            assert(ss2[j] == ss[j0]);
        }
    } else if f != Formatting::Monospace && ss.len() > 0 && ss.last() == Formatting::Monospace {
        let base = ss.drop_last();
        assert(ss2 == base.push(f).push(Formatting::Monospace));
        assert(!base.contains(f)) by {
            if base.contains(f) {
                let k = choose|k: int| 0 <= k < base.len() && base[k] == f;
                assert(ss[k] == f);
            }
        }
        assert(!base.contains(Formatting::Monospace)) by {
            if base.contains(Formatting::Monospace) {
                let k = choose|k: int| 0 <= k < base.len() && base[k] == Formatting::Monospace;
                assert(ss[k] == ss[ss.len() - 1]);
            }
        }
        assert(ss2.contains(f)) by {
            assert(ss2[base.len() as int] == f);
        }
        assert forall|g: Formatting| g != f implies (ss2.contains(g) <==> ss.contains(g)) by {
            if ss2.contains(g) {
                let k = choose|k: int| 0 <= k < ss2.len() && ss2[k] == g;
                if k < base.len() {
                    assert(ss[k] == g);
                } else {
                    assert(g == Formatting::Monospace);
                    assert(ss[ss.len() - 1] == g);
                }
            }
            if ss.contains(g) {
                let k = choose|k: int| 0 <= k < ss.len() && ss[k] == g;
                if k < ss.len() - 1 {
                    assert(ss2[k] == g);
                } else {
                    assert(g == Formatting::Monospace);
                    assert(ss2[ss2.len() - 1] == g);
                }
            }
        }
        assert forall|i: int, j: int| 0 <= i < j < ss2.len() implies ss2[i] != ss2[j] by {
            if j < base.len() {
                assert(ss2[i] == ss[i] && ss2[j] == ss[j]);
            } else if j == base.len() {
                assert(ss2[j] == f);
                assert(ss2[i] == ss[i]);
                assert(!ss.contains(f) ==> ss[i] != f) by {
                    if ss[i] == f {
                        assert(ss.contains(f));
                    }
                }
            } else {
                assert(ss2[j] == Formatting::Monospace);
                if i < base.len() {
                    assert(ss2[i] == ss[i]);
                    assert(base[i] == ss[i]);
                    assert(ss2[i] != Formatting::Monospace);
                } else {
                    assert(ss2[i] == f);
                }
            }
        }
    } else {
        assert(ss2 == ss.push(f));
        assert(ss2.contains(f)) by {
            assert(ss2[ss.len() as int] == f);
        }
        assert forall|g: Formatting| g != f implies (ss2.contains(g) <==> ss.contains(g)) by {
            if ss2.contains(g) {
                let k = choose|k: int| 0 <= k < ss2.len() && ss2[k] == g;
                assert(k < ss.len());
                assert(ss[k] == g);
            }
            if ss.contains(g) {
                let k = choose|k: int| 0 <= k < ss.len() && ss[k] == g;
                assert(ss2[k] == g);
            }
        }
        assert forall|i: int, j: int| 0 <= i < j < ss2.len() implies ss2[i] != ss2[j] by {
            if j < ss.len() {
                assert(ss2[i] == ss[i] && ss2[j] == ss[j]);
            } else {
                assert(ss2[j] == f);
                assert(ss2[i] == ss[i]);
                if ss[i] == f {
                    assert(ss.contains(f));
                }
            }
        }
    }
}

/// A color instruction toggles the spoiler attribute exactly when the
/// hidden-text predicate flips: setting equal foreground and background
/// opens the spoiler (once, since no attribute is ever open twice);
/// setting them apart again closes it; and a color instruction that does
/// not flip the predicate emits nothing and leaves the stack alone.
pub proof fn lemma_spoiler_transition(st: ConvState, fg: Option<u8>, bg: Option<u8>)
    requires
        state_wf(st),
    ensures
        state_wf(update_color_spec(st, fg, bg)),
        update_color_spec(st, fg, bg).stack.contains(Formatting::Spoiler) <==> is_spoiler(
            update_color_spec(st, fg, bg).fg,
            update_color_spec(st, fg, bg).bg,
        ),
        is_spoiler(update_color_spec(st, fg, bg).fg, update_color_spec(st, fg, bg).bg)
            == is_spoiler(st.fg, st.bg) ==> update_color_spec(st, fg, bg).stack == st.stack
            && update_color_spec(st, fg, bg).out == st.out,
{
    let spoil_before = is_spoiler(st.fg, st.bg);
    let bg2 = if fg is None || bg is Some {
        bg
    } else {
        st.bg
    };
    let stc = ConvState { fg, bg: bg2, ..st };
    if spoil_before != is_spoiler(fg, bg2) {
        lemma_toggle_membership(stc, Formatting::Spoiler);
    }
}

/// Every token leaves a well-formed state well-formed. Together with
/// [`lemma_init_wf`] this makes `state_wf` an invariant of every
/// conversion: the spoiler attribute tracks the colors, and no attribute
/// is ever open twice.
pub proof fn lemma_token_preserves_wf(st: ConvState, t: TokenV)
    requires
        state_wf(st),
    ensures
        state_wf(process_token_spec(st, t)),
{
    match t {
        TokenV::Text(_) => {},
        TokenV::Bold => lemma_toggle_membership(st, Formatting::Bold),
        TokenV::Italic => lemma_toggle_membership(st, Formatting::Italic),
        TokenV::Underline => lemma_toggle_membership(st, Formatting::Underline),
        TokenV::Strikethrough => lemma_toggle_membership(st, Formatting::Strikethrough),
        TokenV::Monospace => lemma_toggle_membership(st, Formatting::Monospace),
        TokenV::Color(fg, bg) => lemma_spoiler_transition(st, fg, bg),
        TokenV::ReverseColor => {},
        TokenV::Reset => {
            let st2 = process_token_spec(st, t);
            assert(st2.stack == Seq::<Formatting>::empty());
            assert(!st2.stack.contains(Formatting::Spoiler)) by {
                if st2.stack.contains(Formatting::Spoiler) {
                    let i = choose|i: int|
                        0 <= i < st2.stack.len() && st2.stack[i] == Formatting::Spoiler;
                }
            }
        },
    }
}

/// Tokenizing any stretch of input preserves well-formedness.
pub proof fn lemma_push_preserves_wf(st: ConvState, s: Seq<char>, i: int, end: int)
    requires
        state_wf(st),
    ensures
        state_wf(push_state(st, s, i, end)),
    decreases end - i,
{
    if 0 <= i && i < end && end <= s.len() {
        let (t, j) = spec_read_one(s, i, end);
        if i < j <= end {
            lemma_token_preserves_wf(st, t);
            lemma_push_preserves_wf(process_token_spec(st, t), s, j, end);
        }
    }
}

/// A whole URL-segmented pass preserves well-formedness: during any
/// conversion, from the fresh state to the final reset, the spoiler
/// attribute tracks the colors and no attribute is ever open twice.
pub proof fn lemma_segments_preserves_wf(
    st: ConvState,
    s: Seq<char>,
    cands: Seq<(int, int)>,
    last: int,
)
    requires
        state_wf(st),
    ensures
        state_wf(segments_state(st, s, cands, last)),
    decreases cands.len(),
{
    if cands.len() == 0 {
        lemma_push_preserves_wf(st, s, last, s.len() as int);
    } else {
        let (a, b) = cands[0];
        let st1 = push_state(st, s, last, a);
        lemma_push_preserves_wf(st, s, last, a);
        let st2 = if url_parse_ok(s.subrange(a, b)) {
            ConvState { out: st1.out + s.subrange(a, b), ..st1 }
        } else {
            push_state(st1, s, a, b)
        };
        if !url_parse_ok(s.subrange(a, b)) {
            lemma_push_preserves_wf(st1, s, a, b);
        }
        lemma_segments_preserves_wf(st2, s, cands.drop_first(), b);
    }
}

} // verus!
