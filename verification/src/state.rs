//! The converter's formatting state and its mathematical transition rules.
//!
//! A conversion carries an ordered stack of open formatting attributes, an
//! optional foreground and background color, and the output accumulated so
//! far. Every token of input maps to one state transition, written here as
//! spec functions; the executable converter is proved to follow them step
//! by step.

use vstd::prelude::*;

use crate::tokens::TokenV;

verus! {

/// A formatting attribute of the output markup. `Spoiler` has no input
/// control character of its own: it is derived from the color state.
#[derive(Clone, Copy, Debug, PartialEq, Eq, Structural)]
pub enum Formatting {
    Bold,
    Italic,
    Underline,
    Strikethrough,
    Monospace,
    Spoiler,
}

/// The markup delimiter that opens and closes an attribute.
pub open spec fn marker(f: Formatting) -> Seq<char> {
    match f {
        Formatting::Bold => seq!['*', '*'],
        Formatting::Italic => seq!['*'],
        Formatting::Underline => seq!['_', '_'],
        Formatting::Strikethrough => seq!['~', '~'],
        Formatting::Monospace => seq!['`'],
        Formatting::Spoiler => seq!['|', '|'],
    }
}

impl Formatting {
    /// The markup delimiter as a string.
    pub fn as_str(&self) -> (s: &'static str)
        ensures
            s@ == marker(*self),
    {
        let s: &'static str = match self {
            Formatting::Bold => "**",
            Formatting::Italic => "*",
            Formatting::Underline => "__",
            Formatting::Strikethrough => "~~",
            Formatting::Monospace => "`",
            Formatting::Spoiler => "||",
        };
        proof {
            reveal_strlit("**");
            reveal_strlit("*");
            reveal_strlit("__");
            reveal_strlit("~~");
            reveal_strlit("`");
            reveal_strlit("||");
            assert(s@ =~= marker(*self));
        }
        s
    }
}

/// Appends the markup delimiter of `f` to a character buffer.
pub fn push_marker(buf: &mut Vec<char>, f: Formatting)
    ensures
        final(buf)@ == old(buf)@ + marker(f),
{
    match f {
        Formatting::Bold => {
            buf.push('*');
            buf.push('*');
        },
        Formatting::Italic => {
            buf.push('*');
        },
        Formatting::Underline => {
            buf.push('_');
            buf.push('_');
        },
        Formatting::Strikethrough => {
            buf.push('~');
            buf.push('~');
        },
        Formatting::Monospace => {
            buf.push('`');
        },
        Formatting::Spoiler => {
            buf.push('|');
            buf.push('|');
        },
    }
    proof {
        assert(buf@ =~= old(buf)@ + marker(f));
    }
}

/// The full state of one conversion: open attributes in opening order, the
/// current colors, and the output written so far.
#[verifier::ext_equal]
pub struct ConvState {
    pub stack: Seq<Formatting>,
    pub fg: Option<u8>,
    pub bg: Option<u8>,
    pub out: Seq<char>,
}

/// The state a conversion starts in: nothing open, no colors, empty output.
pub open spec fn init_state() -> ConvState {
    ConvState { stack: Seq::empty(), fg: None, bg: None, out: Seq::empty() }
}

/// A color pair denotes hidden ("spoiler") text exactly when a foreground
/// is set and equals the background.
pub open spec fn is_spoiler(fg: Option<u8>, bg: Option<u8>) -> bool {
    fg is Some && fg == bg
}

/// The delimiters of `ss`, emitted from the top of the stack down: the
/// closing text for a run of open attributes.
pub open spec fn markers_rev(ss: Seq<Formatting>) -> Seq<char>
    decreases ss.len(),
{
    if ss.len() == 0 {
        Seq::empty()
    } else {
        marker(ss.last()) + markers_rev(ss.drop_last())
    }
}

/// The delimiters of `ss` in stack order: the text that reopens a run of
/// attributes.
pub open spec fn markers_fwd(ss: Seq<Formatting>) -> Seq<char>
    decreases ss.len(),
{
    if ss.len() == 0 {
        Seq::empty()
    } else {
        marker(ss[0]) + markers_fwd(ss.drop_first())
    }
}

/// The index of the first occurrence of `f` in `ss`, or `ss.len()` if `f`
/// does not occur.
pub open spec fn find_fmt(ss: Seq<Formatting>, f: Formatting) -> int
    decreases ss.len(),
{
    if ss.len() == 0 {
        0
    } else if ss[0] == f {
        0
    } else {
        1 + find_fmt(ss.drop_first(), f)
    }
}

pub proof fn lemma_find_fmt(ss: Seq<Formatting>, f: Formatting)
    ensures
        0 <= find_fmt(ss, f) <= ss.len(),
        ss.contains(f) <==> find_fmt(ss, f) < ss.len(),
        find_fmt(ss, f) < ss.len() ==> ss[find_fmt(ss, f)] == f,
        forall|j: int| 0 <= j < find_fmt(ss, f) ==> ss[j] != f,
    decreases ss.len(),
{
    if ss.len() > 0 && ss[0] != f {
        lemma_find_fmt(ss.drop_first(), f);
        assert(ss.contains(f) ==> ss.drop_first().contains(f)) by {
            if ss.contains(f) {
                let i = choose|i: int| 0 <= i < ss.len() && ss[i] == f;
                assert(ss.drop_first()[i - 1] == f);
            }
        }
        assert(ss.drop_first().contains(f) ==> ss.contains(f)) by {
            if ss.drop_first().contains(f) {
                let i = choose|i: int| 0 <= i < ss.drop_first().len() && ss.drop_first()[i] == f;
                assert(ss[i + 1] == f);
            }
        }
        assert forall|j: int| 0 <= j < find_fmt(ss, f) implies ss[j] != f by {
            if j > 0 {
                assert(ss.drop_first()[j - 1] != f);
            }
        }
    }
}

/// Toggling attribute `f`:
/// - if `f` is open, every attribute from `f` up is closed (top first), `f`
///   is dropped, and the attributes that sat above `f` are reopened in
///   their old order;
/// - else, if the top of the stack is monospace, monospace is closed, `f`
///   opened, and monospace reopened, keeping `f`'s delimiter outside the
///   monospace span;
/// - else `f` is simply opened.
pub open spec fn toggle_spec(st: ConvState, f: Formatting) -> ConvState {
    let ss = st.stack;
    if ss.contains(f) {
        let idx = find_fmt(ss, f);
        ConvState {
            stack: ss.remove(idx),
            out: st.out + markers_rev(ss.subrange(idx, ss.len() as int)) + markers_fwd(
                ss.subrange(idx + 1, ss.len() as int),
            ),
            ..st
        }
    } else if f != Formatting::Monospace && ss.len() > 0 && ss.last() == Formatting::Monospace {
        ConvState {
            stack: ss.drop_last().push(f).push(Formatting::Monospace),
            out: st.out + marker(Formatting::Monospace) + marker(f) + marker(
                Formatting::Monospace,
            ),
            ..st
        }
    } else {
        ConvState { stack: ss.push(f), out: st.out + marker(f), ..st }
    }
}

/// A color instruction: the foreground is always replaced; the background
/// is replaced only when one was supplied explicitly or when no foreground
/// was supplied. If the spoiler predicate flips, the spoiler attribute is
/// toggled.
pub open spec fn update_color_spec(st: ConvState, new_fg: Option<u8>, new_bg: Option<u8>) -> ConvState {
    let spoil_before = is_spoiler(st.fg, st.bg);
    let bg2 = if new_fg is None || new_bg is Some {
        new_bg
    } else {
        st.bg
    };
    let st2 = ConvState { fg: new_fg, bg: bg2, ..st };
    if spoil_before != is_spoiler(new_fg, bg2) {
        toggle_spec(st2, Formatting::Spoiler)
    } else {
        st2
    }
}

/// A reset: every open attribute is closed, most recently opened first, and
/// both colors are cleared.
pub open spec fn reset_spec(st: ConvState) -> ConvState {
    ConvState { stack: Seq::empty(), fg: None, bg: None, out: st.out + markers_rev(st.stack) }
}

/// The transition one token makes.
pub open spec fn process_token_spec(st: ConvState, t: TokenV) -> ConvState {
    match t {
        TokenV::Text(txt) => ConvState { out: st.out + txt, ..st },
        TokenV::Bold => toggle_spec(st, Formatting::Bold),
        TokenV::Italic => toggle_spec(st, Formatting::Italic),
        TokenV::Underline => toggle_spec(st, Formatting::Underline),
        TokenV::Strikethrough => toggle_spec(st, Formatting::Strikethrough),
        TokenV::Monospace => toggle_spec(st, Formatting::Monospace),
        TokenV::Color(f, b) => update_color_spec(st, f, b),
        TokenV::ReverseColor => ConvState { fg: st.bg, bg: st.fg, ..st },
        TokenV::Reset => reset_spec(st),
    }
}

/// Peeling `markers_rev` from the front instead of the back.
pub proof fn lemma_markers_rev_head(ss: Seq<Formatting>)
    requires
        ss.len() > 0,
    ensures
        markers_rev(ss) == markers_rev(ss.drop_first()) + marker(ss[0]),
    decreases ss.len(),
{
    if ss.len() == 1 {
        assert(ss.drop_last() =~= ss.drop_first());
        assert(markers_rev(ss) =~= markers_rev(ss.drop_first()) + marker(ss[0]));
    } else {
        let dl = ss.drop_last();
        lemma_markers_rev_head(dl);
        assert(dl.drop_first() =~= ss.drop_first().drop_last());
        assert(ss.drop_first().last() == ss.last());
        assert(markers_rev(ss) == marker(ss.last()) + (markers_rev(dl.drop_first()) + marker(
            ss[0],
        )));
        assert(markers_rev(ss.drop_first()) == marker(ss.last()) + markers_rev(
            ss.drop_first().drop_last(),
        ));
        assert(markers_rev(ss) =~= markers_rev(ss.drop_first()) + marker(ss[0]));
    }
}

/// Peeling `markers_fwd` from the back instead of the front.
pub proof fn lemma_markers_fwd_snoc(ss: Seq<Formatting>, x: Formatting)
    ensures
        markers_fwd(ss.push(x)) == markers_fwd(ss) + marker(x),
    decreases ss.len(),
{
    if ss.len() == 0 {
        assert(ss.push(x)[0] == x);
        assert(ss.push(x).drop_first() =~= Seq::<Formatting>::empty());
        assert(markers_fwd(Seq::<Formatting>::empty()) == Seq::<char>::empty());
        assert(markers_fwd(ss.push(x)) == marker(x) + Seq::<char>::empty());
        assert(markers_fwd(ss.push(x)) =~= markers_fwd(ss) + marker(x));
    } else {
        lemma_markers_fwd_snoc(ss.drop_first(), x);
        assert(ss.push(x).drop_first() =~= ss.drop_first().push(x));
        assert(ss.push(x)[0] == ss[0]);
        assert(markers_fwd(ss.push(x)) == marker(ss[0]) + (markers_fwd(ss.drop_first()) + marker(
            x,
        )));
        assert(markers_fwd(ss) == marker(ss[0]) + markers_fwd(ss.drop_first()));
        assert((marker(ss[0]) + (markers_fwd(ss.drop_first()) + marker(x))) =~= ((marker(ss[0])
            + markers_fwd(ss.drop_first())) + marker(x)));
        assert(markers_fwd(ss.push(x)) == markers_fwd(ss) + marker(x));
    }
}

} // verus!
