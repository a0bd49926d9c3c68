//! Nickname helpers.
//!
//! [`normalize_irc_nickname`] maps the characters that IRC treats as
//! protocol syntax to lookalikes, and [`insert_zero_width_spaces_into_nickname`]
//! inserts zero-width spaces at grapheme-cluster boundaries so that a
//! relayed display name no longer matches the exact nickname and so does
//! not trigger mention notifications. Separators are inserted only at
//! cluster boundaries, so a multi-byte character or a base-plus-combining
//! sequence is never split, and removing the separators again restores the
//! name exactly.

use vstd::prelude::*;

use crate::chars::{chars_of, str_eq, string_from_chars};
use unicode_segmentation::UnicodeSegmentation;

verus! {

/// Whether a list of names holds one with exactly these characters.
pub open spec fn name_in(names: Seq<String>, t: Seq<char>) -> bool {
    exists|i: int| 0 <= i < names.len() && names[i]@ == t
}

/// Whether `target` occurs in `names`.
pub fn contains_name(names: &Vec<String>, target: &str) -> (r: bool)
    ensures
        r == name_in(names@, target@),
{
    let n = names.len();
    let mut i: usize = 0;
    while i < n
        invariant
            i <= n == names@.len(),
            forall|j: int| 0 <= j < i ==> names@[j]@ != target@,
        decreases n - i,
    {
        if str_eq(names[i].as_str(), target) {
            proof {
                assert(names@[i as int]@ == target@);
            }
            return true;
        }
        i = i + 1;
    }
    proof {
        if name_in(names@, target@) {
            let j = choose|j: int| 0 <= j < names@.len() && names@[j]@ == target@;
            assert(names@[j]@ != target@);
        }
    }
    false
}

/// The zero-width space used as an invisible separator.
pub open spec fn zwsp_char() -> char {
    '\u{200B}'
}

/// What one nickname character is replaced by: `!`, `@` and space become
/// lookalikes that IRC does not treat as protocol syntax.
pub open spec fn normalize_char(c: char) -> char {
    if c == '!' {
        '\u{1C3}'
    } else if c == '@' {
        '\u{FF20}'
    } else if c == ' ' {
        '_'
    } else {
        c
    }
}

/// Replaces `!`, `@` and space in a nickname by lookalike characters.
pub fn normalize_irc_nickname(s: &str) -> (r: String)
    ensures
        r@ == s@.map_values(|c: char| normalize_char(c)),
{
    let chars = chars_of(s);
    let n = chars.len();
    let mut out: Vec<char> = Vec::new();
    let mut i: usize = 0;
    while i < n
        invariant
            i <= n == chars@.len(),
            chars@ == s@,
            out@.len() == i,
            forall|j: int| 0 <= j < i ==> out@[j] == normalize_char(s@[j]),
        decreases n - i,
    {
        let c = chars[i];
        let d: char = if c == '!' {
            '\u{1C3}'
        } else if c == '@' {
            '\u{FF20}'
        } else if c == ' ' {
            '_'
        } else {
            c
        };
        out.push(d);
        i = i + 1;
    }
    proof {
        assert(out@ =~= s@.map_values(|c: char| normalize_char(c)));
    }
    string_from_chars(&out)
}

/// The concatenation of the cluster sequences with indices in `i..j`.
pub open spec fn concat_range(cs: Seq<Seq<char>>, i: int, j: int) -> Seq<char>
    decreases j - i,
{
    if i < j {
        cs[i] + concat_range(cs, i + 1, j)
    } else {
        Seq::empty()
    }
}

/// A range of one cluster concatenates to that cluster alone.
pub proof fn lemma_concat_range_one(cs: Seq<Seq<char>>, k: int)
    ensures
        concat_range(cs, k, k + 1) == cs[k],
{
    assert(concat_range(cs, k + 1, k + 1) == Seq::<char>::empty());
    assert(concat_range(cs, k, k + 1) =~= cs[k]);
}

/// Concatenation over a range splits at any point inside it.
pub proof fn lemma_concat_range_split(cs: Seq<Seq<char>>, i: int, k: int, j: int)
    requires
        i <= k <= j,
    ensures
        concat_range(cs, i, j) == concat_range(cs, i, k) + concat_range(cs, k, j),
    decreases k - i,
{
    if i == k {
        assert(concat_range(cs, i, k) == Seq::<char>::empty());
        assert(concat_range(cs, i, j) =~= concat_range(cs, i, k) + concat_range(cs, k, j));
    } else {
        lemma_concat_range_split(cs, i + 1, k, j);
        assert(concat_range(cs, i, j) == cs[i] + (concat_range(cs, i + 1, k) + concat_range(
            cs,
            k,
            j,
        )));
        assert(concat_range(cs, i, k) == cs[i] + concat_range(cs, i + 1, k));
        assert(concat_range(cs, i, j) =~= concat_range(cs, i, k) + concat_range(cs, k, j));
    }
}

/// The grapheme clusters of a string, in order. Exactly where the cluster
/// boundaries of a string lie is a property of the `unicode-segmentation`
/// crate; it depends on the characters alone, and this name stands for it.
pub uninterp spec fn grapheme_clusters(s: Seq<char>) -> Seq<Seq<char>>;

/// The character sequences of a vector of cluster strings.
pub open spec fn cluster_views(v: Seq<String>) -> Seq<Seq<char>> {
    v.map_values(|g: String| g@)
}

/// Relies on `unicode_segmentation`'s `graphemes(true)`: the extended
/// grapheme clusters of a string are nonempty substrings, determined by the
/// string alone, whose concatenation is the original string.
#[verifier::external_body]
fn split_graphemes(s: &str) -> (r: Vec<String>)
    ensures
        cluster_views(r@) == grapheme_clusters(s@),
        concat_range(cluster_views(r@), 0, r@.len() as int) == s@,
        forall|i: int| 0 <= i < r@.len() ==> (#[trigger] r@[i])@.len() > 0,
{
    s.graphemes(true).map(|g| g.to_string()).collect()
}

/// The name with every zero-width space removed.
pub open spec fn strip_zwsp(s: Seq<char>) -> Seq<char>
    decreases s.len(),
{
    if s.len() == 0 {
        Seq::empty()
    } else if s[0] == zwsp_char() {
        strip_zwsp(s.drop_first())
    } else {
        seq![s[0]] + strip_zwsp(s.drop_first())
    }
}

pub proof fn lemma_strip_add(a: Seq<char>, b: Seq<char>)
    ensures
        strip_zwsp(a + b) == strip_zwsp(a) + strip_zwsp(b),
    decreases a.len(),
{
    if a.len() == 0 {
        assert(a + b =~= b);
        assert(strip_zwsp(a) + strip_zwsp(b) =~= strip_zwsp(b));
    } else {
        lemma_strip_add(a.drop_first(), b);
        assert((a + b).drop_first() =~= a.drop_first() + b);
        assert((a + b)[0] == a[0]);
        if a[0] == zwsp_char() {
            assert(strip_zwsp(a + b) == strip_zwsp(a.drop_first() + b));
        } else {
            assert(strip_zwsp(a + b) == seq![a[0]] + (strip_zwsp(a.drop_first()) + strip_zwsp(
                b,
            )));
            assert(strip_zwsp(a + b) =~= strip_zwsp(a) + strip_zwsp(b));
        }
    }
}

/// A name that holds no zero-width space is unchanged by stripping them.
pub proof fn lemma_strip_clean(s: Seq<char>)
    requires
        !s.contains(zwsp_char()),
    ensures
        strip_zwsp(s) == s,
    decreases s.len(),
{
    if s.len() > 0 {
        assert(s[0] != zwsp_char());
        assert(!s.drop_first().contains(zwsp_char())) by {
            if s.drop_first().contains(zwsp_char()) {
                let i = choose|i: int|
                    0 <= i < s.drop_first().len() && s.drop_first()[i] == zwsp_char();
                assert(s[i + 1] == zwsp_char());
            }
        }
        lemma_strip_clean(s.drop_first());
        assert(strip_zwsp(s) =~= s);
    }
}

proof fn lemma_strip_single_zwsp()
    ensures
        strip_zwsp(seq![zwsp_char()]) == Seq::<char>::empty(),
{
    let s = seq![zwsp_char()];
    assert(s.len() == 1 && s[0] == zwsp_char());
    assert(s.drop_first() =~= Seq::<char>::empty());
    assert(strip_zwsp(s.drop_first()) == Seq::<char>::empty());
}

/// What inserting separators yields, as a function of the cluster list: no
/// clusters or a single cluster stay as they are; two clusters get one
/// separator between them; three or more get separators before the
/// clusters at one third and at two thirds of the list.
pub open spec fn insert_seps_spec(cs: Seq<Seq<char>>) -> Seq<char> {
    let n = cs.len() as int;
    if n == 0 {
        Seq::empty()
    } else if n == 1 {
        cs[0]
    } else if n == 2 {
        cs[0] + seq![zwsp_char()] + cs[1]
    } else {
        concat_range(cs, 0, n / 3) + seq![zwsp_char()] + concat_range(cs, n / 3, 2 * n / 3)
            + seq![zwsp_char()] + concat_range(cs, 2 * n / 3, n)
    }
}

/// Appends the characters of the clusters with indices in `from..to`.
fn append_clusters(out: &mut Vec<char>, clusters: &Vec<String>, from: usize, to: usize)
    requires
        from <= to <= clusters@.len(),
    ensures
        final(out)@ == old(out)@ + concat_range(
            cluster_views(clusters@),
            from as int,
            to as int,
        ),
{
    let ghost cs = cluster_views(clusters@);
    let mut k: usize = from;
    proof {
        assert(old(out)@ + concat_range(cs, from as int, from as int) =~= old(out)@);
    }
    while k < to
        invariant
            from <= k <= to <= clusters@.len(),
            cs == cluster_views(clusters@),
            out@ == old(out)@ + concat_range(cs, from as int, k as int),
        decreases to - k,
    {
        let mut piece = chars_of(clusters[k].as_str());
        out.append(&mut piece);
        proof {
            lemma_concat_range_split(cs, from as int, k as int, k + 1);
            lemma_concat_range_one(cs, k as int);
            assert(cs[k as int] == clusters@[k as int]@);
            assert(out@ =~= old(out)@ + concat_range(cs, from as int, k + 1));
        }
        k = k + 1;
    }
}

/// Inserts zero-width spaces into a display name at grapheme-cluster
/// boundaries, so that the result is visually identical to the name but no
/// longer an exact match for it. Removing every zero-width space from the
/// result restores the characters of the original name.
pub fn insert_zero_width_spaces_into_nickname(nick: &str) -> (r: String)
    ensures
        r@ == insert_seps_spec(grapheme_clusters(nick@)),
        strip_zwsp(r@) == strip_zwsp(nick@),
        !nick@.contains(zwsp_char()) ==> strip_zwsp(r@) == nick@,
        grapheme_clusters(nick@).len() <= 1 ==> r@ == nick@,
{
    let clusters = split_graphemes(nick);
    let ghost cs = grapheme_clusters(nick@);
    let n = clusters.len();
    let mut out: Vec<char> = Vec::new();
    if n == 0 {
        proof {
            assert(out@ =~= insert_seps_spec(cs));
        }
    } else if n == 1 {
        append_clusters(&mut out, &clusters, 0, 1);
        proof {
            lemma_concat_range_one(cs, 0);
            assert(out@ =~= insert_seps_spec(cs));
        }
    } else if n == 2 {
        append_clusters(&mut out, &clusters, 0, 1);
        out.push('\u{200B}');
        append_clusters(&mut out, &clusters, 1, 2);
        proof {
            lemma_concat_range_one(cs, 0);
            lemma_concat_range_one(cs, 1);
            assert(out@ =~= insert_seps_spec(cs));
        }
    } else {
        let a = n / 3;
        let b = (n / 3) * 2 + if n % 3 == 2 {
            1
        } else {
            0
        };
        proof {
            assert(b as int == 2 * (n as int) / 3) by (nonlinear_arith)
                requires
                    n >= 3,
                    a == n / 3,
                    b == (n / 3) * 2 + if n % 3 == 2 {
                        1int
                    } else {
                        0int
                    },
            ;
            assert(a as int == (n as int) / 3);
            assert(0 < a && a < b && b < n) by (nonlinear_arith)
                requires
                    n >= 3,
                    a == n / 3,
                    b as int == 2 * (n as int) / 3,
            ;
        }
        append_clusters(&mut out, &clusters, 0, a);
        out.push('\u{200B}');
        append_clusters(&mut out, &clusters, a, b);
        out.push('\u{200B}');
        append_clusters(&mut out, &clusters, b, n);
        proof {
            assert(out@ =~= insert_seps_spec(cs));
        }
    }
    proof {
        let nn = cs.len() as int;
        assert(concat_range(cs, 0, nn) == nick@);
        // Stripping the separators from the output restores the name.
        lemma_strip_single_zwsp();
        if nn == 0 {
            assert(nick@ =~= Seq::<char>::empty());
        } else if nn == 1 {
            lemma_concat_range_one(cs, 0);
            assert(cs[0] == nick@);
        } else if nn == 2 {
            lemma_strip_add(cs[0] + seq![zwsp_char()], cs[1]);
            lemma_strip_add(cs[0], seq![zwsp_char()]);
            lemma_strip_add(cs[0], cs[1]);
            lemma_concat_range_split(cs, 0, 1, 2);
            lemma_concat_range_one(cs, 0);
            lemma_concat_range_one(cs, 1);
            assert(concat_range(cs, 0, 2) == cs[0] + cs[1]);
            assert(strip_zwsp(out@) =~= strip_zwsp(nick@));
        } else {
            let a = nn / 3;
            let b = 2 * nn / 3;
            let front = concat_range(cs, 0, a);
            let middle = concat_range(cs, a, b);
            let back = concat_range(cs, b, nn);
            lemma_strip_add(front + seq![zwsp_char()] + middle + seq![zwsp_char()], back);
            lemma_strip_add(front + seq![zwsp_char()] + middle, seq![zwsp_char()]);
            lemma_strip_add(front + seq![zwsp_char()], middle);
            lemma_strip_add(front, seq![zwsp_char()]);
            lemma_concat_range_split(cs, 0, a, nn);
            lemma_concat_range_split(cs, a, b, nn);
            lemma_strip_add(front, middle + back);
            lemma_strip_add(middle, back);
            assert(strip_zwsp(out@) =~= strip_zwsp(nick@));
        }
        if !nick@.contains(zwsp_char()) {
            lemma_strip_clean(nick@);
        }
    }
    string_from_chars(&out)
}

} // verus!
