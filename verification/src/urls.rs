//! URL detection.
//!
//! Before tokenization, the converter scans the whole message for candidate
//! URL spans: a case-insensitive `http://` or `https://` scheme followed by
//! a run of URL-legal characters, ending on the last character of the run
//! that is not punctuation. Candidates are found left to right and do not
//! overlap. A candidate that the `url` crate confirms as a well-formed URL
//! is copied into the output verbatim, so that underscores and the like
//! inside links are not escaped.

use vstd::prelude::*;

verus! {

/// Characters that may continue a URL candidate.
pub open spec fn is_url_body_char(c: char) -> bool {
    let u = c as u32;
    (97 <= u && u <= 122) || (65 <= u && u <= 90) || (48 <= u && u <= 57) || c == '-' || c == '+'
        || c == '&' || c == '@' || c == '#' || c == '/' || c == '%' || c == '?' || c == '='
        || c == '~' || c == '_' || c == '|' || c == '!' || c == ':' || c == ',' || c == '.'
        || c == ';'
}

/// Characters a URL candidate may end on: the body characters minus
/// punctuation.
pub open spec fn is_url_end_char(c: char) -> bool {
    let u = c as u32;
    (97 <= u && u <= 122) || (65 <= u && u <= 90) || (48 <= u && u <= 57) || c == '+' || c == '&'
        || c == '@' || c == '#' || c == '/' || c == '%' || c == '=' || c == '~' || c == '_'
        || c == '|'
}

/// If a scheme `http://` or `https://` (case-insensitive) sits at `p`, the
/// position just past it.
pub open spec fn scheme_end(s: Seq<char>, p: int) -> Option<int> {
    if p + 7 <= s.len() && (s[p] == 'h' || s[p] == 'H') && (s[p + 1] == 't' || s[p + 1] == 'T') && (
    s[p + 2] == 't' || s[p + 2] == 'T') && (s[p + 3] == 'p' || s[p + 3] == 'P') {
        if s[p + 4] == 's' || s[p + 4] == 'S' {
            if p + 8 <= s.len() && s[p + 5] == ':' && s[p + 6] == '/' && s[p + 7] == '/' {
                Some(p + 8)
            } else {
                None
            }
        } else if s[p + 4] == ':' && s[p + 5] == '/' && s[p + 6] == '/' {
            Some(p + 7)
        } else {
            None
        }
    } else {
        None
    }
}

/// The end of the maximal run of URL body characters starting at `i`.
pub open spec fn run_end(s: Seq<char>, i: int) -> int
    decreases s.len() - i,
{
    if 0 <= i < s.len() && is_url_body_char(s[i]) {
        run_end(s, i + 1)
    } else {
        i
    }
}

/// The last position in `q..r` holding a URL end character, if any.
pub open spec fn last_end_char(s: Seq<char>, q: int, r: int) -> Option<int>
    decreases r - q,
{
    if r <= q {
        None
    } else if is_url_end_char(s[r - 1]) {
        Some(r - 1)
    } else {
        last_end_char(s, q, r - 1)
    }
}

/// If a URL candidate starts at `p`, the position just past it: past the
/// scheme, the body run is taken greedily and then trimmed back to its last
/// end character.
pub open spec fn match_end(s: Seq<char>, p: int) -> Option<int> {
    match scheme_end(s, p) {
        Option::None => None,
        Option::Some(q) => match last_end_char(s, q, run_end(s, q)) {
            Option::None => None,
            Option::Some(j) => Some(j + 1),
        },
    }
}

/// The first candidate starting at or after `p`.
pub open spec fn next_match(s: Seq<char>, p: int) -> Option<(int, int)>
    decreases s.len() - p,
{
    if p < 0 || p >= s.len() {
        None
    } else {
        match match_end(s, p) {
            Option::Some(e) => Some((p, e)),
            Option::None => next_match(s, p + 1),
        }
    }
}

/// All candidates at or after `p`, leftmost first, each search resuming
/// where the previous candidate ended.
pub open spec fn candidates_from(s: Seq<char>, p: int) -> Seq<(int, int)>
    decreases s.len() - p,
{
    if 0 <= p <= s.len() {
        match next_match(s, p) {
            Option::None => Seq::empty(),
            Option::Some((a, e)) => if p <= a && a < e && e <= s.len() {
                seq![(a, e)] + candidates_from(s, e)
            } else {
                Seq::empty()
            },
        }
    } else {
        Seq::empty()
    }
}

/// The URL candidate spans of a message, as half-open index ranges.
pub open spec fn url_candidates(s: Seq<char>) -> Seq<(int, int)> {
    candidates_from(s, 0)
}

pub proof fn lemma_run_end(s: Seq<char>, i: int)
    requires
        0 <= i <= s.len(),
    ensures
        i <= run_end(s, i) <= s.len(),
    decreases s.len() - i,
{
    if i < s.len() && is_url_body_char(s[i]) {
        lemma_run_end(s, i + 1);
    }
}

pub proof fn lemma_last_end_char(s: Seq<char>, q: int, r: int)
    requires
        0 <= q <= r <= s.len(),
    ensures
        last_end_char(s, q, r) is Some ==> q <= last_end_char(s, q, r).unwrap() < r,
    decreases r - q,
{
    if r > q && !is_url_end_char(s[r - 1]) {
        lemma_last_end_char(s, q, r - 1);
    }
}

pub proof fn lemma_match_end(s: Seq<char>, p: int)
    requires
        0 <= p <= s.len(),
    ensures
        match_end(s, p) is Some ==> p < match_end(s, p).unwrap() <= s.len(),
{
    if scheme_end(s, p) is Some {
        let q = scheme_end(s, p).unwrap();
        lemma_run_end(s, q);
        lemma_last_end_char(s, q, run_end(s, q));
    }
}

pub proof fn lemma_next_match(s: Seq<char>, p: int)
    requires
        0 <= p <= s.len(),
    ensures
        next_match(s, p) is Some ==> {
            let (a, e) = next_match(s, p).unwrap();
            p <= a && a < e <= s.len() && match_end(s, a) == Some(e)
        },
    decreases s.len() - p,
{
    if p < s.len() {
        if match_end(s, p) is Some {
            lemma_match_end(s, p);
        } else {
            lemma_next_match(s, p + 1);
        }
    }
}

/// When no candidate starts at `p`, the candidate list is unchanged by
/// moving past `p`.
pub proof fn lemma_candidates_step(s: Seq<char>, p: int)
    requires
        0 <= p < s.len(),
        match_end(s, p) is None,
    ensures
        candidates_from(s, p) == candidates_from(s, p + 1),
{
    lemma_next_match(s, p + 1);
}

/// When a candidate `p..e` starts at `p`, it heads the candidate list.
pub proof fn lemma_candidates_match(s: Seq<char>, p: int, e: int)
    requires
        0 <= p < s.len(),
        match_end(s, p) == Some(e),
    ensures
        p < e <= s.len(),
        candidates_from(s, p) == seq![(p, e)] + candidates_from(s, e),
{
    lemma_match_end(s, p);
}

/// Candidate spans are in bounds, ordered, and non-overlapping.
pub proof fn lemma_candidates_wf(s: Seq<char>, p: int)
    requires
        0 <= p <= s.len(),
    ensures
        forall|i: int|
            0 <= i < candidates_from(s, p).len() ==> p <= (#[trigger] candidates_from(s, p)[i]).0
                && candidates_from(s, p)[i].0 < candidates_from(s, p)[i].1 <= s.len(),
        forall|i: int|
            0 <= i < candidates_from(s, p).len() - 1 ==> (#[trigger] candidates_from(s, p)[i]).1
                <= candidates_from(s, p)[i + 1].0,
    decreases s.len() - p,
{
    lemma_next_match(s, p);
    let cs = candidates_from(s, p);
    match next_match(s, p) {
        Option::None => {},
        Option::Some((a, e)) => {
            if p <= a && a < e && e <= s.len() {
                lemma_candidates_wf(s, e);
                let tail = candidates_from(s, e);
                assert(cs == seq![(a, e)] + tail);
                assert forall|i: int|
                    0 <= i < cs.len() implies p <= (#[trigger] cs[i]).0 && cs[i].0 < cs[i].1
                    <= s.len() by {
                    if i > 0 {
                        assert(cs[i] == tail[i - 1]);
                    }
                }
                assert forall|i: int|
                    0 <= i < cs.len() - 1 implies (#[trigger] cs[i]).1 <= cs[i + 1].0 by {
                    if i == 0 {
                        if tail.len() > 0 {
                            assert(cs[1] == tail[0]);
                        }
                    } else {
                        assert(cs[i] == tail[i - 1]);
                        assert(cs[i + 1] == tail[i]);
                    }
                }
            }
        },
    }
}

fn is_body_char(c: char) -> (b: bool)
    ensures
        b == is_url_body_char(c),
{
    let u = c as u32;
    (97 <= u && u <= 122) || (65 <= u && u <= 90) || (48 <= u && u <= 57) || c == '-' || c == '+'
        || c == '&' || c == '@' || c == '#' || c == '/' || c == '%' || c == '?' || c == '='
        || c == '~' || c == '_' || c == '|' || c == '!' || c == ':' || c == ',' || c == '.'
        || c == ';'
}

fn is_end_char(c: char) -> (b: bool)
    ensures
        b == is_url_end_char(c),
{
    let u = c as u32;
    (97 <= u && u <= 122) || (65 <= u && u <= 90) || (48 <= u && u <= 57) || c == '+' || c == '&'
        || c == '@' || c == '#' || c == '/' || c == '%' || c == '=' || c == '~' || c == '_'
        || c == '|'
}

/// The candidate starting exactly at `p`, if any.
fn try_match_at(msg: &Vec<char>, p: usize) -> (r: Option<usize>)
    requires
        p < msg@.len(),
    ensures
        match r {
            Option::Some(e) => match_end(msg@, p as int) == Some(e as int) && p < e <= msg@.len(),
            Option::None => match_end(msg@, p as int) is None,
        },
{
    let n = msg.len();
    if n - p < 7 {
        return None;
    }
    if !((msg[p] == 'h' || msg[p] == 'H') && (msg[p + 1] == 't' || msg[p + 1] == 'T') && (msg[p + 2]
        == 't' || msg[p + 2] == 'T') && (msg[p + 3] == 'p' || msg[p + 3] == 'P')) {
        return None;
    }
    let q: usize = if msg[p + 4] == 's' || msg[p + 4] == 'S' {
        if n - p >= 8 && msg[p + 5] == ':' && msg[p + 6] == '/' && msg[p + 7] == '/' {
            p + 8
        } else {
            return None;
        }
    } else {
        if msg[p + 4] == ':' && msg[p + 5] == '/' && msg[p + 6] == '/' {
            p + 7
        } else {
            return None;
        }
    };
    assert(scheme_end(msg@, p as int) == Some(q as int));
    let mut r: usize = q;
    while r < n
        invariant
            q <= r <= n == msg@.len(),
            run_end(msg@, q as int) == run_end(msg@, r as int),
        ensures
            q <= r <= n,
            r == run_end(msg@, q as int),
        decreases n - r,
    {
        if !is_body_char(msg[r]) {
            break;
        }
        r = r + 1;
    }
    let re: usize = r;
    let mut j: usize = re;
    loop
        invariant
            q <= j <= re <= n,
            n == msg@.len(),
            last_end_char(msg@, q as int, re as int) == last_end_char(msg@, q as int, j as int),
        ensures
            last_end_char(msg@, q as int, re as int) == last_end_char(msg@, q as int, j as int),
            j > q ==> last_end_char(msg@, q as int, j as int) == Some(j - 1),
            j == q ==> last_end_char(msg@, q as int, j as int) is None,
        decreases j,
    {
        if j == q {
            break;
        }
        let k = j - 1;
        if is_end_char(msg[k]) {
            break;
        }
        j = j - 1;
    }
    if j > q {
        Some(j)
    } else {
        None
    }
}

/// A helper view: index ranges as pairs of mathematical integers.
pub open spec fn ranges_view(r: Seq<(usize, usize)>) -> Seq<(int, int)> {
    r.map_values(|t: (usize, usize)| (t.0 as int, t.1 as int))
}

/// All URL candidate spans of `msg`, leftmost first.
pub fn find_url_candidates(msg: &Vec<char>) -> (r: Vec<(usize, usize)>)
    ensures
        ranges_view(r@) == url_candidates(msg@),
{
    let n = msg.len();
    let mut res: Vec<(usize, usize)> = Vec::new();
    let mut p: usize = 0;
    proof {
        assert(ranges_view(res@) + candidates_from(msg@, 0) =~= url_candidates(msg@));
    }
    while p < n
        invariant
            p <= n == msg@.len(),
            url_candidates(msg@) == ranges_view(res@) + candidates_from(msg@, p as int),
        decreases n - p,
    {
        match try_match_at(msg, p) {
            Some(e) => {
                proof {
                    lemma_candidates_match(msg@, p as int, e as int);
                }
                let ghost old_res = res@;
                res.push((p, e));
                proof {
                    assert(ranges_view(res@) =~= ranges_view(old_res) + seq![
                        (p as int, e as int),
                    ]);
                    assert(ranges_view(old_res) + candidates_from(msg@, p as int) =~= ranges_view(
                        res@,
                    ) + candidates_from(msg@, e as int));
                }
                p = e;
            },
            None => {
                proof {
                    lemma_candidates_step(msg@, p as int);
                }
                p = p + 1;
            },
        }
    }
    proof {
        assert(candidates_from(msg@, n as int) == Seq::<(int, int)>::empty());
        assert(url_candidates(msg@) =~= ranges_view(res@));
    }
    res
}

/// Exactly which strings `url::Url::parse` accepts is a property of the
/// `url` crate; it depends on the characters of the string alone, and this
/// name stands for it.
pub uninterp spec fn url_parse_ok(s: Seq<char>) -> bool;

/// Relies on `url::Url::parse`: returns whether `s` parses as a well-formed
/// absolute URL. The outcome is a function of `s` alone.
#[verifier::external_body]
pub(crate) fn is_valid_url(s: &str) -> (r: bool)
    ensures
        r == url_parse_ok(s@),
{
    url::Url::parse(s).is_ok()
}

} // verus!
