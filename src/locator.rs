//! The URL locator: the spans of text that look like URLs, found as runs of
//! URL characters whose host part looks like a host name.

use vstd::prelude::*;
use crate::parts::{copy_range, host_like, is_candidate, layout_of};
use crate::scan::{
    find_stop, first_stop, is_url_char, is_url_character, lemma_first_stop,
    lemma_first_stop_shift, Stop,
};
use crate::text::chars_of;

verus! {

/// A located candidate: the characters `start..end` of the text.
#[derive(Clone, Copy, Debug, PartialEq, Eq)]
pub struct MatchSpan {
    pub start: usize,
    pub end: usize,
}

/// The length of the run of URL characters that `t` starts with.
pub open spec fn token_end(t: Seq<char>) -> int {
    first_stop(t, 0, t.len() as int, Stop::NotUrlChar)
}

/// The candidate spans of `t`, left to right, as positions counted from
/// `base`.
pub open spec fn spans_from(t: Seq<char>, base: int) -> Seq<(int, int)>
    decreases t.len(),
{
    if t.len() == 0 {
        seq![]
    } else if !is_url_char(t[0]) {
        spans_from(t.skip(1), base + 1)
    } else {
        let n = token_end(t);
        proof {
            lemma_first_stop(t, 0, t.len() as int, Stop::NotUrlChar);
        }
        if is_candidate(t.take(n)) {
            seq![(base, base + n)] + spans_from(t.skip(n), base + n)
        } else {
            spans_from(t.skip(n), base + n)
        }
    }
}

pub open spec fn candidate_spans(t: Seq<char>) -> Seq<(int, int)> {
    spans_from(t, 0)
}

pub open spec fn spans_match(r: Seq<MatchSpan>, s: Seq<(int, int)>) -> bool {
    &&& r.len() == s.len()
    &&& forall|k: int|
        0 <= k < r.len() ==> (#[trigger] r[k]).start == s[k].0 && r[k].end == s[k].1
}

/// Whether the run `tok` of URL characters looks like a URL.
pub fn is_candidate_token(tok: &Vec<char>) -> (r: bool)
    ensures
        r == is_candidate(tok@),
{
    let l = layout_of(tok);
    let host = copy_range(tok, l.scheme_end, l.host_end);
    host_like(&host)
}

/// The candidate spans of `t`.
pub fn locate(t: &Vec<char>) -> (r: Vec<MatchSpan>)
    ensures
        spans_match(r@, candidate_spans(t@)),
{
    let n = t.len();
    let mut spans: Vec<MatchSpan> = Vec::new();
    let ghost mut found: Seq<(int, int)> = seq![];
    let mut i: usize = 0;
    assert(t@.subrange(0, n as int) =~= t@);
    while i < n
        invariant
            i <= n == t@.len(),
            spans_match(spans@, found),
            found + spans_from(t@.subrange(i as int, n as int), i as int) == candidate_spans(t@),
        decreases n - i,
    {
        let ghost w = t@.subrange(i as int, n as int);
        assert(w[0] == t@[i as int]);
        if !is_url_character(t[i]) {
            assert(w.skip(1) =~= t@.subrange(i + 1, n as int));
            i = i + 1;
        } else {
            let j = find_stop(t, i, n, Stop::NotUrlChar);
            proof {
                lemma_first_stop_shift(t@, i as int, n as int, Stop::NotUrlChar, i as int, n as int);
                assert(w.take(j - i) =~= t@.subrange(i as int, j as int));
                assert(w.skip(j - i) =~= t@.subrange(j as int, n as int));
            }
            let tok = copy_range(t, i, j);
            if is_candidate_token(&tok) {
                let ghost before = found;
                let ghost before_spans = spans@;
                spans.push(MatchSpan { start: i, end: j });
                proof {
                    found = found.push((i as int, j as int));
                    assert(found =~= before + seq![(i as int, j as int)]);
                    assert(found + spans_from(t@.subrange(j as int, n as int), j as int) =~= before
                        + spans_from(w, i as int));
                    assert forall|k: int| 0 <= k < spans@.len() implies (#[trigger] spans@[k]).start
                        == found[k].0 && spans@[k].end == found[k].1 by {
                        if k < before.len() {
                            assert(spans@[k] == before_spans[k]);
                        }
                    }
                }
            }
            i = j;
        }
    }
    assert(t@.subrange(n as int, n as int) =~= Seq::<char>::empty());
    assert(found =~= candidate_spans(t@));
    spans
}

/// Finds the spans of `text` that look like URLs, as character positions.
pub fn locate_urls(text: &str) -> (r: Vec<MatchSpan>)
    ensures
        spans_match(r@, candidate_spans(text@)),
{
    let t = chars_of(text);
    locate(&t)
}

} // verus!
