//! The engine: locate URL-like tokens in text, rewrite each one that is a URL,
//! and leave every other character where it was.

use vstd::prelude::*;
use crate::parts::{
    all_url_chars, assemble, cleaned, copy_range, emit_cleaned, ends_in_ref_segment,
    extend_range, fragment_text, host_end, host_like, is_candidate, is_host_char, layout_of,
    lemma_assemble_index, lemma_assemble_url_chars, lemma_cleaned_well_formed,
    lemma_parts_well_formed, lemma_round_trip, authority_end, path_end, query_end, scheme_end,
    trim_ref, url_parts,
};
use crate::query::{
    is_query_char, join_pairs, lemma_join_chars, lemma_retained_of_join, lemma_retained_settled,
    retained_pairs,
};
use crate::rules::{strip_patterns, trims_ref_segment};
use crate::locator::{candidate_spans, locate, spans_from, spans_match, token_end};
use crate::scan::{
    is_alnum, is_stop, is_url_char, last_stop, lemma_first_stop, lemma_first_stop_unique,
    lemma_last_stop, Stop,
};
use crate::text::{append_chars, chars_of, string_of};

verus! {

/// What `url::Url::parse` decides about a string: whether it is an absolute URL.
pub uninterp spec fn parses_as_url(s: Seq<char>) -> bool;

/// Relies on `url::Url::parse`: whether a string parses as an absolute URL
/// depends on the string alone.
#[verifier::external_body]
fn url_parses(s: &str) -> (r: bool)
    ensures
        r == parses_as_url(s@),
{
    url::Url::parse(s).is_ok()
}

/// What the URL parser is given for a token: the token itself, with `https://`
/// in front when it has no scheme.
pub open spec fn parser_input(s: Seq<char>) -> Seq<char> {
    if scheme_end(s) > 0 {
        s
    } else {
        "https://"@ + s
    }
}

/// A token is rewritten when it looks like a URL and the URL parser accepts it.
pub open spec fn is_accepted(s: Seq<char>) -> bool {
    is_candidate(s) && parses_as_url(parser_input(s))
}

/// What a token becomes.
pub open spec fn rewrite_token(s: Seq<char>) -> Seq<char> {
    if is_accepted(s) {
        assemble(cleaned(url_parts(s)))
    } else {
        s
    }
}

/// The text with every token rewritten in place; characters outside tokens are
/// copied unchanged.
pub open spec fn sanitized(t: Seq<char>) -> Seq<char>
    decreases t.len(),
{
    if t.len() == 0 {
        seq![]
    } else if !is_url_char(t[0]) {
        seq![t[0]] + sanitized(t.skip(1))
    } else {
        let n = token_end(t);
        proof {
            lemma_first_stop(t, 0, t.len() as int, Stop::NotUrlChar);
        }
        rewrite_token(t.take(n)) + sanitized(t.skip(n))
    }
}

/// Rewriting settles at once: when the rule of the token's host drops a
/// trailing `ref=` segment, the path left behind does not end in another one.
pub open spec fn ref_trim_settles(s: Seq<char>) -> bool {
    let p = url_parts(s);
    is_accepted(s) && trims_ref_segment(p.host) ==> !ends_in_ref_segment(trim_ref(p.path))
}

/// Every token of the text settles in one rewrite.
pub open spec fn every_ref_trim_settles(t: Seq<char>) -> bool
    decreases t.len(),
{
    if t.len() == 0 {
        true
    } else if !is_url_char(t[0]) {
        every_ref_trim_settles(t.skip(1))
    } else {
        let n = token_end(t);
        proof {
            lemma_first_stop(t, 0, t.len() as int, Stop::NotUrlChar);
        }
        ref_trim_settles(t.take(n)) && every_ref_trim_settles(t.skip(n))
    }
}

/// A slice of URL characters holds URL characters.
proof fn lemma_sub_url_chars(s: Seq<char>, lo: int, hi: int)
    requires
        all_url_chars(s),
        0 <= lo <= hi <= s.len(),
    ensures
        all_url_chars(s.subrange(lo, hi)),
{
    assert forall|i: int| 0 <= i < hi - lo implies is_url_char(#[trigger] s.subrange(lo, hi)[i]) by {
        assert(s.subrange(lo, hi)[i] == s[lo + i]);
    }
}

/// A token of URL characters is rewritten into a non-empty token of URL
/// characters.
proof fn lemma_rewrite_keeps_token(s: Seq<char>)
    requires
        s.len() > 0,
        all_url_chars(s),
    ensures
        rewrite_token(s).len() > 0,
        all_url_chars(rewrite_token(s)),
{
    if is_accepted(s) {
        let p = url_parts(s);
        let c = cleaned(p);
        let n = s.len() as int;
        lemma_parts_well_formed(s);
        lemma_sub_url_chars(s, 0, scheme_end(s));
        assert(s.subrange(0, scheme_end(s)) == p.scheme);
        lemma_sub_url_chars(s, scheme_end(s), host_end(s));
        lemma_sub_url_chars(s, host_end(s), authority_end(s));
        lemma_sub_url_chars(s, authority_end(s), path_end(s));
        if trims_ref_segment(p.host) && ends_in_ref_segment(p.path) {
            let k = last_stop(p.path, p.path.len() as int, Stop::Slash);
            lemma_last_stop(p.path, p.path.len() as int, Stop::Slash);
            lemma_sub_url_chars(p.path, 0, k);
            assert(p.path.subrange(0, k) == c.path);
        }
        match p.query {
            Some(q) => {
                let ps = retained_pairs(q, strip_patterns(p.host));
                lemma_retained_settled(q, strip_patterns(p.host));
                lemma_join_chars(ps, strip_patterns(p.host));
                let j = join_pairs(ps);
                assert forall|i: int| 0 <= i < j.len() implies is_url_char(#[trigger] j[i]) by {
                    assert(is_query_char(j[i]));
                }
            },
            None => {},
        }
        if query_end(s) < n {
            lemma_sub_url_chars(s, query_end(s) + 1, n);
            assert(s.subrange(query_end(s) + 1, n) == s.skip(query_end(s) + 1));
        }
        lemma_assemble_url_chars(c);
        lemma_assemble_index(c);
        lemma_last_stop(p.host, p.host.len() as int, Stop::Dot);
    }
}

/// Rewriting a rewritten token changes nothing.
proof fn lemma_rewrite_idempotent(s: Seq<char>)
    requires
        ref_trim_settles(s),
    ensures
        rewrite_token(rewrite_token(s)) == rewrite_token(s),
{
    if is_accepted(s) {
        let p = url_parts(s);
        let c = cleaned(p);
        let t = assemble(c);
        lemma_parts_well_formed(s);
        lemma_cleaned_well_formed(p);
        lemma_round_trip(c);
        assert(url_parts(t) == c);
        if is_accepted(t) {
            match p.query {
                Some(q) => {
                    let pats = strip_patterns(p.host);
                    lemma_retained_settled(q, pats);
                    lemma_retained_of_join(retained_pairs(q, pats), pats);
                },
                None => {},
            }
            assert(cleaned(c) == c);
        }
    }
}

/// The first token of `t` and what follows it.
proof fn lemma_token_end(t: Seq<char>)
    requires
        t.len() > 0,
        is_url_char(t[0]),
    ensures
        1 <= token_end(t) <= t.len(),
        all_url_chars(t.take(token_end(t))),
        token_end(t) < t.len() ==> !is_url_char(t[token_end(t)]),
{
    lemma_first_stop(t, 0, t.len() as int, Stop::NotUrlChar);
    let n = token_end(t);
    assert forall|i: int| 0 <= i < n implies is_url_char(#[trigger] t.take(n)[i]) by {
        assert(t.take(n)[i] == t[i]);
        assert(!is_stop(t[i], Stop::NotUrlChar));
    }
}

/// Sanitized text is empty only when the text is, and starts with the same
/// character when the text starts outside a token.
proof fn lemma_sanitized_head(t: Seq<char>)
    ensures
        t.len() == 0 <==> sanitized(t).len() == 0,
        t.len() > 0 && !is_url_char(t[0]) ==> sanitized(t)[0] == t[0],
{
    if t.len() > 0 && is_url_char(t[0]) {
        lemma_token_end(t);
        lemma_rewrite_keeps_token(t.take(token_end(t)));
    }
}

/// A text of URL characters alone is a single token.
proof fn lemma_sanitized_token(r: Seq<char>)
    requires
        r.len() > 0,
        all_url_chars(r),
    ensures
        sanitized(r) == rewrite_token(r),
{
    assert forall|j: int| 0 <= j < r.len() implies !is_stop(#[trigger] r[j], Stop::NotUrlChar) by {
        assert(is_url_char(r[j]));
    }
    lemma_first_stop_unique(r, 0, r.len() as int, Stop::NotUrlChar, r.len() as int);
    assert(r.take(r.len() as int) =~= r);
    assert(r.skip(r.len() as int) =~= Seq::<char>::empty());
    assert(sanitized(r) == rewrite_token(r) + sanitized(Seq::<char>::empty()));
    assert(sanitized(r) =~= rewrite_token(r));
}

/// Text that is split where a token cannot continue is sanitized piece by piece.
proof fn lemma_sanitized_concat(a: Seq<char>, b: Seq<char>)
    requires
        b.len() == 0 || !is_url_char(b[0]),
    ensures
        sanitized(a + b) == sanitized(a) + sanitized(b),
    decreases a.len(),
{
    let ab = a + b;
    if a.len() == 0 {
        assert(ab =~= b);
        assert(sanitized(a) =~= Seq::<char>::empty());
        assert(sanitized(a) + sanitized(b) =~= sanitized(b));
    } else if !is_url_char(a[0]) {
        assert(ab[0] == a[0]);
        assert(ab.skip(1) =~= a.skip(1) + b);
        lemma_sanitized_concat(a.skip(1), b);
        assert(sanitized(ab) =~= sanitized(a) + sanitized(b));
    } else {
        let n = token_end(a);
        lemma_token_end(a);
        assert(ab[0] == a[0]);
        assert forall|j: int| 0 <= j < n implies !is_stop(#[trigger] ab[j], Stop::NotUrlChar) by {
            assert(ab[j] == a[j]);
            assert(a.take(n)[j] == a[j]);
        }
        if n < a.len() {
            assert(ab[n] == a[n]);
        }
        lemma_first_stop_unique(ab, 0, ab.len() as int, Stop::NotUrlChar, n);
        assert(ab.take(n) =~= a.take(n));
        assert(ab.skip(n) =~= a.skip(n) + b);
        lemma_sanitized_concat(a.skip(n), b);
        assert(sanitized(ab) =~= sanitized(a) + sanitized(b));
    }
}

/// Sanitizing sanitized text changes nothing, provided that no URL of the text
/// ends in two `ref=` segments that its host's rule would drop one at a time.
pub proof fn lemma_sanitize_idempotent(t: Seq<char>)
    requires
        every_ref_trim_settles(t),
    ensures
        sanitized(sanitized(t)) == sanitized(t),
    decreases t.len(),
{
    if t.len() > 0 {
        if !is_url_char(t[0]) {
            let rest = sanitized(t.skip(1));
            lemma_sanitize_idempotent(t.skip(1));
            let u = seq![t[0]] + rest;
            assert(u[0] == t[0]);
            assert(u.skip(1) =~= rest);
        } else {
            let n = token_end(t);
            lemma_token_end(t);
            let tok = t.take(n);
            let rest = t.skip(n);
            let r = rewrite_token(tok);
            let sr = sanitized(rest);
            lemma_rewrite_keeps_token(tok);
            lemma_sanitized_head(rest);
            if rest.len() > 0 {
                assert(rest[0] == t[n]);
            }
            lemma_sanitized_concat(r, sr);
            lemma_sanitized_token(r);
            lemma_rewrite_idempotent(tok);
            lemma_sanitize_idempotent(rest);
        }
    }
}

/// Text in which the locator finds nothing that looks like a URL comes back
/// unchanged.
pub proof fn lemma_sanitize_keeps_plain_text(t: Seq<char>)
    requires
        candidate_spans(t).len() == 0,
    ensures
        sanitized(t) == t,
{
    lemma_no_spans(t, 0);
}

/// Text around a URL, separated from it by spaces, is left as it is, and the
/// URL is rewritten as it would be on its own.
pub proof fn lemma_sanitize_keeps_surrounding_text(
    prefix: Seq<char>,
    url: Seq<char>,
    suffix: Seq<char>,
)
    requires
        candidate_spans(prefix).len() == 0,
        candidate_spans(suffix).len() == 0,
    ensures
        sanitized(prefix + seq![' '] + url + seq![' '] + suffix) == prefix + seq![' '] + sanitized(
            url,
        ) + seq![' '] + suffix,
{
    let tail = seq![' '] + suffix;
    let mid = seq![' '] + url + tail;
    lemma_sanitize_keeps_plain_text(prefix);
    lemma_sanitize_keeps_plain_text(suffix);
    lemma_sanitized_concat(url, tail);
    assert(tail[0] == ' ');
    assert(tail.skip(1) =~= suffix);
    assert(sanitized(tail) == seq![' '] + sanitized(suffix));
    assert(mid[0] == ' ');
    assert(mid.skip(1) =~= url + tail);
    assert(sanitized(mid) == seq![' '] + sanitized(url + tail));
    lemma_sanitized_concat(prefix, mid);
    assert(prefix + seq![' '] + url + seq![' '] + suffix =~= prefix + mid);
    assert(sanitized(prefix + mid) =~= prefix + seq![' '] + sanitized(url) + seq![' '] + suffix);
}

/// When every pair of a URL's query is stripped, the `?` goes too: the
/// rewritten URL has no query, and no `?` before its fragment.
pub proof fn lemma_empty_query_elided(s: Seq<char>)
    requires
        is_accepted(s),
        url_parts(s).query is Some,
        retained_pairs(url_parts(s).query->0, strip_patterns(url_parts(s).host)).len() == 0,
    ensures
        url_parts(rewrite_token(s)).query is None,
        forall|i: int|
            0 <= i < rewrite_token(s).len() - fragment_text(url_parts(rewrite_token(s))).len()
                ==> #[trigger] rewrite_token(s)[i] != '?',
{
    let p = url_parts(s);
    let c = cleaned(p);
    let r = assemble(c);
    lemma_parts_well_formed(s);
    lemma_cleaned_well_formed(p);
    lemma_round_trip(c);
    lemma_assemble_index(c);
    assert(c.query is None);
    let a = c.scheme.len() as int;
    let b = a + c.host.len();
    let e = b + c.port.len();
    assert forall|i: int| 0 <= i < r.len() - fragment_text(c).len() implies #[trigger] r[i] != '?' by {
        if i < a {
            if i < a - 3 {
                assert(is_alnum(c.scheme[i]));
            }
        } else if i < b {
            assert(r[i] == c.host[i - a]);
            assert(is_host_char(c.host[i - a]));
        } else if i < e {
            assert(r[i] == c.port[i - b]);
            assert(!is_stop(c.port[i - b], Stop::AuthorityEnd));
        } else {
            assert(r[i] == c.path[i - e]);
            assert(!is_stop(c.path[i - e], Stop::PathEnd));
        }
    }
}

/// Asks the URL parser about a token.
fn accepted_by_parser(tok: &Vec<char>, has_scheme: bool) -> (r: bool)
    requires
        has_scheme == (scheme_end(tok@) > 0),
    ensures
        r == parses_as_url(parser_input(tok@)),
{
    let mut s = if has_scheme {
        String::new()
    } else {
        String::from_str("https://")
    };
    append_chars(&mut s, tok);
    assert(s@ =~= parser_input(tok@));
    url_parses(s.as_str())
}

/// Appends what the token `tok` becomes to `out`, given whether the URL parser
/// accepts it.
fn rewrite_token_with(tok: &Vec<char>, accepted_by_parser: bool, out: &mut Vec<char>)
    ensures
        final(out)@ == old(out)@ + if is_candidate(tok@) && accepted_by_parser {
            assemble(cleaned(url_parts(tok@)))
        } else {
            tok@
        },
{
    let n = tok.len();
    let l = layout_of(tok);
    let host = copy_range(tok, l.scheme_end, l.host_end);
    if host_like(&host) && accepted_by_parser {
        emit_cleaned(tok, &l, out);
    } else {
        extend_range(out, tok, 0, n);
        assert(tok@.subrange(0, n as int) =~= tok@);
    }
}

/// What a token becomes, given whether the URL parser accepts it: the URL with
/// the rules of its host applied, or the token unchanged.
pub fn clean_token(token: &str, accepted_by_parser: bool) -> (r: String)
    ensures
        r@ == if is_candidate(token@) && accepted_by_parser {
            assemble(cleaned(url_parts(token@)))
        } else {
            token@
        },
{
    let tok = chars_of(token);
    let mut out: Vec<char> = Vec::new();
    rewrite_token_with(&tok, accepted_by_parser, &mut out);
    assert(out@ =~= Seq::<char>::empty() + out@);
    string_of(&out)
}

/// Appends what the token `tok` becomes to `out`.
pub fn rewrite_token_into(tok: &Vec<char>, out: &mut Vec<char>)
    ensures
        final(out)@ == old(out)@ + rewrite_token(tok@),
{
    let l = layout_of(tok);
    let host = copy_range(tok, l.scheme_end, l.host_end);
    let accepted = host_like(&host) && accepted_by_parser(tok, l.scheme_end > 0);
    rewrite_token_with(tok, accepted, out);
}

/// What the text is up to its first located span, that span rewritten, and
/// the rest sanitized on its own.
proof fn lemma_first_span(u: Seq<char>, base: int)
    requires
        spans_from(u, base).len() > 0,
    ensures
        ({
            let (s, e) = spans_from(u, base)[0];
            &&& base <= s < e <= base + u.len()
            &&& sanitized(u) == u.subrange(0, s - base) + rewrite_token(u.subrange(s - base, e - base))
                + sanitized(u.skip(e - base))
            &&& spans_from(u.skip(e - base), e) == spans_from(u, base).drop_first()
        }),
    decreases u.len(),
{
    if !is_url_char(u[0]) {
        let u1 = u.skip(1);
        lemma_first_span(u1, base + 1);
        let (s, e) = spans_from(u, base)[0];
        assert(u.subrange(0, s - base) =~= seq![u[0]] + u1.subrange(0, s - base - 1));
        assert(u.subrange(s - base, e - base) =~= u1.subrange(s - base - 1, e - base - 1));
        assert(u.skip(e - base) =~= u1.skip(e - base - 1));
    } else {
        let n = token_end(u);
        lemma_token_end(u);
        let u2 = u.skip(n);
        if is_candidate(u.take(n)) {
            assert(spans_from(u, base) == seq![(base, base + n)] + spans_from(u2, base + n));
            assert(u.subrange(0, 0) =~= Seq::<char>::empty());
            assert(u.subrange(0, n) =~= u.take(n));
            assert(spans_from(u, base).drop_first() =~= spans_from(u2, base + n));
        } else {
            lemma_first_span(u2, base + n);
            let (s, e) = spans_from(u, base)[0];
            assert(rewrite_token(u.take(n)) == u.take(n));
            assert(u.subrange(0, s - base) =~= u.take(n) + u2.subrange(0, s - base - n));
            assert(u.subrange(s - base, e - base) =~= u2.subrange(s - base - n, e - base - n));
            assert(u.skip(e - base) =~= u2.skip(e - base - n));
        }
    }
}

/// Text with no located span comes back unchanged.
proof fn lemma_no_spans(u: Seq<char>, base: int)
    requires
        spans_from(u, base).len() == 0,
    ensures
        sanitized(u) == u,
    decreases u.len(),
{
    if u.len() > 0 {
        if !is_url_char(u[0]) {
            lemma_no_spans(u.skip(1), base + 1);
            assert(seq![u[0]] + u.skip(1) =~= u);
        } else {
            let n = token_end(u);
            lemma_token_end(u);
            lemma_no_spans(u.skip(n), base + n);
            assert(u.take(n) + u.skip(n) =~= u);
        }
    }
}

/// Removes tracking parameters and referral path segments from every URL in
/// `text`, leaving all other text as it was.
pub fn sanitize(text: &str) -> (r: String)
    ensures
        r@ == sanitized(text@),
{
    let t = chars_of(text);
    let n = t.len();
    let spans = locate(&t);
    let mut out: Vec<char> = Vec::new();
    let mut i: usize = 0;
    let mut k: usize = 0;
    assert(t@.subrange(0, n as int) =~= t@);
    assert(candidate_spans(t@).skip(0) =~= candidate_spans(t@));
    while k < spans.len()
        invariant
            i <= n == t@.len(),
            t@ == text@,
            k <= spans@.len(),
            spans_match(spans@, candidate_spans(t@)),
            spans_from(t@.subrange(i as int, n as int), i as int) == candidate_spans(t@).skip(
                k as int,
            ),
            out@ + sanitized(t@.subrange(i as int, n as int)) == sanitized(text@),
        decreases spans@.len() - k,
    {
        let ghost u = t@.subrange(i as int, n as int);
        let span = spans[k];
        proof {
            assert(spans_from(u, i as int)[0] == candidate_spans(t@)[k as int]);
            lemma_first_span(u, i as int);
            assert(u.subrange(0, span.start - i) =~= t@.subrange(i as int, span.start as int));
            assert(u.subrange(span.start - i, span.end - i) =~= t@.subrange(
                span.start as int,
                span.end as int,
            ));
            assert(u.skip(span.end - i) =~= t@.subrange(span.end as int, n as int));
            assert(candidate_spans(t@).skip(k as int).drop_first() =~= candidate_spans(t@).skip(
                k + 1,
            ));
        }
        extend_range(&mut out, &t, i, span.start);
        let tok = copy_range(&t, span.start, span.end);
        rewrite_token_into(&tok, &mut out);
        i = span.end;
        k = k + 1;
    }
    proof {
        lemma_no_spans(t@.subrange(i as int, n as int), i as int);
    }
    extend_range(&mut out, &t, i, n);
    string_of(&out)
}

} // verus!
