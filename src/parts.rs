//! The structure of a located URL: optional scheme, host, port, path, query
//! and fragment, found by scanning for their delimiters.

use vstd::prelude::*;
use crate::query::{
    is_query_char, join_pairs, lemma_join_chars, lemma_retained_settled, retained_pairs,
};
use crate::query::clean_query_into;
use crate::rules::{lookup_rule, patterns_for, strip_patterns, trims_ref_segment};
use crate::scan::{
    find_last_stop, find_stop, first_stop, is_alnum, is_alnum_char, is_stop, is_url_char,
    last_stop, lemma_first_stop, lemma_first_stop_unique, lemma_last_stop, Stop,
};

verus! {

/// A URL cut into its parts. Concatenated in order, with `?` before the query
/// and `#` before the fragment, the parts give the URL back.
pub struct UrlParts {
    /// `name://`, or empty when the URL has no scheme.
    pub scheme: Seq<char>,
    pub host: Seq<char>,
    /// Whatever follows the host up to the path (`:443`), often empty.
    pub port: Seq<char>,
    pub path: Seq<char>,
    pub query: Option<Seq<char>>,
    pub fragment: Option<Seq<char>>,
}

/// The length of the scheme prefix `name://`, or 0 when there is none.
pub open spec fn scheme_end(s: Seq<char>) -> int {
    let k = first_stop(s, 0, s.len() as int, Stop::NotAlnum);
    if k >= 1 && k + 3 <= s.len() && s[k] == ':' && s[k + 1] == '/' && s[k + 2] == '/' {
        k + 3
    } else {
        0
    }
}

pub open spec fn host_end(s: Seq<char>) -> int {
    first_stop(s, scheme_end(s), s.len() as int, Stop::HostEnd)
}

pub open spec fn authority_end(s: Seq<char>) -> int {
    first_stop(s, host_end(s), s.len() as int, Stop::AuthorityEnd)
}

pub open spec fn path_end(s: Seq<char>) -> int {
    first_stop(s, authority_end(s), s.len() as int, Stop::PathEnd)
}

pub open spec fn has_query(s: Seq<char>) -> bool {
    path_end(s) < s.len() && s[path_end(s)] == '?'
}

pub open spec fn query_end(s: Seq<char>) -> int {
    if has_query(s) {
        first_stop(s, path_end(s) + 1, s.len() as int, Stop::Hash)
    } else {
        path_end(s)
    }
}

/// The parts of `s`, cut at the first delimiter of each.
pub open spec fn url_parts(s: Seq<char>) -> UrlParts {
    UrlParts {
        scheme: s.take(scheme_end(s)),
        host: s.subrange(scheme_end(s), host_end(s)),
        port: s.subrange(host_end(s), authority_end(s)),
        path: s.subrange(authority_end(s), path_end(s)),
        query: if has_query(s) {
            Some(s.subrange(path_end(s) + 1, query_end(s)))
        } else {
            None
        },
        fragment: if query_end(s) < s.len() {
            Some(s.skip(query_end(s) + 1))
        } else {
            None
        },
    }
}

pub open spec fn is_host_char(c: char) -> bool {
    is_alnum(c) || c == '-' || c == '.'
}

/// Labels of letters, digits and `-` separated by dots, ending in a top-level
/// label of one to six letters or digits.
pub open spec fn is_host_like(h: Seq<char>) -> bool {
    let d = last_stop(h, h.len() as int, Stop::Dot);
    &&& forall|i: int| 0 <= i < h.len() ==> is_host_char(#[trigger] h[i])
    &&& d >= 1
    &&& 1 <= h.len() - d - 1 <= 6
    &&& forall|j: int| d < j < h.len() ==> is_alnum(#[trigger] h[j])
}

/// A candidate span: text whose host part looks like a host name.
pub open spec fn is_candidate(s: Seq<char>) -> bool {
    is_host_like(url_parts(s).host)
}

/// `?` and the query, or nothing.
pub open spec fn query_text(p: UrlParts) -> Seq<char> {
    match p.query {
        Some(q) => seq!['?'] + q,
        None => seq![],
    }
}

/// `#` and the fragment, or nothing.
pub open spec fn fragment_text(p: UrlParts) -> Seq<char> {
    match p.fragment {
        Some(f) => seq!['#'] + f,
        None => seq![],
    }
}

pub open spec fn assemble(p: UrlParts) -> Seq<char> {
    p.scheme + p.host + p.port + p.path + query_text(p) + fragment_text(p)
}

/// The path ends in a segment that starts with `ref=`.
pub open spec fn ends_in_ref_segment(path: Seq<char>) -> bool {
    let k = last_stop(path, path.len() as int, Stop::Slash);
    k >= 0 && path.len() >= k + 5 && path.subrange(k + 1, k + 5) == seq!['r', 'e', 'f', '=']
}

/// The path without its trailing `ref=` segment, if it has one.
pub open spec fn trim_ref(path: Seq<char>) -> Seq<char> {
    if ends_in_ref_segment(path) {
        path.take(last_stop(path, path.len() as int, Stop::Slash))
    } else {
        path
    }
}

/// The query that is left once the tracking pairs are gone: none at all when
/// no pair is left.
pub open spec fn cleaned_query(query: Option<Seq<char>>, host: Seq<char>) -> Option<Seq<char>> {
    match query {
        Some(q) => {
            let joined = join_pairs(retained_pairs(q, strip_patterns(host)));
            if joined.len() > 0 {
                Some(joined)
            } else {
                None
            }
        },
        None => None,
    }
}

/// The URL with the rules of its host applied.
pub open spec fn cleaned(p: UrlParts) -> UrlParts {
    UrlParts {
        scheme: p.scheme,
        host: p.host,
        port: p.port,
        path: if trims_ref_segment(p.host) {
            trim_ref(p.path)
        } else {
            p.path
        },
        query: cleaned_query(p.query, p.host),
        fragment: p.fragment,
    }
}

pub open spec fn is_scheme(sc: Seq<char>) -> bool {
    sc.len() == 0 || (sc.len() >= 4 && (forall|i: int| 0 <= i < sc.len() - 3 ==> is_alnum(#[trigger] sc[i]))
        && sc[sc.len() - 3] == ':' && sc[sc.len() - 2] == '/' && sc[sc.len() - 1] == '/')
}

/// No character of `s` is of class `kind`.
pub open spec fn none_in(s: Seq<char>, kind: Stop) -> bool {
    forall|i: int| 0 <= i < s.len() ==> !is_stop(#[trigger] s[i], kind)
}

/// Parts that, assembled, are cut back into the same parts.
pub open spec fn well_formed(p: UrlParts) -> bool {
    &&& is_scheme(p.scheme)
    &&& is_host_like(p.host)
    &&& p.port.len() == 0 || p.port[0] == ':'
    &&& none_in(p.port, Stop::AuthorityEnd)
    &&& p.path.len() == 0 || p.path[0] == '/'
    &&& none_in(p.path, Stop::PathEnd)
    &&& match p.query {
        Some(q) => none_in(q, Stop::Hash),
        None => true,
    }
}

/// Every character of `s` may appear in a URL.
pub open spec fn all_url_chars(s: Seq<char>) -> bool {
    forall|i: int| 0 <= i < s.len() ==> is_url_char(#[trigger] s[i])
}

/// The parts of a candidate are well formed.
pub proof fn lemma_parts_well_formed(s: Seq<char>)
    requires
        is_candidate(s),
    ensures
        well_formed(url_parts(s)),
        0 <= scheme_end(s) <= host_end(s) <= authority_end(s) <= path_end(s) <= query_end(s)
            <= s.len(),
{
    let n = s.len() as int;
    let k = first_stop(s, 0, n, Stop::NotAlnum);
    lemma_first_stop(s, 0, n, Stop::NotAlnum);
    let se = scheme_end(s);
    lemma_first_stop(s, se, n, Stop::HostEnd);
    let he = host_end(s);
    lemma_first_stop(s, he, n, Stop::AuthorityEnd);
    let ae = authority_end(s);
    lemma_first_stop(s, ae, n, Stop::PathEnd);
    let pe = path_end(s);
    if has_query(s) {
        lemma_first_stop(s, pe + 1, n, Stop::Hash);
    }
    let p = url_parts(s);
    if se > 0 {
        assert forall|i: int| 0 <= i < p.scheme.len() - 3 implies is_alnum(#[trigger] p.scheme[i]) by {
            assert(p.scheme[i] == s[i]);
        }
    }
    assert forall|i: int| 0 <= i < p.port.len() implies !is_stop(#[trigger] p.port[i], Stop::AuthorityEnd) by {
        assert(p.port[i] == s[he + i]);
    }
    assert forall|i: int| 0 <= i < p.path.len() implies !is_stop(#[trigger] p.path[i], Stop::PathEnd) by {
        assert(p.path[i] == s[ae + i]);
    }
    if p.port.len() > 0 {
        assert(p.port[0] == s[he]);
    }
    if p.path.len() > 0 {
        assert(p.path[0] == s[ae]);
    }
    match p.query {
        Some(q) => {
            assert forall|i: int| 0 <= i < q.len() implies !is_stop(#[trigger] q[i], Stop::Hash) by {
                assert(q[i] == s[pe + 1 + i]);
            }
        },
        None => {},
    }
}

/// Applying the rules keeps parts well formed.
pub proof fn lemma_cleaned_well_formed(p: UrlParts)
    requires
        well_formed(p),
    ensures
        well_formed(cleaned(p)),
{
    let c = cleaned(p);
    if trims_ref_segment(p.host) && ends_in_ref_segment(p.path) {
        let k = last_stop(p.path, p.path.len() as int, Stop::Slash);
        lemma_last_stop(p.path, p.path.len() as int, Stop::Slash);
        assert(c.path == p.path.take(k));
        assert forall|i: int| 0 <= i < c.path.len() implies !is_stop(#[trigger] c.path[i], Stop::PathEnd) by {
            assert(c.path[i] == p.path[i]);
        }
        if c.path.len() > 0 {
            assert(c.path[0] == p.path[0]);
        }
    }
    match p.query {
        Some(q) => {
            let ps = retained_pairs(q, strip_patterns(p.host));
            lemma_retained_settled(q, strip_patterns(p.host));
            lemma_join_chars(ps, strip_patterns(p.host));
            let j = join_pairs(ps);
            assert forall|i: int| 0 <= i < j.len() implies !is_stop(#[trigger] j[i], Stop::Hash) by {
                assert(is_query_char(j[i]));
            }
        },
        None => {},
    }
}

/// Where each part of an assembled URL stands.
pub proof fn lemma_assemble_index(p: UrlParts)
    ensures
        ({
            let t = assemble(p);
            let a = p.scheme.len() as int;
            let b = a + p.host.len();
            let c = b + p.port.len();
            let d = c + p.path.len();
            let e = d + query_text(p).len();
            &&& t.len() == e + fragment_text(p).len()
            &&& forall|j: int| 0 <= j < a ==> #[trigger] t[j] == p.scheme[j]
            &&& forall|j: int| a <= j < b ==> #[trigger] t[j] == p.host[j - a]
            &&& forall|j: int| b <= j < c ==> #[trigger] t[j] == p.port[j - b]
            &&& forall|j: int| c <= j < d ==> #[trigger] t[j] == p.path[j - c]
            &&& forall|j: int| d <= j < e ==> #[trigger] t[j] == query_text(p)[j - d]
            &&& forall|j: int| e <= j < t.len() ==> #[trigger] t[j] == fragment_text(p)[j - e]
        }),
{
}

/// The scheme of an assembled URL is found where it was put.
proof fn lemma_scheme_of_assembled(p: UrlParts)
    requires
        well_formed(p),
    ensures
        scheme_end(assemble(p)) == p.scheme.len(),
{
    let t = assemble(p);
    let n = t.len() as int;
    let a = p.scheme.len() as int;
    lemma_assemble_index(p);
    let dot = last_stop(p.host, p.host.len() as int, Stop::Dot);
    lemma_last_stop(p.host, p.host.len() as int, Stop::Dot);
    let k = first_stop(t, 0, n, Stop::NotAlnum);
    lemma_first_stop(t, 0, n, Stop::NotAlnum);
    if a > 0 {
        assert(t[a - 3] == p.scheme[a - 3]);
        assert forall|j: int| 0 <= j < a - 3 implies !is_stop(#[trigger] t[j], Stop::NotAlnum) by {
            assert(t[j] == p.scheme[j]);
        }
        lemma_first_stop_unique(t, 0, n, Stop::NotAlnum, a - 3);
        assert(t[a - 2] == p.scheme[a - 2]);
        assert(t[a - 1] == p.scheme[a - 1]);
    } else {
        assert(t[dot] == p.host[dot]);
        assert(k <= dot);
        assert(t[k] == p.host[k]);
        assert(is_host_char(p.host[k]));
    }
}

/// The host, port and path of an assembled URL end where they were put.
proof fn lemma_authority_of_assembled(p: UrlParts)
    requires
        well_formed(p),
    ensures
        ({
            let b = p.scheme.len() + p.host.len();
            let c = b + p.port.len();
            &&& host_end(assemble(p)) == b
            &&& authority_end(assemble(p)) == c
            &&& path_end(assemble(p)) == c + p.path.len()
        }),
{
    let t = assemble(p);
    let n = t.len() as int;
    let a = p.scheme.len() as int;
    let b = a + p.host.len();
    let c = b + p.port.len();
    let d = c + p.path.len();
    lemma_assemble_index(p);
    lemma_scheme_of_assembled(p);
    let next_b = if p.port.len() > 0 {
        p.port[0]
    } else if p.path.len() > 0 {
        p.path[0]
    } else if p.query is Some {
        '?'
    } else {
        '#'
    };
    assert(b < n ==> t[b] == next_b);
    assert forall|j: int| a <= j < b implies !is_stop(#[trigger] t[j], Stop::HostEnd) by {
        assert(t[j] == p.host[j - a]);
        assert(is_host_char(p.host[j - a]));
    }
    lemma_first_stop_unique(t, a, n, Stop::HostEnd, b);
    let next_c = if p.path.len() > 0 {
        p.path[0]
    } else if p.query is Some {
        '?'
    } else {
        '#'
    };
    assert(c < n ==> t[c] == next_c);
    assert forall|j: int| b <= j < c implies !is_stop(#[trigger] t[j], Stop::AuthorityEnd) by {
        assert(t[j] == p.port[j - b]);
    }
    lemma_first_stop_unique(t, b, n, Stop::AuthorityEnd, c);
    let next_d = if p.query is Some {
        '?'
    } else {
        '#'
    };
    assert(d < n ==> t[d] == next_d);
    assert forall|j: int| c <= j < d implies !is_stop(#[trigger] t[j], Stop::PathEnd) by {
        assert(t[j] == p.path[j - c]);
    }
    lemma_first_stop_unique(t, c, n, Stop::PathEnd, d);
}

/// Cutting an assembled URL gives its parts back.
pub proof fn lemma_round_trip(p: UrlParts)
    requires
        well_formed(p),
    ensures
        url_parts(assemble(p)) == p,
{
    let t = assemble(p);
    let n = t.len() as int;
    let a = p.scheme.len() as int;
    let b = a + p.host.len();
    let c = b + p.port.len();
    let d = c + p.path.len();
    let e = d + query_text(p).len();
    lemma_assemble_index(p);
    lemma_scheme_of_assembled(p);
    lemma_authority_of_assembled(p);
    match p.query {
        Some(q) => {
            assert(t[d] == '?');
            assert forall|j: int| d + 1 <= j < e implies !is_stop(#[trigger] t[j], Stop::Hash) by {
                assert(t[j] == query_text(p)[j - d]);
                assert(query_text(p)[j - d] == q[j - d - 1]);
            }
            assert(e < n ==> t[e] == '#');
            lemma_first_stop_unique(t, d + 1, n, Stop::Hash, e);
            assert(t.subrange(d + 1, e) =~= q);
        },
        None => {
            assert(d < n ==> t[d] == '#');
        },
    }
    assert(query_end(t) == e);
    match p.fragment {
        Some(f) => {
            assert(t.skip(e + 1) =~= f);
        },
        None => {},
    }
    assert(t.take(a) =~= p.scheme);
    assert(t.subrange(a, b) =~= p.host);
    assert(t.subrange(b, c) =~= p.port);
    assert(t.subrange(c, d) =~= p.path);
}

/// Assembling parts of URL characters gives URL characters.
pub proof fn lemma_assemble_url_chars(p: UrlParts)
    requires
        all_url_chars(p.scheme),
        all_url_chars(p.host),
        all_url_chars(p.port),
        all_url_chars(p.path),
        match p.query {
            Some(q) => all_url_chars(q),
            None => true,
        },
        match p.fragment {
            Some(f) => all_url_chars(f),
            None => true,
        },
    ensures
        all_url_chars(assemble(p)),
{
    let t = assemble(p);
    let a = p.scheme.len() as int;
    let b = a + p.host.len();
    let c = b + p.port.len();
    let d = c + p.path.len();
    let e = d + query_text(p).len();
    lemma_assemble_index(p);
    assert forall|j: int| 0 <= j < t.len() implies is_url_char(#[trigger] t[j]) by {
        if j < a {
            assert(t[j] == p.scheme[j]);
        } else if j < b {
            assert(t[j] == p.host[j - a]);
        } else if j < c {
            assert(t[j] == p.port[j - b]);
        } else if j < d {
            assert(t[j] == p.path[j - c]);
        } else if j < e {
            assert(t[j] == query_text(p)[j - d]);
            if j > d {
                assert(query_text(p)[j - d] == p.query->0[j - d - 1]);
            }
        } else {
            assert(t[j] == fragment_text(p)[j - e]);
            if j > e {
                assert(fragment_text(p)[j - e] == p.fragment->0[j - e - 1]);
            }
        }
    }
}

/// Where the parts of a URL stand in its text.
pub struct Layout {
    pub scheme_end: usize,
    pub host_end: usize,
    pub authority_end: usize,
    pub path_end: usize,
    pub query_end: usize,
}

impl Layout {
    pub open spec fn describes(self, s: Seq<char>) -> bool {
        &&& self.scheme_end == scheme_end(s)
        &&& self.host_end == host_end(s)
        &&& self.authority_end == authority_end(s)
        &&& self.path_end == path_end(s)
        &&& self.query_end == query_end(s)
        &&& 0 <= scheme_end(s) <= host_end(s) <= authority_end(s) <= path_end(s)
            <= query_end(s) <= s.len()
        &&& has_query(s) ==> path_end(s) + 1 <= query_end(s)
        &&& query_end(s) < s.len() ==> s[query_end(s)] == '#'
    }
}

/// Scans `s` for the delimiters of its parts.
pub fn layout_of(s: &Vec<char>) -> (r: Layout)
    ensures
        r.describes(s@),
{
    let n = s.len();
    let k = find_stop(s, 0, n, Stop::NotAlnum);
    let se = if k >= 1 && n - k >= 3 && s[k] == ':' && s[k + 1] == '/' && s[k + 2] == '/' {
        k + 3
    } else {
        0
    };
    let he = find_stop(s, se, n, Stop::HostEnd);
    let ae = find_stop(s, he, n, Stop::AuthorityEnd);
    let pe = find_stop(s, ae, n, Stop::PathEnd);
    let qe = if pe < n && s[pe] == '?' {
        find_stop(s, pe + 1, n, Stop::Hash)
    } else {
        pe
    };
    proof {
        lemma_first_stop(s@, ae as int, n as int, Stop::PathEnd);
    }
    Layout { scheme_end: se, host_end: he, authority_end: ae, path_end: pe, query_end: qe }
}

/// Appends `s[lo..hi]` to `out`.
pub fn extend_range(out: &mut Vec<char>, s: &Vec<char>, lo: usize, hi: usize)
    requires
        lo <= hi <= s@.len(),
    ensures
        final(out)@ == old(out)@ + s@.subrange(lo as int, hi as int),
{
    let ghost start = out@;
    let mut i = lo;
    while i < hi
        invariant
            lo <= i <= hi <= s@.len(),
            out@ == start + s@.subrange(lo as int, i as int),
        decreases hi - i,
    {
        assert(s@.subrange(lo as int, i + 1) =~= s@.subrange(lo as int, i as int).push(s@[i as int]));
        out.push(s[i]);
        i = i + 1;
    }
}

/// A copy of `s[lo..hi]`.
pub fn copy_range(s: &Vec<char>, lo: usize, hi: usize) -> (r: Vec<char>)
    requires
        lo <= hi <= s@.len(),
    ensures
        r@ == s@.subrange(lo as int, hi as int),
{
    let mut r: Vec<char> = Vec::new();
    extend_range(&mut r, s, lo, hi);
    assert(r@ =~= s@.subrange(lo as int, hi as int));
    r
}

fn is_host_character(c: char) -> (r: bool)
    ensures
        r == is_host_char(c),
{
    is_alnum_char(c) || c == '-' || c == '.'
}

/// Whether `h` looks like a host name.
pub fn host_like(h: &Vec<char>) -> (r: bool)
    ensures
        r == is_host_like(h@),
{
    let n = h.len();
    let mut i: usize = 0;
    while i < n
        invariant
            i <= n == h@.len(),
            forall|j: int| 0 <= j < i ==> is_host_char(#[trigger] h@[j]),
        decreases n - i,
    {
        if !is_host_character(h[i]) {
            return false;
        }
        i = i + 1;
    }
    proof {
        lemma_last_stop(h@, n as int, Stop::Dot);
    }
    let d = match find_last_stop(h, n, Stop::Dot) {
        Some(d) => d,
        None => {
            return false;
        },
    };
    if d < 1 || n - d - 1 < 1 || n - d - 1 > 6 {
        return false;
    }
    let mut j = d + 1;
    while j < n
        invariant
            d < j <= n == h@.len(),
            d as int == last_stop(h@, n as int, Stop::Dot),
            forall|m: int| d < m < j ==> is_alnum(#[trigger] h@[m]),
        decreases n - j,
    {
        if !is_alnum_char(h[j]) {
            return false;
        }
        j = j + 1;
    }
    true
}

/// Whether the path ends in a `ref=` segment, and where that segment's `/` is.
pub fn ref_segment_start(path: &Vec<char>) -> (r: Option<usize>)
    ensures
        match r {
            Some(k) => ends_in_ref_segment(path@) && k == last_stop(
                path@,
                path@.len() as int,
                Stop::Slash,
            ),
            None => !ends_in_ref_segment(path@),
        },
{
    let n = path.len();
    match find_last_stop(path, n, Stop::Slash) {
        Some(k) => {
            proof {
                lemma_last_stop(path@, n as int, Stop::Slash);
            }
            if n - k >= 5 && path[k + 1] == 'r' && path[k + 2] == 'e' && path[k + 3] == 'f'
                && path[k + 4] == '=' {
                assert(path@.subrange(k + 1, k + 5) =~= seq!['r', 'e', 'f', '=']);
                Some(k)
            } else {
                proof {
                    if n - k >= 5 {
                        let seg = path@.subrange(k + 1, k + 5);
                        if seg == seq!['r', 'e', 'f', '='] {
                            assert(seg[0] == path@[k + 1]);
                            assert(seg[1] == path@[k + 2]);
                            assert(seg[2] == path@[k + 3]);
                            assert(seg[3] == path@[k + 4]);
                        }
                    }
                }
                None
            }
        },
        None => None,
    }
}

/// Appends the path of `tok`, without its `ref=` segment when `trim` is set.
fn emit_path(tok: &Vec<char>, l: &Layout, trim: bool, out: &mut Vec<char>)
    requires
        l.describes(tok@),
    ensures
        final(out)@ == old(out)@ + if trim {
            trim_ref(url_parts(tok@).path)
        } else {
            url_parts(tok@).path
        },
{
    let path = copy_range(tok, l.authority_end, l.path_end);
    assert(path@.subrange(0, path@.len() as int) =~= path@);
    if trim {
        match ref_segment_start(&path) {
            Some(k) => {
                proof {
                    lemma_last_stop(path@, path@.len() as int, Stop::Slash);
                }
                extend_range(out, &path, 0, k);
                assert(path@.subrange(0, k as int) =~= path@.take(k as int));
            },
            None => {
                extend_range(out, &path, 0, path.len());
            },
        }
    } else {
        extend_range(out, &path, 0, path.len());
    }
}

/// Appends `?` and the retained pairs of the query of `tok`, if any are left.
fn emit_query(tok: &Vec<char>, l: &Layout, patterns: &Vec<&str>, out: &mut Vec<char>)
    requires
        l.describes(tok@),
        patterns@ == strip_patterns(url_parts(tok@).host),
    ensures
        final(out)@ == old(out)@ + match cleaned_query(url_parts(tok@).query, url_parts(tok@).host) {
            Some(q) => seq!['?'] + q,
            None => seq![],
        },
{
    let n = tok.len();
    if l.path_end < n && tok[l.path_end] == '?' {
        let mut q: Vec<char> = Vec::new();
        clean_query_into(tok, l.path_end + 1, l.query_end, patterns, &mut q);
        assert(q@.subrange(0, q@.len() as int) =~= q@);
        if q.len() > 0 {
            out.push('?');
            extend_range(out, &q, 0, q.len());
        }
        assert(q@ =~= Seq::<char>::empty() + q@);
    } else {
        assert(old(out)@ =~= old(out)@ + Seq::<char>::empty());
    }
}

/// Appends `#` and the fragment of `tok`, if it has one.
fn emit_fragment(tok: &Vec<char>, l: &Layout, out: &mut Vec<char>)
    requires
        l.describes(tok@),
    ensures
        final(out)@ == old(out)@ + match url_parts(tok@).fragment {
            Some(f) => seq!['#'] + f,
            None => seq![],
        },
{
    let n = tok.len();
    if l.query_end < n {
        assert(tok@.subrange(l.query_end as int, n as int) =~= seq!['#'] + tok@.skip(
            l.query_end + 1,
        ));
        extend_range(out, tok, l.query_end, n);
    } else {
        assert(old(out)@ =~= old(out)@ + Seq::<char>::empty());
    }
}

/// Appends the URL `tok` with the rules of its host applied.
pub fn emit_cleaned(tok: &Vec<char>, l: &Layout, out: &mut Vec<char>)
    requires
        l.describes(tok@),
    ensures
        final(out)@ == old(out)@ + assemble(cleaned(url_parts(tok@))),
{
    let ghost start = out@;
    let ghost p = url_parts(tok@);
    let ghost c = cleaned(p);
    let rule = lookup_rule(tok, l.scheme_end, l.host_end);
    let patterns = patterns_for(rule);
    assert(patterns@ == strip_patterns(p.host));
    let trim = match rule {
        Some(rule) => rule.trims_ref_segment(),
        None => false,
    };
    assert(trim == trims_ref_segment(p.host));
    extend_range(out, tok, 0, l.authority_end);
    assert(out@ =~= start + p.scheme + p.host + p.port);
    emit_path(tok, l, trim, out);
    assert(out@ == start + p.scheme + p.host + p.port + c.path);
    emit_query(tok, l, &patterns, out);
    assert(out@ == start + p.scheme + p.host + p.port + c.path + query_text(c));
    emit_fragment(tok, l, out);
    assert(out@ == start + p.scheme + p.host + p.port + c.path + query_text(c) + fragment_text(c));
    assert(out@ =~= start + assemble(c));
}

} // verus!
