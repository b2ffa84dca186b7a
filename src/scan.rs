//! Character classes and the scanning primitive that every other part of the
//! engine is built on: finding the first (or last) character of a class.

use vstd::prelude::*;

verus! {

/// The character classes that the engine scans for.
#[derive(Clone, Copy, PartialEq, Eq)]
pub enum Stop {
    /// Any character that cannot be part of a URL.
    NotUrlChar,
    /// Any character other than an ASCII letter or digit.
    NotAlnum,
    /// `:`, `/`, `?` or `#`: the end of a host name.
    HostEnd,
    /// `/`, `?` or `#`: the end of an authority.
    AuthorityEnd,
    /// `?` or `#`: the end of a path.
    PathEnd,
    /// `#`: the end of a query.
    Hash,
    /// `&`: the end of a query pair.
    Amp,
    /// `=`: the end of a query key.
    Equals,
    /// `/`: a path separator.
    Slash,
    /// `.`: a host label separator.
    Dot,
}

pub open spec fn is_alnum(c: char) -> bool {
    ('a' <= c && c <= 'z') || ('A' <= c && c <= 'Z') || ('0' <= c && c <= '9')
}

/// The characters that may appear in a located URL.
pub open spec fn is_url_char(c: char) -> bool {
    is_alnum(c) || c == '-' || c == '(' || c == ')' || c == '@' || c == ':' || c == '%'
        || c == '_' || c == '+' || c == '.' || c == '~' || c == '#' || c == '?' || c == '&'
        || c == '/' || c == '='
}

pub open spec fn is_stop(c: char, kind: Stop) -> bool {
    match kind {
        Stop::NotUrlChar => !is_url_char(c),
        Stop::NotAlnum => !is_alnum(c),
        Stop::HostEnd => c == ':' || c == '/' || c == '?' || c == '#',
        Stop::AuthorityEnd => c == '/' || c == '?' || c == '#',
        Stop::PathEnd => c == '?' || c == '#',
        Stop::Hash => c == '#',
        Stop::Amp => c == '&',
        Stop::Equals => c == '=',
        Stop::Slash => c == '/',
        Stop::Dot => c == '.',
    }
}

/// The first position in `from..to` whose character is in the class `kind`,
/// or `to` when there is none.
pub open spec fn first_stop(s: Seq<char>, from: int, to: int, kind: Stop) -> int
    decreases to - from,
{
    if from >= to {
        to
    } else if is_stop(s[from], kind) {
        from
    } else {
        first_stop(s, from + 1, to, kind)
    }
}

/// `k` is the first position in `from..to` of a character of class `kind`, or `to`.
pub open spec fn is_first_stop(s: Seq<char>, from: int, to: int, kind: Stop, k: int) -> bool {
    &&& from <= k <= to
    &&& forall|j: int| from <= j < k ==> !is_stop(#[trigger] s[j], kind)
    &&& k == to || is_stop(s[k], kind)
}

/// The last position in `0..to` whose character is in the class `kind`, or -1.
pub open spec fn last_stop(s: Seq<char>, to: int, kind: Stop) -> int
    decreases to,
{
    if to <= 0 {
        -1
    } else if is_stop(s[to - 1], kind) {
        to - 1
    } else {
        last_stop(s, to - 1, kind)
    }
}

/// `first_stop` finds the first character of its class.
pub proof fn lemma_first_stop(s: Seq<char>, from: int, to: int, kind: Stop)
    requires
        0 <= from <= to <= s.len(),
    ensures
        is_first_stop(s, from, to, kind, first_stop(s, from, to, kind)),
    decreases to - from,
{
    if from < to && !is_stop(s[from], kind) {
        lemma_first_stop(s, from + 1, to, kind);
    }
}

/// Only one position is the first of a class.
pub proof fn lemma_first_stop_unique(s: Seq<char>, from: int, to: int, kind: Stop, k: int)
    requires
        0 <= from <= to <= s.len(),
        is_first_stop(s, from, to, kind, k),
    ensures
        first_stop(s, from, to, kind) == k,
{
    lemma_first_stop(s, from, to, kind);
    let f = first_stop(s, from, to, kind);
    if f < k {
        assert(!is_stop(s[f], kind));
    } else if k < f {
        assert(!is_stop(s[k], kind));
    }
}

/// Scanning a window of `s` is scanning `s` itself, shifted by the window's start.
pub proof fn lemma_first_stop_shift(
    s: Seq<char>,
    from: int,
    to: int,
    kind: Stop,
    lo: int,
    hi: int,
)
    requires
        0 <= lo <= from <= to <= hi <= s.len(),
    ensures
        first_stop(s.subrange(lo, hi), from - lo, to - lo, kind) == first_stop(s, from, to, kind)
            - lo,
{
    let w = s.subrange(lo, hi);
    let f = first_stop(s, from, to, kind);
    lemma_first_stop(s, from, to, kind);
    assert forall|j: int| from - lo <= j < f - lo implies !is_stop(#[trigger] w[j], kind) by {
        assert(w[j] == s[j + lo]);
    }
    if f < to {
        assert(w[f - lo] == s[f]);
    }
    lemma_first_stop_unique(w, from - lo, to - lo, kind, f - lo);
}

/// `last_stop` finds the last character of its class.
pub proof fn lemma_last_stop(s: Seq<char>, to: int, kind: Stop)
    requires
        0 <= to <= s.len(),
    ensures
        -1 <= last_stop(s, to, kind) < to,
        last_stop(s, to, kind) >= 0 ==> is_stop(s[last_stop(s, to, kind)], kind),
        forall|j: int| last_stop(s, to, kind) < j < to ==> !is_stop(#[trigger] s[j], kind),
    decreases to,
{
    if to > 0 && !is_stop(s[to - 1], kind) {
        lemma_last_stop(s, to - 1, kind);
    }
}

pub fn is_alnum_char(c: char) -> (r: bool)
    ensures
        r == is_alnum(c),
{
    ('a' <= c && c <= 'z') || ('A' <= c && c <= 'Z') || ('0' <= c && c <= '9')
}

pub fn is_url_character(c: char) -> (r: bool)
    ensures
        r == is_url_char(c),
{
    is_alnum_char(c) || c == '-' || c == '(' || c == ')' || c == '@' || c == ':' || c == '%'
        || c == '_' || c == '+' || c == '.' || c == '~' || c == '#' || c == '?' || c == '&'
        || c == '/' || c == '='
}

pub fn stops_at(c: char, kind: Stop) -> (r: bool)
    ensures
        r == is_stop(c, kind),
{
    match kind {
        Stop::NotUrlChar => !is_url_character(c),
        Stop::NotAlnum => !is_alnum_char(c),
        Stop::HostEnd => c == ':' || c == '/' || c == '?' || c == '#',
        Stop::AuthorityEnd => c == '/' || c == '?' || c == '#',
        Stop::PathEnd => c == '?' || c == '#',
        Stop::Hash => c == '#',
        Stop::Amp => c == '&',
        Stop::Equals => c == '=',
        Stop::Slash => c == '/',
        Stop::Dot => c == '.',
    }
}

/// Finds the first character of class `kind` in `s[from..to]`.
pub fn find_stop(s: &Vec<char>, from: usize, to: usize, kind: Stop) -> (r: usize)
    requires
        from <= to <= s@.len(),
    ensures
        r == first_stop(s@, from as int, to as int, kind),
        is_first_stop(s@, from as int, to as int, kind, r as int),
{
    let mut i = from;
    while i < to && !stops_at(s[i], kind)
        invariant
            from <= i <= to <= s@.len(),
            first_stop(s@, from as int, to as int, kind) == first_stop(s@, i as int, to as int, kind),
        decreases to - i,
    {
        i = i + 1;
    }
    proof {
        lemma_first_stop(s@, from as int, to as int, kind);
    }
    i
}

/// Finds the last character of class `kind` in `s[..to]`, if any.
pub fn find_last_stop(s: &Vec<char>, to: usize, kind: Stop) -> (r: Option<usize>)
    requires
        to <= s@.len(),
    ensures
        match r {
            Some(k) => k as int == last_stop(s@, to as int, kind),
            None => last_stop(s@, to as int, kind) == -1,
        },
{
    let mut i = to;
    while i > 0
        invariant
            i <= to <= s@.len(),
            last_stop(s@, to as int, kind) == last_stop(s@, i as int, kind),
        decreases i,
    {
        if stops_at(s[i - 1], kind) {
            return Some(i - 1);
        }
        i = i - 1;
    }
    None
}

} // verus!
