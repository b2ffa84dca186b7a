//! Query strings: splitting them into `key=value` pairs, normalising the
//! percent-encoding of what is kept, and dropping the pairs whose key is a
//! tracking key.

use vstd::prelude::*;
use crate::scan::{
    find_stop, first_stop, is_alnum, is_alnum_char, is_stop, lemma_first_stop,
    lemma_first_stop_shift, lemma_first_stop_unique, Stop,
};

verus! {

pub open spec fn is_hex(c: char) -> bool {
    ('0' <= c && c <= '9') || ('a' <= c && c <= 'f') || ('A' <= c && c <= 'F')
}

/// Characters that a query component keeps as they are: the rest are
/// percent-encoded, as `application/x-www-form-urlencoded` does.
pub open spec fn is_kept(c: char) -> bool {
    is_alnum(c) || c == '-' || c == '.' || c == '_' || c == '+'
}

/// The upper-case hexadecimal digit of `n` (for `n < 16`).
pub open spec fn hex_digit(n: u32) -> char {
    if n < 10 {
        match n {
            0 => '0',
            1 => '1',
            2 => '2',
            3 => '3',
            4 => '4',
            5 => '5',
            6 => '6',
            7 => '7',
            8 => '8',
            _ => '9',
        }
    } else {
        match n {
            10 => 'A',
            11 => 'B',
            12 => 'C',
            13 => 'D',
            14 => 'E',
            _ => 'F',
        }
    }
}

/// `%XX` for an ASCII character.
pub open spec fn percent_encoded(c: char) -> Seq<char> {
    seq!['%', hex_digit(((c as u32) / 16) % 16), hex_digit((c as u32) % 16)]
}

/// The query component `s` with every character that is neither kept nor part
/// of a well-formed `%XX` sequence percent-encoded. Well-formed sequences are
/// left exactly as written.
pub open spec fn normalize(s: Seq<char>) -> Seq<char>
    decreases s.len(),
{
    if s.len() == 0 {
        seq![]
    } else if s[0] == '%' && s.len() >= 3 && is_hex(s[1]) && is_hex(s[2]) {
        s.take(3) + normalize(s.skip(3))
    } else if is_kept(s[0]) {
        seq![s[0]] + normalize(s.skip(1))
    } else {
        percent_encoded(s[0]) + normalize(s.skip(1))
    }
}

/// A character that `normalize` can produce.
pub open spec fn is_normal_char(c: char) -> bool {
    is_kept(c) || c == '%'
}

pub open spec fn all_normal(s: Seq<char>) -> bool {
    forall|i: int| 0 <= i < s.len() ==> is_normal_char(#[trigger] s[i])
}

/// Hexadecimal digits are hexadecimal and kept as they are.
pub proof fn lemma_hex_digit(n: u32)
    ensures
        is_hex(hex_digit(n)),
        is_kept(hex_digit(n)),
{
}

/// `normalize` produces only characters it keeps.
pub proof fn lemma_normalize_all_normal(s: Seq<char>)
    ensures
        all_normal(normalize(s)),
    decreases s.len(),
{
    if s.len() > 0 {
        let c = s[0];
        if c == '%' && s.len() >= 3 && is_hex(s[1]) && is_hex(s[2]) {
            lemma_normalize_all_normal(s.skip(3));
        } else if is_kept(c) {
            lemma_normalize_all_normal(s.skip(1));
        } else {
            lemma_hex_digit(((c as u32) / 16) % 16);
            lemma_hex_digit((c as u32) % 16);
            lemma_normalize_all_normal(s.skip(1));
        }
        let r = normalize(s);
        let head = if c == '%' && s.len() >= 3 && is_hex(s[1]) && is_hex(s[2]) {
            s.take(3)
        } else if is_kept(c) {
            seq![c]
        } else {
            percent_encoded(c)
        };
        let tail = if c == '%' && s.len() >= 3 && is_hex(s[1]) && is_hex(s[2]) {
            normalize(s.skip(3))
        } else {
            normalize(s.skip(1))
        };
        assert(r == head + tail);
        assert forall|i: int| 0 <= i < r.len() implies is_normal_char(#[trigger] r[i]) by {
            if i >= head.len() {
                assert(r[i] == tail[i - head.len()]);
            }
        }
    }
}

/// Normalising a normalised component changes nothing.
pub proof fn lemma_normalize_idempotent(s: Seq<char>)
    ensures
        normalize(normalize(s)) == normalize(s),
    decreases s.len(),
{
    if s.len() > 0 {
        let c = s[0];
        if c == '%' && s.len() >= 3 && is_hex(s[1]) && is_hex(s[2]) {
            let rest = normalize(s.skip(3));
            lemma_normalize_idempotent(s.skip(3));
            let r = s.take(3) + rest;
            assert(r.skip(3) =~= rest);
            assert(r.take(3) =~= s.take(3));
        } else if is_kept(c) {
            let rest = normalize(s.skip(1));
            lemma_normalize_idempotent(s.skip(1));
            let r = seq![c] + rest;
            assert(r.skip(1) =~= rest);
        } else {
            let rest = normalize(s.skip(1));
            lemma_normalize_idempotent(s.skip(1));
            lemma_hex_digit(((c as u32) / 16) % 16);
            lemma_hex_digit((c as u32) % 16);
            let r = percent_encoded(c) + rest;
            assert(r.skip(3) =~= rest);
            assert(r.take(3) =~= percent_encoded(c));
        }
    }
}

fn hex_char(n: u32) -> (r: char)
    ensures
        r == hex_digit(n),
{
    match n {
        0 => '0',
        1 => '1',
        2 => '2',
        3 => '3',
        4 => '4',
        5 => '5',
        6 => '6',
        7 => '7',
        8 => '8',
        9 => '9',
        10 => 'A',
        11 => 'B',
        12 => 'C',
        13 => 'D',
        14 => 'E',
        _ => 'F',
    }
}

fn is_hex_char(c: char) -> (r: bool)
    ensures
        r == is_hex(c),
{
    ('0' <= c && c <= '9') || ('a' <= c && c <= 'f') || ('A' <= c && c <= 'F')
}

fn is_kept_char(c: char) -> (r: bool)
    ensures
        r == is_kept(c),
{
    is_alnum_char(c) || c == '-' || c == '.' || c == '_' || c == '+'
}

/// Appends the normalised form of `s[lo..hi]` to `out`.
pub fn normalize_into(s: &Vec<char>, lo: usize, hi: usize, out: &mut Vec<char>)
    requires
        lo <= hi <= s@.len(),
    ensures
        final(out)@ == old(out)@ + normalize(s@.subrange(lo as int, hi as int)),
{
    let ghost start = out@;
    let mut i = lo;
    while i < hi
        invariant
            lo <= i <= hi <= s@.len(),
            start + normalize(s@.subrange(lo as int, hi as int)) == out@ + normalize(
                s@.subrange(i as int, hi as int),
            ),
        decreases hi - i,
    {
        let ghost w = s@.subrange(i as int, hi as int);
        let c = s[i];
        assert(w[0] == c);
        if c == '%' && hi - i >= 3 && is_hex_char(s[i + 1]) && is_hex_char(s[i + 2]) {
            assert(w[1] == s@[i + 1]);
            assert(w[2] == s@[i + 2]);
            assert(w.skip(3) =~= s@.subrange(i + 3, hi as int));
            assert(w.take(3) =~= seq![c, s@[i + 1], s@[i + 2]]);
            out.push(c);
            out.push(s[i + 1]);
            out.push(s[i + 2]);
            i = i + 3;
        } else {
            assert(w.skip(1) =~= s@.subrange(i + 1, hi as int));
            if is_kept_char(c) {
                out.push(c);
            } else {
                let code = c as u32;
                out.push('%');
                out.push(hex_char((code / 16) % 16));
                out.push(hex_char(code % 16));
            }
            i = i + 1;
        }
    }
    assert(s@.subrange(hi as int, hi as int) =~= Seq::<char>::empty());
}

/// A key pattern: a plain key, or a prefix followed by `*`.
pub open spec fn key_matches(pattern: Seq<char>, key: Seq<char>) -> bool {
    if pattern.len() > 0 && pattern.last() == '*' {
        key.len() >= pattern.len() - 1 && key.take(pattern.len() - 1) == pattern.drop_last()
    } else {
        key == pattern
    }
}

/// `key` matches one of `patterns`.
pub open spec fn is_stripped(patterns: Seq<&str>, key: Seq<char>) -> bool {
    exists|i: int| 0 <= i < patterns.len() && key_matches(#[trigger] patterns[i]@, key)
}

/// Whether the first `n` characters of `pattern` and `key` agree.
fn agrees(pattern: &str, key: &Vec<char>, n: usize) -> (r: bool)
    requires
        n <= pattern@.len(),
        n <= key@.len(),
    ensures
        r == (key@.take(n as int) == pattern@.take(n as int)),
{
    let mut i: usize = 0;
    while i < n
        invariant
            i <= n <= pattern@.len(),
            n <= key@.len(),
            forall|j: int| 0 <= j < i ==> key@[j] == pattern@[j],
        decreases n - i,
    {
        if key[i] != pattern.get_char(i) {
            assert(key@.take(n as int)[i as int] != pattern@.take(n as int)[i as int]);
            return false;
        }
        i = i + 1;
    }
    assert(key@.take(n as int) =~= pattern@.take(n as int));
    true
}

/// Whether `key` matches the key pattern `pattern`.
pub fn pattern_matches(pattern: &str, key: &Vec<char>) -> (r: bool)
    ensures
        r == key_matches(pattern@, key@),
{
    let len = pattern.unicode_len();
    if len > 0 && pattern.get_char(len - 1) == '*' {
        let n = len - 1;
        if key.len() < n {
            false
        } else {
            assert(pattern@.take(n as int) =~= pattern@.drop_last());
            agrees(pattern, key, n)
        }
    } else if key.len() != len {
        false
    } else {
        let r = agrees(pattern, key, len);
        assert(key@.take(len as int) =~= key@);
        assert(pattern@.take(len as int) =~= pattern@);
        r
    }
}

/// Whether `key` matches one of `patterns`.
pub fn key_is_stripped(patterns: &Vec<&str>, key: &Vec<char>) -> (r: bool)
    ensures
        r == is_stripped(patterns@, key@),
{
    let mut i: usize = 0;
    while i < patterns.len()
        invariant
            i <= patterns@.len(),
            forall|j: int| 0 <= j < i ==> !key_matches(#[trigger] patterns@[j]@, key@),
        decreases patterns@.len() - i,
    {
        if pattern_matches(patterns[i], key) {
            return true;
        }
        i = i + 1;
    }
    false
}

/// The key of a `key=value` piece: everything before the first `=`.
pub open spec fn piece_key(piece: Seq<char>) -> Seq<char> {
    piece.take(first_stop(piece, 0, piece.len() as int, Stop::Equals))
}

/// The value of a piece: everything after the first `=`, or nothing.
pub open spec fn piece_value(piece: Seq<char>) -> Seq<char> {
    let e = first_stop(piece, 0, piece.len() as int, Stop::Equals);
    if e < piece.len() {
        piece.skip(e + 1)
    } else {
        seq![]
    }
}

/// What a piece of the query becomes: nothing when it is empty or its key is
/// stripped, else its normalised key and value.
pub open spec fn kept_piece(piece: Seq<char>, patterns: Seq<&str>) -> Option<Seq<char>> {
    if piece.len() == 0 {
        None
    } else if is_stripped(patterns, normalize(piece_key(piece))) {
        None
    } else {
        Some(normalize(piece_key(piece)) + seq!['='] + normalize(piece_value(piece)))
    }
}

/// The retained pairs of the query `q`, in the order they appear, each
/// written `key=value`.
pub open spec fn retained_pairs(q: Seq<char>, patterns: Seq<&str>) -> Seq<Seq<char>>
    decreases q.len(),
{
    if q.len() == 0 {
        seq![]
    } else {
        let a = first_stop(q, 0, q.len() as int, Stop::Amp);
        proof {
            lemma_first_stop(q, 0, q.len() as int, Stop::Amp);
        }
        let rest = if a < q.len() {
            q.skip(a + 1)
        } else {
            seq![]
        };
        match kept_piece(q.take(a), patterns) {
            Some(p) => seq![p] + retained_pairs(rest, patterns),
            None => retained_pairs(rest, patterns),
        }
    }
}

/// The pairs joined by `&`.
pub open spec fn join_pairs(ps: Seq<Seq<char>>) -> Seq<char>
    decreases ps.len(),
{
    if ps.len() == 0 {
        seq![]
    } else if ps.len() == 1 {
        ps[0]
    } else {
        join_pairs(ps.drop_last()) + seq!['&'] + ps.last()
    }
}

/// A character of a cleaned query.
pub open spec fn is_query_char(c: char) -> bool {
    is_normal_char(c) || c == '=' || c == '&'
}

/// A retained pair that cleaning keeps exactly as it is.
pub open spec fn is_settled_pair(p: Seq<char>, patterns: Seq<&str>) -> bool {
    &&& p.len() > 0
    &&& kept_piece(p, patterns) == Some(p)
    &&& forall|j: int| 0 <= j < p.len() ==> #[trigger] p[j] != '&' && is_query_char(p[j])
}

/// A kept piece is settled: cleaning it again keeps it as it is.
pub proof fn lemma_kept_piece_settled(piece: Seq<char>, patterns: Seq<&str>)
    requires
        kept_piece(piece, patterns) is Some,
    ensures
        is_settled_pair(kept_piece(piece, patterns)->0, patterns),
{
    let nk = normalize(piece_key(piece));
    let nv = normalize(piece_value(piece));
    let p = nk + seq!['='] + nv;
    assert(kept_piece(piece, patterns) == Some(p));
    lemma_normalize_all_normal(piece_key(piece));
    lemma_normalize_all_normal(piece_value(piece));
    lemma_normalize_idempotent(piece_key(piece));
    lemma_normalize_idempotent(piece_value(piece));
    assert forall|j: int| 0 <= j < nk.len() implies !is_stop(#[trigger] p[j], Stop::Equals) by {
        assert(p[j] == nk[j]);
        assert(is_normal_char(nk[j]));
    }
    assert(p[nk.len() as int] == '=');
    lemma_first_stop_unique(p, 0, p.len() as int, Stop::Equals, nk.len() as int);
    assert(piece_key(p) =~= nk);
    assert(piece_value(p) =~= nv);
    assert forall|j: int| 0 <= j < p.len() implies #[trigger] p[j] != '&' && is_query_char(p[j]) by {
        if j < nk.len() {
            assert(p[j] == nk[j]);
            assert(is_normal_char(nk[j]));
        } else if j > nk.len() {
            assert(p[j] == nv[j - nk.len() - 1]);
            assert(is_normal_char(nv[j - nk.len() - 1]));
        }
    }
}

/// Every retained pair is settled.
pub proof fn lemma_retained_settled(q: Seq<char>, patterns: Seq<&str>)
    ensures
        forall|i: int|
            0 <= i < retained_pairs(q, patterns).len() ==> is_settled_pair(
                #[trigger] retained_pairs(q, patterns)[i],
                patterns,
            ),
    decreases q.len(),
{
    if q.len() > 0 {
        let a = first_stop(q, 0, q.len() as int, Stop::Amp);
        lemma_first_stop(q, 0, q.len() as int, Stop::Amp);
        let rest = if a < q.len() {
            q.skip(a + 1)
        } else {
            seq![]
        };
        lemma_retained_settled(rest, patterns);
        let tail = retained_pairs(rest, patterns);
        match kept_piece(q.take(a), patterns) {
            Some(p) => {
                lemma_kept_piece_settled(q.take(a), patterns);
                let r = seq![p] + tail;
                assert(retained_pairs(q, patterns) == r);
                assert forall|i: int| 0 <= i < r.len() implies is_settled_pair(
                    #[trigger] r[i],
                    patterns,
                ) by {
                    if i > 0 {
                        assert(r[i] == tail[i - 1]);
                    }
                }
            },
            None => {},
        }
    }
}

/// Joining pairs, seen from the front.
pub proof fn lemma_join_front(p: Seq<char>, ps: Seq<Seq<char>>)
    requires
        ps.len() > 0,
    ensures
        join_pairs(seq![p] + ps) == p + seq!['&'] + join_pairs(ps),
    decreases ps.len(),
{
    let all = seq![p] + ps;
    if ps.len() == 1 {
        assert(all.drop_last() =~= seq![p]);
        assert(all.last() == ps[0]);
        assert(join_pairs(all) =~= p + seq!['&'] + join_pairs(ps));
    } else {
        assert(all.drop_last() =~= seq![p] + ps.drop_last());
        lemma_join_front(p, ps.drop_last());
        assert(all.last() == ps.last());
        assert(join_pairs(all) == join_pairs(seq![p] + ps.drop_last()) + seq!['&'] + ps.last());
        assert(join_pairs(all) =~= p + seq!['&'] + join_pairs(ps));
    }
}

/// Cleaning a query made of settled pairs gives those pairs back.
pub proof fn lemma_retained_of_join(ps: Seq<Seq<char>>, patterns: Seq<&str>)
    requires
        forall|i: int| 0 <= i < ps.len() ==> is_settled_pair(#[trigger] ps[i], patterns),
    ensures
        retained_pairs(join_pairs(ps), patterns) == ps,
    decreases ps.len(),
{
    if ps.len() > 0 {
        let p = ps[0];
        let rest = ps.drop_first();
        assert(is_settled_pair(ps[0], patterns));
        let j = join_pairs(ps);
        if rest.len() == 0 {
            assert(j == p);
            assert(forall|k: int| 0 <= k < p.len() ==> !is_stop(#[trigger] p[k], Stop::Amp));
            lemma_first_stop_unique(j, 0, j.len() as int, Stop::Amp, j.len() as int);
            assert(j.take(j.len() as int) =~= p);
            assert(retained_pairs(j, patterns) == seq![p] + retained_pairs(seq![], patterns));
            assert(retained_pairs(j, patterns) =~= ps);
        } else {
            assert(ps =~= seq![p] + rest);
            lemma_join_front(p, rest);
            let jr = join_pairs(rest);
            assert(j == p + seq!['&'] + jr);
            assert forall|k: int| 0 <= k < p.len() implies !is_stop(#[trigger] j[k], Stop::Amp) by {
                assert(j[k] == p[k]);
            }
            assert(j[p.len() as int] == '&');
            lemma_first_stop_unique(j, 0, j.len() as int, Stop::Amp, p.len() as int);
            assert(j.take(p.len() as int) =~= p);
            assert(j.skip(p.len() as int + 1) =~= jr);
            assert forall|i: int| 0 <= i < rest.len() implies is_settled_pair(
                #[trigger] rest[i],
                patterns,
            ) by {
                assert(rest[i] == ps[i + 1]);
            }
            lemma_retained_of_join(rest, patterns);
            assert(retained_pairs(j, patterns) == seq![p] + retained_pairs(jr, patterns));
            assert(retained_pairs(j, patterns) =~= ps);
        }
    }
}

/// A query made of settled pairs holds only query characters.
pub proof fn lemma_join_chars(ps: Seq<Seq<char>>, patterns: Seq<&str>)
    requires
        forall|i: int| 0 <= i < ps.len() ==> is_settled_pair(#[trigger] ps[i], patterns),
    ensures
        forall|j: int|
            0 <= j < join_pairs(ps).len() ==> is_query_char(#[trigger] join_pairs(ps)[j]),
    decreases ps.len(),
{
    if ps.len() == 1 {
        assert(is_settled_pair(ps[0], patterns));
    } else if ps.len() > 1 {
        let init = ps.drop_last();
        assert forall|i: int| 0 <= i < init.len() implies is_settled_pair(
            #[trigger] init[i],
            patterns,
        ) by {
            assert(init[i] == ps[i]);
        }
        lemma_join_chars(init, patterns);
        let last = ps.last();
        assert(is_settled_pair(ps[ps.len() - 1], patterns));
        let a = join_pairs(init);
        let r = join_pairs(ps);
        assert(r == a + seq!['&'] + last);
        assert forall|j: int| 0 <= j < r.len() implies is_query_char(#[trigger] r[j]) by {
            if j < a.len() {
                assert(r[j] == a[j]);
            } else if j > a.len() {
                assert(r[j] == last[j - a.len() - 1]);
            }
        }
    }
}

/// Appends to `out` the retained pairs of the query `s[lo..hi]`, joined by `&`.
pub fn clean_query_into(
    s: &Vec<char>,
    lo: usize,
    hi: usize,
    patterns: &Vec<&str>,
    out: &mut Vec<char>,
)
    requires
        lo <= hi <= s@.len(),
    ensures
        final(out)@ == old(out)@ + join_pairs(
            retained_pairs(s@.subrange(lo as int, hi as int), patterns@),
        ),
{
    let ghost start = out@;
    let ghost q = s@.subrange(lo as int, hi as int);
    let ghost mut done: Seq<Seq<char>> = seq![];
    let mut i = lo;
    let mut any = false;
    assert(q =~= s@.subrange(i as int, hi as int));
    while i < hi
        invariant
            lo <= i <= hi <= s@.len(),
            any == (done.len() > 0),
            q == s@.subrange(lo as int, hi as int),
            retained_pairs(q, patterns@) == done + retained_pairs(
                s@.subrange(i as int, hi as int),
                patterns@,
            ),
            out@ == start + join_pairs(done),
        decreases hi - i,
    {
        let ghost w = s@.subrange(i as int, hi as int);
        let a = find_stop(s, i, hi, Stop::Amp);
        proof {
            lemma_first_stop_shift(s@, i as int, hi as int, Stop::Amp, i as int, hi as int);
        }
        let ghost piece = w.take(a - i);
        assert(piece =~= s@.subrange(i as int, a as int));
        let next = if a < hi {
            a + 1
        } else {
            hi
        };
        assert(a < hi ==> w.skip(a - i + 1) =~= s@.subrange(next as int, hi as int));
        assert(a == hi ==> s@.subrange(next as int, hi as int) =~= Seq::<char>::empty());
        if a > i {
            let e = find_stop(s, i, a, Stop::Equals);
            proof {
                lemma_first_stop_shift(s@, i as int, a as int, Stop::Equals, i as int, a as int);
                assert(piece_key(piece) =~= s@.subrange(i as int, e as int));
                if e < a {
                    assert(piece_value(piece) =~= s@.subrange(e + 1, a as int));
                } else {
                    assert(piece_value(piece) =~= s@.subrange(a as int, a as int));
                }
            }
            let mut key: Vec<char> = Vec::new();
            normalize_into(s, i, e, &mut key);
            assert(key@ =~= normalize(piece_key(piece)));
            if !key_is_stripped(patterns, &key) {
                let vstart = if e < a {
                    e + 1
                } else {
                    a
                };
                let ghost before = out@;
                if any {
                    out.push('&');
                }
                let mut k: usize = 0;
                while k < key.len()
                    invariant
                        k <= key@.len(),
                        done.len() > 0 ==> out@ == before + seq!['&'] + key@.take(k as int),
                        done.len() == 0 ==> out@ == before + key@.take(k as int),
                    decreases key@.len() - k,
                {
                    proof {
                        assert(key@.take(k + 1) =~= key@.take(k as int).push(key@[k as int]));
                    }
                    out.push(key[k]);
                    k = k + 1;
                }
                assert(key@.take(key@.len() as int) =~= key@);
                out.push('=');
                normalize_into(s, vstart, a, out);
                let ghost p = normalize(piece_key(piece)) + seq!['='] + normalize(
                    piece_value(piece),
                );
                proof {
                    let nd = done.push(p);
                    assert(nd.drop_last() =~= done);
                    if done.len() > 0 {
                        assert(out@ =~= start + join_pairs(nd));
                    } else {
                        assert(out@ =~= start + join_pairs(nd));
                    }
                    assert(seq![p] + retained_pairs(s@.subrange(next as int, hi as int), patterns@)
                        == retained_pairs(w, patterns@));
                    assert(done + retained_pairs(w, patterns@) =~= nd + retained_pairs(
                        s@.subrange(next as int, hi as int),
                        patterns@,
                    ));
                    done = nd;
                }
                any = true;
            }
        }
        i = next;
    }
}

} // verus!
