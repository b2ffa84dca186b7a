//! The domain rule table: which query keys are tracking keys for which hosts,
//! and which hosts also carry a referral path segment.

use vstd::prelude::*;

verus! {

/// A rule of the table: the hosts it covers, the tracking keys it strips
/// beyond the default ones, and whether it drops a trailing `ref=` segment.
#[derive(Clone, Copy, Debug, PartialEq, Eq)]
pub enum DomainRule {
    YouTube,
    Spotify,
    Amazon,
    Google,
    Instagram,
    Twitter,
    Ebay,
    Walmart,
}

/// Every rule of the table, in lookup order.
pub open spec fn domain_rules() -> Seq<DomainRule> {
    seq![
        DomainRule::YouTube,
        DomainRule::Spotify,
        DomainRule::Amazon,
        DomainRule::Google,
        DomainRule::Instagram,
        DomainRule::Twitter,
        DomainRule::Ebay,
        DomainRule::Walmart,
    ]
}

/// The host names a rule covers, without a leading `www.`.
pub open spec fn rule_hosts(rule: DomainRule) -> Seq<&'static str> {
    match rule {
        DomainRule::YouTube => seq!["youtu.be", "youtube.com"],
        DomainRule::Spotify => seq!["open.spotify.com"],
        DomainRule::Amazon => seq!["amazon.com"],
        DomainRule::Google => seq!["google.com"],
        DomainRule::Instagram => seq!["instagram.com"],
        DomainRule::Twitter => seq!["x.com", "twitter.com"],
        DomainRule::Ebay => seq!["ebay.com"],
        DomainRule::Walmart => seq!["walmart.com"],
    }
}

/// The tracking keys of a rule; a key ending in `*` stands for every key with
/// that prefix.
pub open spec fn rule_keys(rule: DomainRule) -> Seq<&'static str> {
    match rule {
        DomainRule::YouTube => seq!["si"],
        DomainRule::Spotify => seq!["si"],
        DomainRule::Amazon => seq![
            "crid",
            "dib",
            "dib_tag",
            "keywords",
            "qid",
            "sprefix",
            "sr",
            "pd_rd_*",
            "pf_rd_*",
            "linkCode",
            "tag",
            "linkId",
            "geniuslink",
            "ref",
            "ref_",
            "content-id",
            "psc",
            "th",
        ],
        DomainRule::Google => seq![
            "gs_lcrp",
            "gs_lp",
            "sca_esv",
            "ei",
            "iflsig",
            "sclient",
            "rlz",
            "bih",
            "biw",
            "dpr",
            "ved",
            "sa",
            "fbs",
            "source",
            "sourceid",
        ],
        DomainRule::Instagram => seq!["igsh"],
        DomainRule::Twitter => seq!["t", "s"],
        DomainRule::Ebay => seq![
            "_trksid",
            "mkcid",
            "mkevt",
            "mkrid",
            "ssspo",
            "sssrc",
            "ssuid",
            "widget_ver",
            "media",
        ],
        DomainRule::Walmart => seq!["sid", "from"],
    }
}

/// Whether a trailing path segment that starts with `ref=` is dropped.
pub open spec fn rule_trims_ref(rule: DomainRule) -> bool {
    rule == DomainRule::Amazon
}

/// The keys stripped on every host.
pub open spec fn default_keys() -> Seq<&'static str> {
    seq!["utm_source", "utm_medium", "utm_name", "utm_term", "utm_content", "utm_campaign"]
}

/// `h` is the lower-case character `p`, in either case.
pub open spec fn char_matches(p: char, h: char) -> bool {
    h == p || ('A' <= h && h <= 'Z' && (h as u32) + 32 == p as u32)
}

/// `h` spells the lower-case name `name`, ignoring ASCII case.
pub open spec fn spells(name: Seq<char>, h: Seq<char>) -> bool {
    h.len() == name.len() && forall|i: int| 0 <= i < h.len() ==> char_matches(name[i], #[trigger] h[i])
}

/// The host `h` is the table's `name`, with or without a leading `www.`.
pub open spec fn host_matches(name: Seq<char>, h: Seq<char>) -> bool {
    spells(name, h) || (h.len() >= 4 && spells("www."@, h.take(4)) && spells(name, h.skip(4)))
}

/// `rule` covers the host `h`.
pub open spec fn serves(rule: DomainRule, h: Seq<char>) -> bool {
    exists|i: int| 0 <= i < rule_hosts(rule).len() && host_matches(#[trigger] rule_hosts(rule)[i]@, h)
}

/// The first rule from position `i` of the table that serves `h`.
pub open spec fn rule_from(h: Seq<char>, i: int) -> Option<DomainRule>
    decreases domain_rules().len() - i,
{
    if i < 0 || i >= domain_rules().len() {
        None
    } else if serves(domain_rules()[i], h) {
        Some(domain_rules()[i])
    } else {
        rule_from(h, i + 1)
    }
}

/// The rule that applies to the host `h`, if the table has one.
pub open spec fn rule_for(h: Seq<char>) -> Option<DomainRule> {
    rule_from(h, 0)
}

/// The keys stripped from URLs of the host `h`: the default keys and those of
/// its rule.
pub open spec fn strip_patterns(h: Seq<char>) -> Seq<&'static str> {
    match rule_for(h) {
        Some(rule) => default_keys() + rule_keys(rule),
        None => default_keys(),
    }
}

/// Whether URLs of the host `h` lose a trailing `ref=` path segment.
pub open spec fn trims_ref_segment(h: Seq<char>) -> bool {
    match rule_for(h) {
        Some(rule) => rule_trims_ref(rule),
        None => false,
    }
}

impl DomainRule {
    /// The host names the rule covers.
    pub fn hosts(&self) -> (r: Vec<&'static str>)
        ensures
            r@ == rule_hosts(*self),
    {
        match self {
            DomainRule::YouTube => vec!["youtu.be", "youtube.com"],
            DomainRule::Spotify => vec!["open.spotify.com"],
            DomainRule::Amazon => vec!["amazon.com"],
            DomainRule::Google => vec!["google.com"],
            DomainRule::Instagram => vec!["instagram.com"],
            DomainRule::Twitter => vec!["x.com", "twitter.com"],
            DomainRule::Ebay => vec!["ebay.com"],
            DomainRule::Walmart => vec!["walmart.com"],
        }
    }

    /// The tracking keys the rule strips beyond the default ones.
    pub fn keys(&self) -> (r: Vec<&'static str>)
        ensures
            r@ == rule_keys(*self),
    {
        match self {
            DomainRule::YouTube => vec!["si"],
            DomainRule::Spotify => vec!["si"],
            DomainRule::Amazon => vec![
                "crid",
                "dib",
                "dib_tag",
                "keywords",
                "qid",
                "sprefix",
                "sr",
                "pd_rd_*",
                "pf_rd_*",
                "linkCode",
                "tag",
                "linkId",
                "geniuslink",
                "ref",
                "ref_",
                "content-id",
                "psc",
                "th",
            ],
            DomainRule::Google => vec![
                "gs_lcrp",
                "gs_lp",
                "sca_esv",
                "ei",
                "iflsig",
                "sclient",
                "rlz",
                "bih",
                "biw",
                "dpr",
                "ved",
                "sa",
                "fbs",
                "source",
                "sourceid",
            ],
            DomainRule::Instagram => vec!["igsh"],
            DomainRule::Twitter => vec!["t", "s"],
            DomainRule::Ebay => vec![
                "_trksid",
                "mkcid",
                "mkevt",
                "mkrid",
                "ssspo",
                "sssrc",
                "ssuid",
                "widget_ver",
                "media",
            ],
            DomainRule::Walmart => vec!["sid", "from"],
        }
    }

    /// Whether the rule drops a trailing `ref=` path segment.
    pub fn trims_ref_segment(&self) -> (r: bool)
        ensures
            r == rule_trims_ref(*self),
    {
        match self {
            DomainRule::Amazon => true,
            _ => false,
        }
    }
}

/// The rule table, in lookup order.
pub fn all_rules() -> (r: Vec<DomainRule>)
    ensures
        r@ == domain_rules(),
{
    vec![
        DomainRule::YouTube,
        DomainRule::Spotify,
        DomainRule::Amazon,
        DomainRule::Google,
        DomainRule::Instagram,
        DomainRule::Twitter,
        DomainRule::Ebay,
        DomainRule::Walmart,
    ]
}

/// The keys stripped on every host.
pub fn default_tracking_keys() -> (r: Vec<&'static str>)
    ensures
        r@ == default_keys(),
{
    vec!["utm_source", "utm_medium", "utm_name", "utm_term", "utm_content", "utm_campaign"]
}

fn char_matches_exec(p: char, h: char) -> (r: bool)
    ensures
        r == char_matches(p, h),
{
    h == p || ('A' <= h && h <= 'Z' && (h as u32) + 32 == p as u32)
}

/// Whether `s[lo..hi]` spells `name`, ignoring ASCII case.
fn spells_at(name: &str, s: &Vec<char>, lo: usize, hi: usize) -> (r: bool)
    requires
        lo <= hi <= s@.len(),
    ensures
        r == spells(name@, s@.subrange(lo as int, hi as int)),
{
    let ghost h = s@.subrange(lo as int, hi as int);
    let n = name.unicode_len();
    if hi - lo != n {
        return false;
    }
    let mut i: usize = 0;
    while i < n
        invariant
            i <= n,
            n == name@.len(),
            hi - lo == n,
            lo <= hi <= s@.len(),
            h == s@.subrange(lo as int, hi as int),
            forall|j: int| 0 <= j < i ==> char_matches(name@[j], #[trigger] h[j]),
        decreases n - i,
    {
        assert(h[i as int] == s@[lo + i]);
        if !char_matches_exec(name.get_char(i), s[lo + i]) {
            return false;
        }
        i = i + 1;
    }
    true
}

/// Whether the host `s[lo..hi]` is `name`, with or without a leading `www.`.
fn host_matches_at(name: &str, s: &Vec<char>, lo: usize, hi: usize) -> (r: bool)
    requires
        lo <= hi <= s@.len(),
    ensures
        r == host_matches(name@, s@.subrange(lo as int, hi as int)),
{
    let ghost h = s@.subrange(lo as int, hi as int);
    if spells_at(name, s, lo, hi) {
        return true;
    }
    if hi - lo >= 4 {
        assert(h.take(4) =~= s@.subrange(lo as int, lo + 4));
        assert(h.skip(4) =~= s@.subrange(lo + 4, hi as int));
        spells_at("www.", s, lo, lo + 4) && spells_at(name, s, lo + 4, hi)
    } else {
        false
    }
}

fn rule_serves(rule: DomainRule, s: &Vec<char>, lo: usize, hi: usize) -> (r: bool)
    requires
        lo <= hi <= s@.len(),
    ensures
        r == serves(rule, s@.subrange(lo as int, hi as int)),
{
    let hosts = rule.hosts();
    let mut i: usize = 0;
    while i < hosts.len()
        invariant
            i <= hosts@.len(),
            hosts@ == rule_hosts(rule),
            lo <= hi <= s@.len(),
            forall|j: int|
                0 <= j < i ==> !host_matches(
                    #[trigger] rule_hosts(rule)[j]@,
                    s@.subrange(lo as int, hi as int),
                ),
        decreases hosts@.len() - i,
    {
        if host_matches_at(hosts[i], s, lo, hi) {
            return true;
        }
        i = i + 1;
    }
    false
}

/// Finds the rule of the host `s[lo..hi]`.
pub fn lookup_rule(s: &Vec<char>, lo: usize, hi: usize) -> (r: Option<DomainRule>)
    requires
        lo <= hi <= s@.len(),
    ensures
        r == rule_for(s@.subrange(lo as int, hi as int)),
{
    let ghost h = s@.subrange(lo as int, hi as int);
    let table = all_rules();
    let mut i: usize = 0;
    while i < table.len()
        invariant
            i <= table@.len(),
            table@ == domain_rules(),
            lo <= hi <= s@.len(),
            h == s@.subrange(lo as int, hi as int),
            rule_for(h) == rule_from(h, i as int),
        decreases table@.len() - i,
    {
        if rule_serves(table[i], s, lo, hi) {
            return Some(table[i]);
        }
        i = i + 1;
    }
    None
}

/// The keys stripped from URLs whose host has the rule `rule`.
pub fn patterns_for(rule: Option<DomainRule>) -> (r: Vec<&'static str>)
    ensures
        r@ == match rule {
            Some(s) => default_keys() + rule_keys(s),
            None => default_keys(),
        },
{
    let mut r = default_tracking_keys();
    match rule {
        Some(s) => {
            let mut extra = s.keys();
            r.append(&mut extra);
        },
        None => {},
    }
    r
}

} // verus!
