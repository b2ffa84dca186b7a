use clipboard_cleanse::locator::{locate_urls, MatchSpan};
use clipboard_cleanse::sanitization::{clean_token, sanitize};

#[test]
fn scenario_spotify_share_link() {
    assert_eq!(
        sanitize("https://open.spotify.com/track/2bDJK04GaUdkBAuZoPt2ch?si=1efd90192fb242df"),
        "https://open.spotify.com/track/2bDJK04GaUdkBAuZoPt2ch"
    );
}

#[test]
fn scenario_youtube_keeps_timestamp() {
    assert_eq!(
        sanitize("https://youtu.be/dQw4w9WgXcQ?si=LPnCW-jopJtkzMRx&t=47"),
        "https://youtu.be/dQw4w9WgXcQ?t=47"
    );
}

#[test]
fn scenario_amazon_search() {
    assert_eq!(
        sanitize("https://www.amazon.com/s?k=among+us&crid=3LTHOHS5L9240&sprefix=among+us%2Caps%2C182&ref=nb_sb_noss_1"),
        "https://www.amazon.com/s?k=among+us"
    );
}

#[test]
fn scenario_x_inside_prose() {
    assert_eq!(
        sanitize("Lorem ipsum https://x.com/u/status/123?s=46&t=abc dolor"),
        "Lorem ipsum https://x.com/u/status/123 dolor"
    );
}

#[test]
fn scenario_plain_text() {
    assert_eq!(sanitize("plain text with no links"), "plain text with no links");
}

#[test]
fn scenario_unknown_host_without_tracking() {
    assert_eq!(sanitize("https://iapetus11.me/"), "https://iapetus11.me/");
}

#[test]
fn sanitizing_twice_changes_nothing() {
    let inputs = [
        "see https://www.google.com/search?q=microwave+(band)&sa=X and https://youtu.be/a?si=1&t=2",
        "https://www.amazon.com/dp/B0/ref=sr_1?crid=1&k=x",
        "a.b?c=d&&e=%zz",
        "",
    ];
    for input in inputs {
        let once = sanitize(input);
        assert_eq!(sanitize(&once), once);
    }
}

#[test]
fn text_without_urls_is_unchanged() {
    for input in ["no links here, just words.", "e.g nothing", "1.5 apples", "a..b", "\u{e9}t\u{e9}"] {
        assert_eq!(sanitize(input), input);
    }
}

#[test]
fn surrounding_text_is_preserved() {
    let url = "https://www.instagram.com/p/DA3VayjOVSM/?igsh=abc";
    let text = format!("before, text {url} after! text");
    assert_eq!(
        sanitize(&text),
        format!("before, text {} after! text", sanitize(url))
    );
    assert_eq!(sanitize(url), "https://www.instagram.com/p/DA3VayjOVSM/");
}

#[test]
fn empty_query_drops_separator() {
    assert_eq!(sanitize("https://example.com/a?utm_source=x"), "https://example.com/a");
    assert_eq!(sanitize("https://example.com/a?"), "https://example.com/a");
    assert_eq!(
        sanitize("https://example.com/a?utm_term=1#top"),
        "https://example.com/a#top"
    );
}

#[test]
fn url_without_scheme_keeps_its_form() {
    assert_eq!(sanitize("youtu.be/dQw4w9WgXcQ?si=abc"), "youtu.be/dQw4w9WgXcQ");
    assert_eq!(sanitize("www.youtube.com/watch?v=1&si=2"), "www.youtube.com/watch?v=1");
}

#[test]
fn host_matching_ignores_case_and_www() {
    assert_eq!(
        sanitize("HTTPS://WWW.YouTube.COM/watch?v=1&si=2"),
        "HTTPS://WWW.YouTube.COM/watch?v=1"
    );
    assert_eq!(sanitize("https://twitter.com/a?s=1&q=2"), "https://twitter.com/a?q=2");
}

#[test]
fn rules_apply_per_url() {
    assert_eq!(
        sanitize("https://youtu.be/a?si=1 https://example.com/b?si=2"),
        "https://youtu.be/a https://example.com/b?si=2"
    );
}

#[test]
fn repeated_text_outside_urls_is_untouched() {
    assert_eq!(
        sanitize("utm_source=1 https://example.com/?utm_source=1 utm_source=1"),
        "utm_source=1 https://example.com/ utm_source=1"
    );
}

#[test]
fn amazon_prefix_keys_and_ref_segment() {
    assert_eq!(
        sanitize("https://amazon.com/dp/B01/ref=abc?pd_rd_w=1&pf_rd_p=2&x=3"),
        "https://amazon.com/dp/B01?x=3"
    );
    assert_eq!(sanitize("https://example.com/dp/ref=abc"), "https://example.com/dp/ref=abc");
}

#[test]
fn retained_values_are_normalised() {
    assert_eq!(sanitize("https://a.com/?q=%2c&r=a:b"), "https://a.com/?q=%2c&r=a%3Ab");
    assert_eq!(sanitize("https://a.com/?a=1&&b=2"), "https://a.com/?a=1&b=2");
    assert_eq!(sanitize("https://a.com/?flag"), "https://a.com/?flag=");
    assert_eq!(sanitize("https://a.com/?p=100%"), "https://a.com/?p=100%25");
}

#[test]
fn fragment_is_untouched() {
    assert_eq!(
        sanitize("https://example.com/page?utm_medium=x&id=4#sec(1)"),
        "https://example.com/page?id=4#sec(1)"
    );
}

#[test]
fn urls_the_parser_rejects_are_left_alone() {
    assert_eq!(
        sanitize("https://example.com:99999/?utm_source=1"),
        "https://example.com:99999/?utm_source=1"
    );
    assert_eq!(
        sanitize("https://example.com:8080/?utm_source=1"),
        "https://example.com:8080/"
    );
}

#[test]
fn clean_token_follows_the_parser_verdict() {
    assert_eq!(clean_token("https://youtu.be/x?si=1&t=2", true), "https://youtu.be/x?t=2");
    assert_eq!(clean_token("https://youtu.be/x?si=1&t=2", false), "https://youtu.be/x?si=1&t=2");
    assert_eq!(clean_token("example.com:99999/?utm_source=1", true), "example.com:99999/");
    assert_eq!(clean_token("not-a-url", true), "not-a-url");
}

#[test]
fn locator_finds_url_spans() {
    let spans = locate_urls("see https://a.com/x?y=1, or b.org! not c.toolongtld");
    assert_eq!(
        spans,
        vec![MatchSpan { start: 4, end: 23 }, MatchSpan { start: 28, end: 33 }]
    );
    assert!(locate_urls("no links here").is_empty());
    assert_eq!(locate_urls("\u{e9} x.io"), vec![MatchSpan { start: 2, end: 6 }]);
}

#[test]
fn amazon_drops_one_ref_segment_per_pass() {
    assert_eq!(
        sanitize("https://www.amazon.com/dp/B0/ref=a/ref=b"),
        "https://www.amazon.com/dp/B0/ref=a"
    );
}
