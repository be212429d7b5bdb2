use oauth_callback::request::{
    extract_provider, parse_request_line, path_of, query_of, under_callback, RequestLine,
};
use oauth_callback::text::{find, leading_line, piece, scan, same_text, starts_with, word, CharSet};

fn line(method: &str, target: &str) -> Option<RequestLine> {
    Some(RequestLine { method: method.to_string(), target: target.to_string() })
}

#[test]
fn reads_method_and_target() {
    let text = "GET /callback/google?code=abc123&state=xyz HTTP/1.1\r\nHost: 127.0.0.1\r\n\r\n";
    assert_eq!(parse_request_line(text), line("GET", "/callback/google?code=abc123&state=xyz"));
}

#[test]
fn version_is_not_needed() {
    assert_eq!(parse_request_line("GET /x"), line("GET", "/x"));
    assert_eq!(parse_request_line("POST /submit\r\n"), line("POST", "/submit"));
}

#[test]
fn fewer_than_two_words_is_no_request_line() {
    assert_eq!(parse_request_line(""), None);
    assert_eq!(parse_request_line("GET"), None);
    assert_eq!(parse_request_line("GET   \r\n"), None);
    assert_eq!(parse_request_line("\r\n"), None);
    assert_eq!(parse_request_line("   "), None);
}

#[test]
fn only_the_first_line_counts() {
    assert_eq!(parse_request_line("GET\n/path HTTP/1.1"), None);
    assert_eq!(parse_request_line("\nGET /path HTTP/1.1"), None);
    assert_eq!(parse_request_line("GET /a HTTP/1.1\nGET /b HTTP/1.1"), line("GET", "/a"));
}

#[test]
fn any_white_space_separates_words() {
    assert_eq!(parse_request_line("  GET \t /x   HTTP/1.1"), line("GET", "/x"));
    assert_eq!(parse_request_line("GET\u{a0}/x"), line("GET", "/x"));
    assert_eq!(parse_request_line("GET\u{3000}/x\u{2003}HTTP/1.1"), line("GET", "/x"));
    assert_eq!(parse_request_line("GET\r/x"), line("GET", "/x"));
}

#[test]
fn provider_is_the_segment_after_callback() {
    assert_eq!(extract_provider("/callback/google?code=abc123&state=xyz"), "google");
    assert_eq!(extract_provider("/callback/github"), "github");
    assert_eq!(extract_provider("/callback/github/extra?x=1"), "github");
    assert_eq!(extract_provider("/callback/my-idp_2?x=1"), "my-idp_2");
}

#[test]
fn provider_ends_before_the_query() {
    assert_eq!(extract_provider("/callback/goo?next=/a/b"), "goo");
    assert_eq!(extract_provider("/callback/g?"), "g");
}

#[test]
fn provider_is_unknown_where_nothing_follows_the_prefix() {
    assert_eq!(extract_provider("/callback/?code=1"), "unknown");
    assert_eq!(extract_provider("/callback/"), "unknown");
    assert_eq!(extract_provider("/callback/?"), "unknown");
    assert_eq!(extract_provider("/callback//google?code=1"), "unknown");
}

#[test]
fn provider_is_unknown_without_a_second_segment() {
    assert_eq!(extract_provider("/callback"), "unknown");
    assert_eq!(extract_provider("/favicon.ico"), "unknown");
    assert_eq!(extract_provider(""), "unknown");
    assert_eq!(extract_provider("callback"), "unknown");
    assert_eq!(extract_provider("/callback?x=/a/b"), "unknown");
}

#[test]
fn path_and_query_split_at_the_first_question_mark() {
    assert_eq!(path_of("/a/b?c=d?e"), "/a/b");
    assert_eq!(query_of("/a/b?c=d?e"), Some("c=d?e"));
    assert_eq!(path_of("/a/b"), "/a/b");
    assert_eq!(query_of("/a/b"), None);
    assert_eq!(path_of("?x"), "");
    assert_eq!(query_of("/a?"), Some(""));
}

#[test]
fn callback_prefix_is_exact() {
    assert!(under_callback("/callback/google"));
    assert!(under_callback("/callback/"));
    assert!(!under_callback("/callback"));
    assert!(!under_callback("/Callback/google"));
    assert!(!under_callback("/x/callback/google"));
    assert!(!under_callback(""));
}

#[test]
fn find_gives_the_first_position_or_the_length() {
    assert_eq!(find("a=b=c", '='), 1);
    assert_eq!(find("abc", '='), 3);
    assert_eq!(find("", '='), 0);
    assert_eq!(find("\u{e9}\u{e9}?x", '?'), 2);
}

#[test]
fn scan_measures_runs() {
    assert_eq!(scan("  \t x ", CharSet::Whitespace, true), 4);
    assert_eq!(scan("word rest", CharSet::Whitespace, false), 4);
    assert_eq!(scan("aaab", CharSet::Just('a'), true), 3);
    assert_eq!(scan("", CharSet::Whitespace, true), 0);
}

#[test]
fn white_space_is_the_unicode_set() {
    for c in ['\t', '\n', '\u{b}', '\u{c}', '\r', ' ', '\u{85}', '\u{a0}', '\u{1680}', '\u{2000}',
        '\u{200a}', '\u{2028}', '\u{2029}', '\u{202f}', '\u{205f}', '\u{3000}'] {
        assert!(CharSet::Whitespace.contains(c));
    }
    for c in ['a', '0', '/', '\u{8}', '\u{e}', '\u{200b}', '\u{feff}', '\u{180e}'] {
        assert!(!CharSet::Whitespace.contains(c));
    }
}

#[test]
fn white_space_agrees_with_the_standard_library() {
    for code in 0u32..=0x10ffff {
        if let Some(c) = char::from_u32(code) {
            assert_eq!(CharSet::Whitespace.contains(c), c.is_whitespace());
        }
    }
}

#[test]
fn piece_counts_from_zero() {
    assert_eq!(piece("/callback/google", '/', 0), Some(""));
    assert_eq!(piece("/callback/google", '/', 1), Some("callback"));
    assert_eq!(piece("/callback/google", '/', 2), Some("google"));
    assert_eq!(piece("/callback/google", '/', 3), None);
    assert_eq!(piece("", '/', 0), Some(""));
    assert_eq!(piece("", '/', 1), None);
    assert_eq!(piece("a//b", '/', 1), Some(""));
}

#[test]
fn word_counts_from_zero() {
    assert_eq!(word("GET /x HTTP/1.1", 0), Some("GET"));
    assert_eq!(word("GET /x HTTP/1.1", 1), Some("/x"));
    assert_eq!(word("GET /x HTTP/1.1", 2), Some("HTTP/1.1"));
    assert_eq!(word("GET /x HTTP/1.1", 3), None);
    assert_eq!(word("   ", 0), None);
}

#[test]
fn leading_line_stops_at_the_line_feed() {
    assert_eq!(leading_line("first\nsecond"), "first");
    assert_eq!(leading_line("first\r\nsecond"), "first\r");
    assert_eq!(leading_line("no feed"), "no feed");
    assert_eq!(leading_line("\nx"), "");
}

#[test]
fn text_comparisons() {
    assert!(same_text("abc", "abc"));
    assert!(!same_text("abc", "abd"));
    assert!(!same_text("abc", "ab"));
    assert!(starts_with("/callback/x", "/callback/"));
    assert!(starts_with("abc", ""));
    assert!(!starts_with("ab", "abc"));
    assert!(!starts_with("\u{e9}x", "e"));
}
