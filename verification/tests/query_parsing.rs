use oauth_callback::decode::{decode_value, decoded_or_empty};
use oauth_callback::query::{parse_query, split_item, QueryParams};

fn entries(params: &QueryParams) -> Vec<(String, String)> {
    let mut all = Vec::new();
    let mut at = 0;
    while let Some((key, value)) = params.entry(at) {
        all.push((key.to_string(), value.to_string()));
        at += 1;
    }
    assert_eq!(at, params.len());
    all
}

fn pair(key: &str, value: &str) -> (String, String) {
    (key.to_string(), value.to_string())
}

#[test]
fn parses_each_pair() {
    let params = parse_query("code=abc123&state=xyz");
    assert_eq!(params.len(), 2);
    assert_eq!(params.get("code"), Some("abc123"));
    assert_eq!(params.get("state"), Some("xyz"));
    assert_eq!(params.get("error"), None);
}

#[test]
fn keeps_the_order_of_first_occurrence() {
    let params = parse_query("b=1&a=2&c=3");
    assert_eq!(entries(&params), vec![pair("b", "1"), pair("a", "2"), pair("c", "3")]);
}

#[test]
fn last_occurrence_of_a_key_wins() {
    let params = parse_query("code=a&code=b");
    assert_eq!(params.len(), 1);
    assert_eq!(params.get("code"), Some("b"));
}

#[test]
fn repeated_key_keeps_its_first_place() {
    let params = parse_query("a=1&b=2&a=3");
    assert_eq!(entries(&params), vec![pair("a", "3"), pair("b", "2")]);
}

#[test]
fn items_without_equals_are_left_out() {
    let params = parse_query("flag&code=x&novalue");
    assert_eq!(entries(&params), vec![pair("code", "x")]);
    assert_eq!(params.get("flag"), None);
    assert_eq!(params.get("novalue"), None);
}

#[test]
fn empty_query_has_no_entries() {
    assert_eq!(parse_query("").len(), 0);
    assert_eq!(parse_query("&&").len(), 0);
}

#[test]
fn empty_key_and_empty_value_are_kept() {
    let params = parse_query("k=&=v");
    assert_eq!(entries(&params), vec![pair("k", ""), pair("", "v")]);
}

#[test]
fn value_runs_to_the_end_of_the_item() {
    let params = parse_query("state=YWJj==&next=a=b");
    assert_eq!(params.get("state"), Some("YWJj=="));
    assert_eq!(params.get("next"), Some("a=b"));
}

#[test]
fn values_are_percent_decoded() {
    let params = parse_query("msg=hello%20world&who=%F0%9F%91%BE");
    assert_eq!(params.get("msg"), Some("hello world"));
    assert_eq!(params.get("who"), Some("\u{1F47E}"));
}

#[test]
fn keys_are_not_decoded() {
    let params = parse_query("a%20b=c%20d");
    assert_eq!(params.get("a%20b"), Some("c d"));
    assert_eq!(params.get("a b"), None);
}

#[test]
fn plus_stays_a_plus() {
    assert_eq!(parse_query("q=a+b").get("q"), Some("a+b"));
}

#[test]
fn value_that_does_not_decode_to_text_is_empty() {
    let params = parse_query("code=%FF&state=ok");
    assert_eq!(entries(&params), vec![pair("code", ""), pair("state", "ok")]);
}

#[test]
fn broken_escape_does_not_lose_the_other_pairs() {
    let params = parse_query("a=%C3%28&b=2&c=%E2%82");
    assert_eq!(params.get("a"), Some(""));
    assert_eq!(params.get("b"), Some("2"));
    assert_eq!(params.get("c"), Some(""));
}

#[test]
fn decode_value_decodes_escapes() {
    assert_eq!(decode_value("a%20b"), "a b");
    assert_eq!(decode_value("%41%42%43"), "ABC");
    assert_eq!(decode_value("100%25"), "100%");
}

#[test]
fn decode_value_leaves_plain_text() {
    assert_eq!(decode_value("abc123"), "abc123");
    assert_eq!(decode_value(""), "");
    assert_eq!(decode_value("gr\u{fc}n"), "gr\u{fc}n");
}

#[test]
fn decode_value_gives_empty_text_on_failure() {
    assert_eq!(decode_value("%FF"), "");
    assert_eq!(decode_value("ok%80"), "");
}

#[test]
fn decoded_or_empty_settles_both_cases() {
    assert_eq!(decoded_or_empty(Some("text".to_string())), "text");
    assert_eq!(decoded_or_empty(None), "");
}

#[test]
fn split_item_cuts_at_the_first_equals() {
    assert_eq!(split_item("code=abc"), Some(("code", "abc")));
    assert_eq!(split_item("a=b=c"), Some(("a", "b=c")));
    assert_eq!(split_item("k="), Some(("k", "")));
    assert_eq!(split_item("=v"), Some(("", "v")));
    assert_eq!(split_item("="), Some(("", "")));
}

#[test]
fn split_item_needs_an_equals() {
    assert_eq!(split_item("code"), None);
    assert_eq!(split_item(""), None);
}

#[test]
fn insert_adds_and_overwrites() {
    let mut params = QueryParams::new();
    assert_eq!(params.len(), 0);
    params.insert("code".to_string(), "a".to_string());
    params.insert("state".to_string(), "s".to_string());
    params.insert("code".to_string(), "b".to_string());
    assert_eq!(entries(&params), vec![pair("code", "b"), pair("state", "s")]);
    assert_eq!(params.get("code"), Some("b"));
    assert_eq!(params.get("state"), Some("s"));
    assert_eq!(params.get("missing"), None);
}

#[test]
fn written_pairs_read_back() {
    let pairs = [("code", "4%2F0Ab"), ("state", "xyz"), ("scope", "a%20b"), ("state", "last")];
    let mut query = String::new();
    for (at, (key, value)) in pairs.iter().enumerate() {
        if at > 0 {
            query.push('&');
        }
        query.push_str(key);
        query.push('=');
        query.push_str(value);
    }
    let params = parse_query(&query);
    assert_eq!(params.get("code"), Some("4/0Ab"));
    assert_eq!(params.get("scope"), Some("a b"));
    assert_eq!(params.get("state"), Some("last"));
    assert_eq!(params.len(), 3);
}
