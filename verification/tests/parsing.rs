use sns_gateway::json::parse_object;
use sns_gateway::text::{chars_of, str_eq, str_eq_ignore_case};

fn parse(s: &str) -> Option<Vec<(String, Option<String>)>> {
    parse_object(&chars_of(s))
}

fn value(s: &str, key: &str) -> Option<String> {
    let kvs = parse(s).unwrap();
    for (k, v) in kvs {
        if k == key {
            return v;
        }
    }
    panic!("no member named {key}");
}

#[test]
fn empty_object_parses() {
    let kvs = parse("{}").unwrap();
    assert!(kvs.is_empty());
    let kvs = parse("  {  }  ").unwrap();
    assert!(kvs.is_empty());
}

#[test]
fn members_keep_their_order() {
    let kvs = parse("{\"a\":\"1\",\"b\":\"2\",\"c\":\"3\"}").unwrap();
    let expect = vec![("a", "1"), ("b", "2"), ("c", "3")];
    assert_eq!(kvs.len(), expect.len());
    for (got, want) in kvs.iter().zip(expect) {
        assert_eq!(got.0, want.0);
        assert_eq!(got.1.as_deref(), Some(want.1));
    }
}

#[test]
fn duplicate_keys_are_kept_in_order() {
    let kvs = parse("{\"k\":\"first\",\"k\":\"second\"}").unwrap();
    assert_eq!(kvs.len(), 2);
    assert_eq!(kvs[0].1.as_deref(), Some("first"));
    assert_eq!(kvs[1].1.as_deref(), Some("second"));
}

#[test]
fn every_escape_code_is_decoded() {
    let v = value("{\"k\":\"\\\"\\\\\\/\\b\\f\\n\\r\\t\"}", "k").unwrap();
    assert_eq!(v, "\"\\/\u{0008}\u{000C}\n\r\t");
}

#[test]
fn unicode_escapes_are_decoded() {
    assert_eq!(value("{\"k\":\"\\u0041\"}", "k").unwrap(), "A");
    assert_eq!(value("{\"k\":\"\\u00e9t\\u00e9\"}", "k").unwrap(), "été");
    assert_eq!(value("{\"k\":\"\\u20AC\"}", "k").unwrap(), "€");
    assert_eq!(value("{\"k\":\"\\u0000\"}", "k").unwrap(), "\u{0000}");
}

#[test]
fn surrogate_pairs_are_combined() {
    assert_eq!(value("{\"k\":\"\\uD83D\\uDE00\"}", "k").unwrap(), "\u{1F600}");
    assert_eq!(value("{\"k\":\"a\\uD834\\uDD1Eb\"}", "k").unwrap(), "a\u{1D11E}b");
}

#[test]
fn broken_unicode_escapes_are_rejected() {
    assert!(parse("{\"k\":\"\\u00\"}").is_none());
    assert!(parse("{\"k\":\"\\u00zz\"}").is_none());
    // a leading surrogate must be followed by a trailing one
    assert!(parse("{\"k\":\"\\uD83D\"}").is_none());
    assert!(parse("{\"k\":\"\\uD83Dx\"}").is_none());
    assert!(parse("{\"k\":\"\\uD83D\\u0041\"}").is_none());
    // a trailing surrogate may not stand alone
    assert!(parse("{\"k\":\"\\uDE00\"}").is_none());
}

#[test]
fn unknown_escape_is_rejected() {
    assert!(parse("{\"k\":\"\\x\"}").is_none());
}

#[test]
fn raw_control_characters_are_rejected() {
    assert!(parse("{\"k\":\"a\nb\"}").is_none());
    assert!(parse("{\"k\":\"a\tb\"}").is_none());
    assert!(parse("{\"k\":\"a\u{0001}b\"}").is_none());
}

#[test]
fn unterminated_documents_are_rejected() {
    assert!(parse("{").is_none());
    assert!(parse("{\"k\":\"v\"").is_none());
    assert!(parse("{\"k\":\"v").is_none());
    assert!(parse("{\"k\":").is_none());
    assert!(parse("{\"k\"").is_none());
    assert!(parse("{\"k\":[1,2").is_none());
    assert!(parse("").is_none());
}

#[test]
fn stray_separators_are_rejected() {
    assert!(parse("{\"k\":\"v\",}").is_none());
    assert!(parse("{,\"k\":\"v\"}").is_none());
    assert!(parse("{\"k\";\"v\"}").is_none());
}

#[test]
fn non_string_values_are_carried_without_content() {
    assert_eq!(value("{\"k\":1}", "k"), None);
    assert_eq!(value("{\"k\":-12.5e3}", "k"), None);
    assert_eq!(value("{\"k\":true}", "k"), None);
    assert_eq!(value("{\"k\":false}", "k"), None);
    assert_eq!(value("{\"k\":null}", "k"), None);
    assert_eq!(value("{\"k\":{}}", "k"), None);
    assert_eq!(value("{\"k\":{\"a\":[1,{\"b\":\"c\"}]}}", "k"), None);
    assert_eq!(value("{\"k\":[\"v\", 2, null]}", "k"), None);
}

#[test]
fn string_members_beside_other_values_are_decoded() {
    let body = "{\"n\":3, \"s\":\"text\", \"o\":{\"x\":[true]}, \"t\":\"more\"}";
    assert_eq!(value(body, "n"), None);
    assert_eq!(value(body, "s").unwrap(), "text");
    assert_eq!(value(body, "o"), None);
    assert_eq!(value(body, "t").unwrap(), "more");
}

#[test]
fn malformed_numbers_are_rejected() {
    assert!(parse("{\"k\":01}").is_none());
    assert!(parse("{\"k\":-}").is_none());
    assert!(parse("{\"k\":1.}").is_none());
    assert!(parse("{\"k\":.5}").is_none());
    assert!(parse("{\"k\":1e}").is_none());
    assert!(parse("{\"k\":+1}").is_none());
}

#[test]
fn malformed_literal_words_are_rejected() {
    assert!(parse("{\"k\":tru}").is_none());
    assert!(parse("{\"k\":truex}").is_none());
    assert!(parse("{\"k\":NULL}").is_none());
}

#[test]
fn text_around_the_object_is_rejected() {
    assert!(parse("{\"k\":\"v\"} extra").is_none());
    assert!(parse("junk {\"k\":\"v\"}").is_none());
}

#[test]
fn exact_string_comparison() {
    assert!(str_eq("abc", "abc"));
    assert!(!str_eq("abc", "abd"));
    assert!(!str_eq("abc", "ab"));
    assert!(!str_eq("Abc", "abc"));
    assert!(str_eq("", ""));
}

#[test]
fn case_blind_string_comparison() {
    assert!(str_eq_ignore_case("X-Amz-Topic-Arn", "x-amz-topic-arn"));
    assert!(str_eq_ignore_case("", ""));
    assert!(!str_eq_ignore_case("x-amz", "x-amz-"));
    assert!(!str_eq_ignore_case("abc", "abd"));
    // case folding is ASCII only: a bracket is not a letter
    assert!(!str_eq_ignore_case("[", "{"));
}
