use basilcore::cgi::{glob_match_simple, parse_pairs, url_decode_form, url_encode_form};

#[test]
fn decode_form_text() {
    assert_eq!(url_decode_form("a+b%20c"), "a b c");
    assert_eq!(url_decode_form("100%25"), "100%");
    assert_eq!(url_decode_form("%zz"), "%zz");
    assert_eq!(url_decode_form("%4"), "%4");
    assert_eq!(url_decode_form("x%41y"), "xAy");
    assert_eq!(url_decode_form("%+5"), "\u{5}");
}

#[test]
fn encode_form_text() {
    assert_eq!(url_encode_form("a b&c=d"), "a+b%26c%3Dd");
    assert_eq!(url_encode_form("Az09-_.~"), "Az09-_.~");
    assert_eq!(url_encode_form("é"), "%C3%A9");
}

#[test]
fn encode_then_decode_ascii_round_trips() {
    let s = "name=J. Doe & co/100%";
    assert_eq!(url_decode_form(&url_encode_form(s)), s);
}

#[test]
fn query_pairs() {
    assert_eq!(parse_pairs("a=1&&b=x+y&c"), vec!["a=1".to_string(), "b=x y".to_string(), "c=".to_string()]);
    assert_eq!(parse_pairs("k=v=w"), vec!["k=v=w".to_string()]);
    assert!(parse_pairs("").is_empty());
}

#[test]
fn file_name_patterns() {
    assert!(glob_match_simple("*.txt", "notes.txt", false));
    assert!(!glob_match_simple("*.txt", "notes.md", false));
    assert!(glob_match_simple("a?c", "abc", false));
    assert!(!glob_match_simple("a?c", "ac", false));
    assert!(glob_match_simple("A*", "abc", true));
    assert!(!glob_match_simple("A*", "abc", false));
    assert!(glob_match_simple("*", "", false));
}

#[test]
fn decoding_reads_each_escaped_byte_as_one_character() {
    // The two UTF-8 bytes of a non-ASCII character come back as two characters.
    assert_eq!(url_encode_form("é"), "%C3%A9");
    assert_eq!(url_decode_form(&url_encode_form("é")), "\u{c3}\u{a9}");
}
