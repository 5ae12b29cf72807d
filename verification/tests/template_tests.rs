use basilcore::template::{
    basil_string_literal, detect_simple_assignment, find_keyword_top_level, is_simple_identifier, left_chars,
    line_col, mid_chars, parse_for_header, parse_foreach_header, right_chars, split_top_level_commas,
};

#[test]
fn commas_at_the_top_level() {
    assert_eq!(split_top_level_commas("a, f(b, c), 'x,y'"), vec!["a".to_string(), "f(b, c)".to_string(), "'x,y'".to_string()]);
    assert_eq!(split_top_level_commas("a,,b, "), vec!["a".to_string(), "".to_string(), "b".to_string()]);
    assert!(split_top_level_commas("  ").is_empty());
}

#[test]
fn simple_assignments() {
    assert_eq!(detect_simple_assignment("x = 1"), (true, Some("x".to_string())));
    assert_eq!(detect_simple_assignment("total$ = \"a=b\""), (true, Some("total$".to_string())));
    assert_eq!(detect_simple_assignment("x == 1"), (false, None));
    assert_eq!(detect_simple_assignment("f(a = 1)"), (false, None));
    assert_eq!(detect_simple_assignment("a.b = 1"), (false, None));
    assert_eq!(detect_simple_assignment(""), (false, None));
}

#[test]
fn identifiers() {
    assert!(is_simple_identifier("name$"));
    assert!(is_simple_identifier("_x1%"));
    assert!(!is_simple_identifier("1a"));
    assert!(!is_simple_identifier("a-b"));
    assert!(!is_simple_identifier(""));
}

#[test]
fn string_literals() {
    assert_eq!(basil_string_literal("a\"b\\c"), "\"a\\\"b\\\\c\"");
    assert_eq!(basil_string_literal(""), "\"\"");
}

#[test]
fn substrings() {
    assert_eq!(left_chars("hello", 2), "he");
    assert_eq!(left_chars("hello", 0), "");
    assert_eq!(left_chars("hi", 9), "hi");
    assert_eq!(right_chars("hello", 3), "llo");
    assert_eq!(right_chars("hello", 9), "hello");
    assert_eq!(right_chars("hello", -1), "");
    assert_eq!(mid_chars("hello", 2, 3), "ell");
    assert_eq!(mid_chars("hello", 0, 2), "he");
    assert_eq!(mid_chars("hello", 4, 9), "lo");
    assert_eq!(mid_chars("hello", 2, 0), "");
}

#[test]
fn lines_and_columns() {
    assert_eq!(line_col("ab\ncd", 4), (2, 2));
    assert_eq!(line_col("ab\r\ncd", 4), (2, 1));
    assert_eq!(line_col("abc", 0), (1, 1));
    assert_eq!(line_col("abc", 99), (1, 4));
    assert_eq!(line_col("é\nx", 3), (2, 1));
    assert_eq!(line_col("é\nx", 2), (1, 2));
}

#[test]
fn loop_headers() {
    let (v, a, b, s) = parse_for_header("i = 1 TO 10 STEP 2").unwrap();
    assert_eq!((v.as_str(), a.as_str(), b.as_str(), s.as_deref()), ("i", "1", "10", Some("2")));
    let (v, a, b, s) = parse_for_header("i=f(1) to n").unwrap();
    assert_eq!((v.as_str(), a.as_str(), b.as_str(), s), ("i", "f(1)", "n", None));
    assert_eq!(parse_for_header("i 1 TO 2").unwrap_err().0, "RENDER$: malformed @FOR header; expected '='");
    assert_eq!(parse_for_header("i = 1").unwrap_err().0, "RENDER$: malformed @FOR header; expected 'TO'");
    let (x, xs) = parse_foreach_header("x IN xs").unwrap();
    assert_eq!((x.as_str(), xs.as_str()), ("x", "xs"));
    assert_eq!(parse_foreach_header("x IN ").unwrap_err().0, "RENDER$: malformed @FOREACH header");
}

#[test]
fn keywords_outside_parentheses() {
    assert_eq!(find_keyword_top_level("a IN b", "in"), Some(2));
    assert_eq!(find_keyword_top_level("f(a IN b) IN c", "IN"), Some(10));
    assert_eq!(find_keyword_top_level("'IN' x", "IN"), None);
}

#[test]
fn template_errors_name_line_and_column() {
    let e = basilcore::template::wrap_tmpl_error("ab\ncd", 4, &basilcore::common::BasilError("boom".to_string()));
    assert_eq!(e.0, "RENDER$ error at template 2:2: boom");
    let e = basilcore::template::wrap_tmpl_error("x", 10, &basilcore::common::BasilError("late".to_string()));
    assert_eq!(e.0, "RENDER$ error at template 1:2: late");
}

#[test]
fn unclosed_arguments_leave_the_reader_after_the_last_quoted_run() {
    let s: Vec<char> = "'a' b \"c\" d".chars().collect();
    let mut i = 0usize;
    let r = basilcore::template::read_args_until_rparen(&s, &mut i);
    assert_eq!(r.unwrap_err().0, "RENDER$: unclosed ')'");
    assert_eq!(i, 9);
    let s: Vec<char> = "no quotes".chars().collect();
    let mut i = 2usize;
    assert!(basilcore::template::read_args_until_rparen(&s, &mut i).is_err());
    assert_eq!(i, 2);
}

#[test]
fn foreach_in_is_matched_as_a_whole_word() {
    let (v, e) = parse_foreach_header("pin IN list").unwrap();
    assert_eq!((v.as_str(), e.as_str()), ("pin", "list"));
    let (v, e) = parse_foreach_header("item in items").unwrap();
    assert_eq!((v.as_str(), e.as_str()), ("item", "items"));
    let (v, e) = parse_foreach_header("x1 IN f(a in b)").unwrap();
    assert_eq!((v.as_str(), e.as_str()), ("x1", "f(a in b)"));
}

#[test]
fn string_literal_lexes_back() {
    let s = "say \"hi\" \\ #1";
    let lit = basil_string_literal(s);
    let toks = basilcore::lexer::Lexer::new(&lit).tokenize().map_err(|e| e.0).unwrap();
    assert_eq!(toks.len(), 2);
    assert_eq!(toks[0].kind, basilcore::lexer::TokenKind::String);
    assert_eq!(toks[0].lexeme, lit);
    assert!(matches!(&toks[0].literal, Some(basilcore::lexer::Literal::Str(v)) if v == s));
    assert_eq!(toks[1].kind, basilcore::lexer::TokenKind::Eof);
}
