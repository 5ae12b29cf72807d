use basilcore::lexer::{is_ident_continue, is_ident_start, keyword_kind, Lexer, Literal, Token, TokenKind};

fn lex(src: &str) -> Result<Vec<Token>, String> {
    let mut l = Lexer::new(src);
    l.tokenize().map_err(|e| e.0)
}

fn kinds(src: &str) -> Vec<TokenKind> {
    lex(src).unwrap().iter().map(|t| t.kind).collect()
}

#[test]
fn let_statement_tokens() {
    let toks = lex("LET x = 1").unwrap();
    let ks: Vec<TokenKind> = toks.iter().map(|t| t.kind).collect();
    assert_eq!(ks, vec![TokenKind::Let, TokenKind::Ident, TokenKind::Assign, TokenKind::Number, TokenKind::Eof]);
    assert_eq!(toks[0].lexeme, "LET");
    assert_eq!(toks[1].lexeme, "x");
    assert_eq!((toks[1].span.start, toks[1].span.end), (4, 5));
    assert_eq!(toks[3].lexeme, "1");
    assert!(matches!(&toks[3].literal, Some(Literal::Num(n)) if n == "1"));
    assert_eq!(toks[4].lexeme, "");
    assert_eq!((toks[4].span.start, toks[4].span.end), (9, 9));
}

#[test]
fn one_char_operator_takes_the_next_character_into_its_text() {
    // An operator that may have two characters is made after the lexer has moved past
    // the character that follows it.
    let toks = lex("x = 1").unwrap();
    assert_eq!(toks[1].kind, TokenKind::Assign);
    assert_eq!(toks[1].lexeme, "= ");
    let toks = lex("a==b").unwrap();
    assert_eq!(toks[1].kind, TokenKind::EqEq);
    assert_eq!(toks[1].lexeme, "==b");
}

#[test]
fn keywords_ignore_case() {
    assert_eq!(kinds("print Println WHILE endif sub"), vec![
        TokenKind::Print,
        TokenKind::Println,
        TokenKind::While,
        TokenKind::End,
        TokenKind::Func,
        TokenKind::Eof,
    ]);
    assert_eq!(keyword_kind("FUNCTION"), TokenKind::Func);
    assert_eq!(keyword_kind("ENDWHILE"), TokenKind::End);
    assert_eq!(keyword_kind("foo"), TokenKind::Ident);
}

#[test]
fn two_char_operators() {
    assert_eq!(kinds("a <> b"), vec![TokenKind::Ident, TokenKind::BangEq, TokenKind::Ident, TokenKind::Eof]);
    assert_eq!(kinds("a != b"), vec![TokenKind::Ident, TokenKind::BangEq, TokenKind::Ident, TokenKind::Eof]);
    assert_eq!(kinds("a <= b >= c < d > e"), vec![
        TokenKind::Ident,
        TokenKind::LtEq,
        TokenKind::Ident,
        TokenKind::GtEq,
        TokenKind::Ident,
        TokenKind::Lt,
        TokenKind::Ident,
        TokenKind::Gt,
        TokenKind::Ident,
        TokenKind::Eof,
    ]);
}

#[test]
fn newline_ends_a_statement() {
    let toks = lex("a\nb").unwrap();
    let ks: Vec<TokenKind> = toks.iter().map(|t| t.kind).collect();
    assert_eq!(ks, vec![TokenKind::Ident, TokenKind::Semicolon, TokenKind::Ident, TokenKind::Eof]);
    assert_eq!(toks[1].lexeme, "");
    assert_eq!(toks[1].line, 2);
    assert_eq!(toks[2].line, 2);
}

#[test]
fn operator_at_line_end_continues_the_statement() {
    assert_eq!(kinds("a +\nb"), vec![TokenKind::Ident, TokenKind::Plus, TokenKind::Ident, TokenKind::Eof]);
    assert_eq!(kinds("a\n+ b"), vec![TokenKind::Ident, TokenKind::Plus, TokenKind::Ident, TokenKind::Eof]);
    assert_eq!(kinds("f(a,\nb)"), vec![
        TokenKind::Ident,
        TokenKind::LParen,
        TokenKind::Ident,
        TokenKind::Comma,
        TokenKind::Ident,
        TokenKind::RParen,
        TokenKind::Eof,
    ]);
}

#[test]
fn underscore_joins_lines() {
    assert_eq!(kinds("x _ \ny"), vec![TokenKind::Ident, TokenKind::Ident, TokenKind::Eof]);
    let toks = lex("x _ ' note\ny").unwrap();
    assert_eq!(toks.len(), 3);
    assert_eq!(toks[1].lexeme, "y");
}

#[test]
fn comments_are_skipped() {
    assert_eq!(kinds("' comment\nx"), vec![TokenKind::Semicolon, TokenKind::Ident, TokenKind::Eof]);
    assert_eq!(kinds("REM note\nPRINT 1"), vec![TokenKind::Semicolon, TokenKind::Print, TokenKind::Number, TokenKind::Eof]);
    assert_eq!(kinds("x // c"), vec![TokenKind::Ident, TokenKind::Eof]);
    assert_eq!(kinds("#USE AUDIO"), vec![TokenKind::Eof]);
}

#[test]
fn numbers_with_fractions() {
    let toks = lex("3.14 7.").unwrap();
    assert!(matches!(&toks[0].literal, Some(Literal::Num(n)) if n == "3.14"));
    assert_eq!(toks[1].lexeme, "7");
    assert_eq!(toks[2].kind, TokenKind::Dot);
}

#[test]
fn string_escapes_are_decoded() {
    let toks = lex("\"a\\nb\\\"c\"").unwrap();
    assert_eq!(toks[0].kind, TokenKind::String);
    assert!(matches!(&toks[0].literal, Some(Literal::Str(s)) if s == "a\nb\"c"));
    assert_eq!(toks[0].lexeme, "\"a\\nb\\\"c\"");
}

#[test]
fn interpolated_string_becomes_a_sum() {
    let toks = lex("\"Hi #{name}!\"").unwrap();
    let ks: Vec<TokenKind> = toks.iter().map(|t| t.kind).collect();
    assert_eq!(ks, vec![
        TokenKind::String,
        TokenKind::Plus,
        TokenKind::LParen,
        TokenKind::Ident,
        TokenKind::RParen,
        TokenKind::Plus,
        TokenKind::String,
        TokenKind::Eof,
    ]);
    assert!(matches!(&toks[0].literal, Some(Literal::Str(s)) if s == "Hi "));
    assert_eq!(toks[3].lexeme, "name");
    assert!(matches!(&toks[6].literal, Some(Literal::Str(s)) if s == "!"));
}

#[test]
fn labels_take_their_colon() {
    let toks = lex("start:").unwrap();
    assert_eq!(toks[0].kind, TokenKind::Label);
    assert_eq!(toks[0].lexeme, "start");
    assert_eq!(toks[1].kind, TokenKind::Eof);
}

#[test]
fn lexer_errors() {
    assert_eq!(lex("!").unwrap_err(), "unexpected '!'");
    assert_eq!(lex("\"abc").unwrap_err(), "unterminated string");
    assert_eq!(lex("x @").unwrap_err(), "unexpected char '@': pos 3");
    assert_eq!(
        lex("\"#{ }\"").unwrap_err(),
        "Empty interpolation not allowed: expected expression after '#{' at line 1."
    );
    assert_eq!(lex("\"#{x\"").unwrap_err(), "Unterminated interpolation: missing '}' after '#{' at line 1.");
}

#[test]
fn identifier_characters() {
    assert!(is_ident_start('a') && is_ident_start('_') && !is_ident_start('1'));
    assert!(is_ident_continue('$') && is_ident_continue('%') && is_ident_continue('9') && !is_ident_continue('-'));
    assert_eq!(kinds("name$ n%"), vec![TokenKind::Ident, TokenKind::Ident, TokenKind::Eof]);
}

#[test]
fn spans_count_bytes() {
    assert_eq!(lex("é").unwrap_err(), "unexpected char 'é': pos 2");
    let toks2 = lex("\"é\" x").unwrap();
    assert_eq!(toks2[0].lexeme, "\"é\"");
    assert_eq!((toks2[0].span.start, toks2[0].span.end), (0, 4));
    assert_eq!(toks2[1].lexeme, "x");
    assert_eq!((toks2[1].span.start, toks2[1].span.end), (5, 6));
}

#[test]
fn string_span_ends_at_closing_quote() {
    let toks = lex("\"ab\";").unwrap();
    assert_eq!(toks[0].lexeme, "\"ab\"");
    assert_eq!((toks[0].span.start, toks[0].span.end), (0, 4));
    assert_eq!(toks[1].kind, TokenKind::Semicolon);
    assert_eq!((toks[1].span.start, toks[1].span.end), (4, 5));
}
