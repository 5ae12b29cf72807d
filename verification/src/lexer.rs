use vstd::prelude::*;

use std::collections::VecDeque;

use crate::common::{BasilError, Span};
use crate::text::{
    ascii_upper, chars_of, decimal, is_alnum, is_alpha, is_ascii_alnum, is_ascii_alpha, is_ascii_digit, is_digit,
    is_white, is_whitespace, push_char, push_decimal, push_str, str_eq, string_from_chars, string_from_range,
    string_of, trim, trimmed_string, upper_seq,
};

verus! {

/// The kinds of Basil tokens.
#[derive(Debug, Clone, Copy, PartialEq, Eq, Structural)]
pub enum TokenKind {
    // Single-char
    LParen,
    RParen,
    LBrace,
    RBrace,
    LBracket,
    RBracket,
    Comma,
    Semicolon,
    Colon,
    Plus,
    Minus,
    Star,
    Slash,
    Dot,
    Mod,
    Lt,
    Gt,
    Assign,
    // Two-char
    EqEq,
    BangEq,
    LtEq,
    GtEq,
    // Literals / identifiers
    Ident,
    Number,
    String,
    // Keywords
    Func,
    Return,
    If,
    Then,
    Else,
    While,
    Do,
    Begin,
    End,
    With,
    Break,
    Continue,
    Let,
    Print,
    Println,
    True,
    False,
    Null,
    And,
    Or,
    Not,
    Author,
    For,
    To,
    Step,
    Next,
    Each,
    In,
    Foreach,
    Endfor,
    Dim,
    As,
    Describe,
    New,
    Class,
    Type,
    Select,
    Case,
    Is,
    Try,
    Catch,
    Finally,
    Raise,
    Setenv,
    Exportenv,
    Shell,
    Exit,
    Stop,
    Label,
    Goto,
    Gosub,
    Exec,
    Eval,
    Eof,
}

/// A character that may begin an identifier: an ASCII letter or `_`.
pub open spec fn ident_start(c: char) -> bool {
    is_ascii_alpha(c) || c == '_'
}

/// A character that may continue an identifier: an ASCII letter or digit, `_`, or one
/// of the type suffixes `$ % @ &`.
pub open spec fn ident_continue(c: char) -> bool {
    is_ascii_alnum(c) || c == '_' || c == '$' || c == '%' || c == '@' || c == '&'
}

pub fn is_ident_start(c: char) -> (b: bool)
    ensures
        b == ident_start(c),
{
    is_alpha(c) || c == '_'
}

pub fn is_ident_continue(c: char) -> (b: bool)
    ensures
        b == ident_continue(c),
{
    is_alnum(c) || c == '_' || c == '$' || c == '%' || c == '@' || c == '&'
}

/// The kind of a word, given upper-cased: a keyword's kind, or `Ident`.
pub open spec fn keyword_of(u: Seq<char>) -> TokenKind {
    if u == "FUNC"@ || u == "FUNCTION"@ || u == "SUB"@ {
        TokenKind::Func
    } else if u == "RETURN"@ {
        TokenKind::Return
    } else if u == "IF"@ {
        TokenKind::If
    } else if u == "THEN"@ {
        TokenKind::Then
    } else if u == "ELSE"@ {
        TokenKind::Else
    } else if u == "WHILE"@ {
        TokenKind::While
    } else if u == "DO"@ {
        TokenKind::Do
    } else if u == "BEGIN"@ {
        TokenKind::Begin
    } else if u == "END"@ || u == "ENDIF"@ || u == "ENDFUNC"@ || u == "ENDFUNCTION"@ || u == "ENDSUB"@
        || u == "ENDWHILE"@ || u == "ENDBLOCK"@ {
        TokenKind::End
    } else if u == "SELECT"@ {
        TokenKind::Select
    } else if u == "CASE"@ {
        TokenKind::Case
    } else if u == "IS"@ {
        TokenKind::Is
    } else if u == "BREAK"@ {
        TokenKind::Break
    } else if u == "CONTINUE"@ {
        TokenKind::Continue
    } else if u == "LET"@ {
        TokenKind::Let
    } else if u == "PRINT"@ {
        TokenKind::Print
    } else if u == "PRINTLN"@ {
        TokenKind::Println
    } else if u == "TRUE"@ {
        TokenKind::True
    } else if u == "FALSE"@ {
        TokenKind::False
    } else if u == "NULL"@ {
        TokenKind::Null
    } else if u == "AND"@ {
        TokenKind::And
    } else if u == "OR"@ {
        TokenKind::Or
    } else if u == "NOT"@ {
        TokenKind::Not
    } else if u == "AUTHOR"@ {
        TokenKind::Author
    } else if u == "FOR"@ {
        TokenKind::For
    } else if u == "TO"@ {
        TokenKind::To
    } else if u == "STEP"@ {
        TokenKind::Step
    } else if u == "NEXT"@ {
        TokenKind::Next
    } else if u == "EACH"@ {
        TokenKind::Each
    } else if u == "IN"@ {
        TokenKind::In
    } else if u == "FOREACH"@ {
        TokenKind::Foreach
    } else if u == "ENDFOR"@ {
        TokenKind::Endfor
    } else if u == "DIM"@ {
        TokenKind::Dim
    } else if u == "AS"@ {
        TokenKind::As
    } else if u == "DESCRIBE"@ {
        TokenKind::Describe
    } else if u == "NEW"@ {
        TokenKind::New
    } else if u == "CLASS"@ {
        TokenKind::Class
    } else if u == "WITH"@ {
        TokenKind::With
    } else if u == "TRY"@ {
        TokenKind::Try
    } else if u == "CATCH"@ {
        TokenKind::Catch
    } else if u == "FINALLY"@ {
        TokenKind::Finally
    } else if u == "RAISE"@ {
        TokenKind::Raise
    } else if u == "SETENV"@ {
        TokenKind::Setenv
    } else if u == "EXPORTENV"@ {
        TokenKind::Exportenv
    } else if u == "SHELL"@ {
        TokenKind::Shell
    } else if u == "EXIT"@ {
        TokenKind::Exit
    } else if u == "STOP"@ {
        TokenKind::Stop
    } else if u == "LABEL"@ {
        TokenKind::Label
    } else if u == "GOTO"@ {
        TokenKind::Goto
    } else if u == "GOSUB"@ {
        TokenKind::Gosub
    } else if u == "MOD"@ {
        TokenKind::Mod
    } else if u == "EXEC"@ {
        TokenKind::Exec
    } else if u == "EVAL"@ {
        TokenKind::Eval
    } else if u == "TYPE"@ {
        TokenKind::Type
    } else {
        TokenKind::Ident
    }
}

/// The kind of the upper-cased word `u`.
pub fn keyword_kind(u: &str) -> (k: TokenKind)
    ensures
        k == keyword_of(u@),
{
    if str_eq(u, "FUNC") || str_eq(u, "FUNCTION") || str_eq(u, "SUB") {
        TokenKind::Func
    } else if str_eq(u, "RETURN") {
        TokenKind::Return
    } else if str_eq(u, "IF") {
        TokenKind::If
    } else if str_eq(u, "THEN") {
        TokenKind::Then
    } else if str_eq(u, "ELSE") {
        TokenKind::Else
    } else if str_eq(u, "WHILE") {
        TokenKind::While
    } else if str_eq(u, "DO") {
        TokenKind::Do
    } else if str_eq(u, "BEGIN") {
        TokenKind::Begin
    } else if str_eq(u, "END") || str_eq(u, "ENDIF") || str_eq(u, "ENDFUNC") || str_eq(u, "ENDFUNCTION")
        || str_eq(u, "ENDSUB") || str_eq(u, "ENDWHILE") || str_eq(u, "ENDBLOCK") {
        TokenKind::End
    } else if str_eq(u, "SELECT") {
        TokenKind::Select
    } else if str_eq(u, "CASE") {
        TokenKind::Case
    } else if str_eq(u, "IS") {
        TokenKind::Is
    } else if str_eq(u, "BREAK") {
        TokenKind::Break
    } else if str_eq(u, "CONTINUE") {
        TokenKind::Continue
    } else if str_eq(u, "LET") {
        TokenKind::Let
    } else if str_eq(u, "PRINT") {
        TokenKind::Print
    } else if str_eq(u, "PRINTLN") {
        TokenKind::Println
    } else if str_eq(u, "TRUE") {
        TokenKind::True
    } else if str_eq(u, "FALSE") {
        TokenKind::False
    } else if str_eq(u, "NULL") {
        TokenKind::Null
    } else if str_eq(u, "AND") {
        TokenKind::And
    } else if str_eq(u, "OR") {
        TokenKind::Or
    } else if str_eq(u, "NOT") {
        TokenKind::Not
    } else if str_eq(u, "AUTHOR") {
        TokenKind::Author
    } else if str_eq(u, "FOR") {
        TokenKind::For
    } else if str_eq(u, "TO") {
        TokenKind::To
    } else if str_eq(u, "STEP") {
        TokenKind::Step
    } else if str_eq(u, "NEXT") {
        TokenKind::Next
    } else if str_eq(u, "EACH") {
        TokenKind::Each
    } else if str_eq(u, "IN") {
        TokenKind::In
    } else if str_eq(u, "FOREACH") {
        TokenKind::Foreach
    } else if str_eq(u, "ENDFOR") {
        TokenKind::Endfor
    } else if str_eq(u, "DIM") {
        TokenKind::Dim
    } else if str_eq(u, "AS") {
        TokenKind::As
    } else if str_eq(u, "DESCRIBE") {
        TokenKind::Describe
    } else if str_eq(u, "NEW") {
        TokenKind::New
    } else if str_eq(u, "CLASS") {
        TokenKind::Class
    } else if str_eq(u, "WITH") {
        TokenKind::With
    } else if str_eq(u, "TRY") {
        TokenKind::Try
    } else if str_eq(u, "CATCH") {
        TokenKind::Catch
    } else if str_eq(u, "FINALLY") {
        TokenKind::Finally
    } else if str_eq(u, "RAISE") {
        TokenKind::Raise
    } else if str_eq(u, "SETENV") {
        TokenKind::Setenv
    } else if str_eq(u, "EXPORTENV") {
        TokenKind::Exportenv
    } else if str_eq(u, "SHELL") {
        TokenKind::Shell
    } else if str_eq(u, "EXIT") {
        TokenKind::Exit
    } else if str_eq(u, "STOP") {
        TokenKind::Stop
    } else if str_eq(u, "LABEL") {
        TokenKind::Label
    } else if str_eq(u, "GOTO") {
        TokenKind::Goto
    } else if str_eq(u, "GOSUB") {
        TokenKind::Gosub
    } else if str_eq(u, "MOD") {
        TokenKind::Mod
    } else if str_eq(u, "EXEC") {
        TokenKind::Exec
    } else if str_eq(u, "EVAL") {
        TokenKind::Eval
    } else if str_eq(u, "TYPE") {
        TokenKind::Type
    } else {
        TokenKind::Ident
    }
}

// ---------------------------------------------------------------------
// Tokens

/// What a literal token carries: the text of a numeral, or the contents of a string
/// with its escapes decoded.
#[derive(Debug, Clone)]
pub enum Literal {
    Num(String),
    Str(String),
}

/// A token: its kind, the source text it was read from, its literal value, its byte
/// span in the source and its line.
#[derive(Debug, Clone)]
pub struct Token {
    pub kind: TokenKind,
    pub lexeme: String,
    pub literal: Option<Literal>,
    pub span: Span,
    pub line: u32,
}

pub enum LitView {
    Num(Seq<char>),
    Str(Seq<char>),
}

/// The mathematical value of a token.
pub struct TokenView {
    pub kind: TokenKind,
    pub lexeme: Seq<char>,
    pub literal: Option<LitView>,
    pub span: Span,
    pub line: u32,
}

pub open spec fn lit_view(l: Literal) -> LitView {
    match l {
        Literal::Num(s) => LitView::Num(s@),
        Literal::Str(s) => LitView::Str(s@),
    }
}

pub open spec fn token_view(t: Token) -> TokenView {
    TokenView {
        kind: t.kind,
        lexeme: t.lexeme@,
        literal: match t.literal {
            Some(l) => Some(lit_view(l)),
            None => None,
        },
        span: t.span,
        line: t.line,
    }
}

pub open spec fn tokens_view(s: Seq<Token>) -> Seq<TokenView> {
    s.map_values(|t: Token| token_view(t))
}

// ---------------------------------------------------------------------
// Positions in the source
//
// The lexer walks the characters of the source; `at` is the index of the current
// character (the source's length at the end). Spans are byte offsets.

/// The number of bytes of `c` in UTF-8.
pub open spec fn utf8_width(c: char) -> nat {
    if (c as u32) < 0x80 {
        1
    } else if (c as u32) < 0x800 {
        2
    } else if (c as u32) < 0x10000 {
        3
    } else {
        4
    }
}

/// The number of bytes of `s` in UTF-8.
pub open spec fn byte_len(s: Seq<char>) -> nat
    decreases s.len(),
{
    if s.len() == 0 {
        0
    } else {
        byte_len(s.drop_last()) + utf8_width(s.last())
    }
}

/// The byte offset of the character at index `k`.
pub open spec fn offset(src: Seq<char>, k: int) -> int {
    byte_len(src.take(k)) as int
}

pub open spec fn newlines(s: Seq<char>) -> nat
    decreases s.len(),
{
    if s.len() == 0 {
        0
    } else {
        newlines(s.drop_last()) + if s.last() == '\n' {
            1nat
        } else {
            0nat
        }
    }
}

/// The index just after the current character.
pub open spec fn cur_end(src: Seq<char>, at: int) -> int {
    if at < src.len() {
        at + 1
    } else {
        src.len() as int
    }
}

/// The line of the current character: one more than the newlines up to and including it.
pub open spec fn line_at(src: Seq<char>, at: int) -> int {
    1 + newlines(src.take(cur_end(src, at))) as int
}

/// The byte offset just after the current character.
pub open spec fn pos_at(src: Seq<char>, at: int) -> int {
    offset(src, cur_end(src, at))
}

pub open spec fn span_of(a: int, b: int) -> Span {
    Span { start: a as u32, end: b as u32 }
}

/// The token of kind `kind` read from the characters `a..b`.
pub open spec fn tok(src: Seq<char>, kind: TokenKind, a: int, b: int, line: int) -> TokenView {
    TokenView {
        kind,
        lexeme: src.subrange(a, b),
        literal: None,
        span: span_of(offset(src, a), offset(src, b)),
        line: line as u32,
    }
}

/// A token made up by the lexer (around an interpolated string), spanning `sp`.
pub open spec fn made(kind: TokenKind, lexeme: Seq<char>, literal: Option<LitView>, sp: Span, line: u32) -> TokenView {
    TokenView { kind, lexeme, literal, span: sp, line }
}

// ---------------------------------------------------------------------
// The state of the lexer

pub struct LexState {
    /// The index of the current character.
    pub at: int,
    /// A newline was seen where it ends a statement: a `;` is owed.
    pub nl_semi: bool,
    /// Tokens made ahead of time, served before anything else is read.
    pub pending: Seq<TokenView>,
    /// Parentheses open.
    pub depth: int,
    /// The last token asks for more on the next line.
    pub cont: bool,
}

pub open spec fn initial_state() -> LexState {
    LexState { at: 0, nl_semi: false, pending: seq![], depth: 0, cont: false }
}

/// The kinds after which a line goes on.
pub open spec fn continues(k: TokenKind) -> bool {
    ||| k == TokenKind::Plus
    ||| k == TokenKind::Minus
    ||| k == TokenKind::Star
    ||| k == TokenKind::Slash
    ||| k == TokenKind::Dot
    ||| k == TokenKind::Assign
    ||| k == TokenKind::EqEq
    ||| k == TokenKind::BangEq
    ||| k == TokenKind::Lt
    ||| k == TokenKind::LtEq
    ||| k == TokenKind::Gt
    ||| k == TokenKind::GtEq
    ||| k == TokenKind::And
    ||| k == TokenKind::Or
    ||| k == TokenKind::Comma
    ||| k == TokenKind::Mod
    ||| k == TokenKind::To
    ||| k == TokenKind::Step
}

/// The state after a token of kind `k` is handed out: parentheses are counted (the
/// count stays at `i32::MAX` once it gets there) and the continuation flag is set.
pub open spec fn adjust(st: LexState, k: TokenKind) -> LexState {
    if k == TokenKind::LParen {
        LexState { depth: if st.depth < i32::MAX { st.depth + 1 } else { st.depth }, cont: true, ..st }
    } else if k == TokenKind::RParen {
        LexState { depth: if st.depth > 0 { st.depth - 1 } else { st.depth }, cont: false, ..st }
    } else {
        LexState { cont: continues(k), ..st }
    }
}

// ---------------------------------------------------------------------
// Scanning

/// Where the line that the character at `k` is on ends: the index of its `\n`, or the
/// end of the source.
pub open spec fn line_end_from(src: Seq<char>, k: int) -> int
    decreases src.len() - k,
{
    if k < 0 || k >= src.len() || src[k] == '\n' {
        k
    } else {
        line_end_from(src, k + 1)
    }
}

/// After a newline, the next line begins (after blanks) with an operator that carries
/// the statement on.
pub open spec fn cont_op_from(src: Seq<char>, k: int) -> bool
    decreases src.len() - k,
{
    if k < 0 || k >= src.len() {
        false
    } else if src[k] == ' ' || src[k] == '\t' || src[k] == '\r' {
        cont_op_from(src, k + 1)
    } else if src[k] == '/' {
        !(k + 1 < src.len() && src[k + 1] == '/')
    } else {
        src[k] == '+' || src[k] == '-' || src[k] == '*' || src[k] == '.' || src[k] == ','
    }
}

/// A `REM` comment (any case) starts at `k`.
pub open spec fn rem_at(src: Seq<char>, k: int) -> bool {
    &&& 0 <= k && k + 2 < src.len()
    &&& (src[k] == 'R' || src[k] == 'r')
    &&& (src[k + 1] == 'E' || src[k + 1] == 'e')
    &&& (src[k + 2] == 'M' || src[k + 2] == 'm')
}

/// Skips white space and comments from `k`; a newline that ends a statement owes a `;`.
/// Gives where it stops and whether a `;` is owed.
pub open spec fn skip_from(src: Seq<char>, k: int, nl: bool, depth: int, cont: bool) -> (int, bool)
    decreases src.len() - k,
{
    if k < 0 || k >= src.len() {
        (k, nl)
    } else {
        let c = src[k];
        if is_white(c) {
            let owed = if c == '\n' && !(depth > 0 || cont || cont_op_from(src, k + 1)) {
                true
            } else {
                nl
            };
            skip_from(src, k + 1, owed, depth, cont)
        } else if c == '\'' || c == '#' {
            proof {
                lemma_line_end_from_bounds(src, k + 1);
            }
            skip_from(src, line_end_from(src, k + 1), nl, depth, cont)
        } else if c == '/' && k + 1 < src.len() && src[k + 1] == '/' {
            proof {
                lemma_line_end_from_bounds(src, k + 2);
            }
            skip_from(src, line_end_from(src, k + 2), nl, depth, cont)
        } else if rem_at(src, k) {
            proof {
                lemma_line_end_from_bounds(src, k + 3);
            }
            skip_from(src, line_end_from(src, k + 3), nl, depth, cont)
        } else {
            (k, nl)
        }
    }
}

/// The run of characters satisfying `p` from `k`: where it ends.
pub open spec fn run_from(src: Seq<char>, k: int, p: spec_fn(char) -> bool) -> int
    decreases src.len() - k,
{
    if k < 0 || k >= src.len() || !p(src[k]) {
        k
    } else {
        run_from(src, k + 1, p)
    }
}

pub open spec fn digit_pred() -> spec_fn(char) -> bool {
    |c: char| is_ascii_digit(c)
}

pub open spec fn ident_pred() -> spec_fn(char) -> bool {
    |c: char| ident_continue(c)
}

/// Where the numeral that starts at `a` ends: digits, then `.` and digits if a digit
/// follows the `.`.
pub open spec fn numeral_end(src: Seq<char>, a: int) -> int {
    let e = run_from(src, a, digit_pred());
    if e + 1 < src.len() && src[e] == '.' && is_ascii_digit(src[e + 1]) {
        run_from(src, e + 1, digit_pred())
    } else {
        e
    }
}

/// After a lone `_`, the characters from `k` (blanks, then a newline, a comment or the
/// end) make it a line continuation; gives whether a comment was seen.
pub open spec fn continuation_ahead(src: Seq<char>, k: int) -> Option<bool>
    decreases src.len() - k,
{
    if k < 0 || k >= src.len() {
        Some(false)
    } else if src[k] == ' ' || src[k] == '\t' || src[k] == '\r' {
        continuation_ahead(src, k + 1)
    } else if src[k] == '\n' {
        Some(false)
    } else if src[k] == '\'' || src[k] == '#' {
        Some(true)
    } else if src[k] == '/' && k + 1 < src.len() && src[k + 1] == '/' {
        Some(true)
    } else {
        None
    }
}

/// Consumes a line continuation from `k`: blanks, a comment when one was seen, and the
/// newline. Gives where the next line starts.
pub open spec fn consume_continuation(src: Seq<char>, k: int, saw_comment: bool) -> int
    decreases src.len() - k,
{
    if k < 0 || k >= src.len() {
        k
    } else if src[k] == ' ' || src[k] == '\t' || src[k] == '\r' {
        consume_continuation(src, k + 1, saw_comment)
    } else if (src[k] == '\'' || src[k] == '#') && saw_comment {
        proof {
            lemma_line_end_from_bounds(src, k + 1);
        }
        consume_continuation(src, line_end_from(src, k + 1), saw_comment)
    } else if src[k] == '/' && saw_comment && k + 1 < src.len() && src[k + 1] == '/' {
        proof {
            lemma_line_end_from_bounds(src, k + 2);
        }
        consume_continuation(src, line_end_from(src, k + 2), saw_comment)
    } else if src[k] == '\n' {
        k + 1
    } else {
        k
    }
}

/// The index of the quote that closes a string whose contents start at `k`; a
/// backslash takes the next character with it.
pub open spec fn string_close(src: Seq<char>, k: int) -> Option<int>
    decreases src.len() - k,
{
    if k < 0 || k >= src.len() {
        None
    } else if src[k] == '"' {
        Some(k)
    } else if src[k] == '\\' {
        if k + 1 < src.len() {
            string_close(src, k + 2)
        } else {
            None
        }
    } else {
        string_close(src, k + 1)
    }
}

/// The `}` that closes an interpolation, scanning from `j` before `q` with `depth`
/// braces open; braces inside double-quoted text do not count.
pub open spec fn interp_close(src: Seq<char>, q: int, j: int, depth: int, in_str: bool) -> Option<int>
    decreases q - j,
{
    if j < 0 || j >= q || j >= src.len() {
        None
    } else if in_str {
        interp_close(src, q, j + 1, depth, src[j] != '"')
    } else if src[j] == '"' {
        interp_close(src, q, j + 1, depth, true)
    } else if src[j] == '{' {
        interp_close(src, q, j + 1, depth + 1, false)
    } else if src[j] == '}' {
        if depth - 1 == 0 {
            Some(j)
        } else {
            interp_close(src, q, j + 1, depth - 1, false)
        }
    } else {
        interp_close(src, q, j + 1, depth, false)
    }
}

/// The escape `\x` at `i` (before `q`): the characters it stands for and where the
/// text goes on.
pub open spec fn escape_at(src: Seq<char>, q: int, i: int) -> (Seq<char>, int) {
    if i + 1 >= q {
        (seq![], i + 1)
    } else {
        let n = src[i + 1];
        if n == '#' {
            if i + 2 < q && src[i + 2] == '{' {
                (seq!['#', '{'], i + 3)
            } else {
                (seq!['#'], i + 2)
            }
        } else if n == 'n' {
            (seq!['\n'], i + 2)
        } else if n == 't' {
            (seq!['\t'], i + 2)
        } else if n == 'r' {
            (seq!['\r'], i + 2)
        } else {
            (seq![n], i + 2)
        }
    }
}

/// The tokens of an interpolated expression, without end-of-input and `;` tokens, all
/// on line `line`.
pub open spec fn retag(ts: Seq<TokenView>, line: u32) -> Seq<TokenView>
    decreases ts.len(),
{
    if ts.len() == 0 {
        seq![]
    } else {
        let rest = retag(ts.drop_first(), line);
        let t = ts[0];
        if t.kind == TokenKind::Eof || t.kind == TokenKind::Semicolon {
            rest
        } else {
            seq![TokenView { line, ..t }] + rest
        }
    }
}

pub open spec fn unterminated_interpolation(line: u32) -> Seq<char> {
    "Unterminated interpolation: missing '}' after '#{' at line "@ + decimal(line as nat) + "."@
}

pub open spec fn empty_interpolation(line: u32) -> Seq<char> {
    "Empty interpolation not allowed: expected expression after '#{' at line "@ + decimal(line as nat) + "."@
}

/// The interpolation `#{expr}` at `i` in a string closing at `q`: the tokens made so far
/// followed by the literal before it, a `+`, and the expression's tokens in parentheses;
/// and where the string goes on after its `}`.
pub open spec fn interpolation(
    src: Seq<char>,
    q: int,
    i: int,
    lit: Seq<char>,
    built: Seq<TokenView>,
    need_plus: bool,
    sp: Span,
    line: u32,
) -> Result<(Seq<TokenView>, int), Seq<char>>
    decreases src.len(), 0int, 0int, 0int, 0int,
{
    let plus = made(TokenKind::Plus, "+"@, None, sp, line);
    let built1 = built + (if need_plus { seq![plus] } else { seq![] }) + seq![
        made(TokenKind::String, lit, Some(LitView::Str(lit)), sp, line),
        plus,
    ];
    proof {
        lemma_interp_close_bounds(src, q, i + 2, 1, false);
    }
    match interp_close(src, q, i + 2, 1, false) {
        None => Err(unterminated_interpolation(line)),
        Some(e) => {
            let expr = src.subrange(i + 2, e);
            if trim(expr).len() == 0 {
                Err(empty_interpolation(line))
            } else if 0 <= i && e < q < src.len() {
                match tokens_from(expr, initial_state()) {
                    Err(m) => Err(m),
                    Ok(inner) => Ok(
                        (
                            built1 + seq![made(TokenKind::LParen, "("@, None, sp, line)] + retag(inner, line)
                                + seq![made(TokenKind::RParen, ")"@, None, sp, line)],
                            e + 1,
                        ),
                    ),
                }
            } else {
                Err(seq![])
            }
        },
    }
}

/// What the contents of a string become, read from `i` up to the closing quote at `q`:
/// the tokens made so far (`built`), the literal text read since (`lit`), whether an
/// interpolation was seen and whether a `+` is owed before the next literal. The made
/// tokens span `sp` and sit on line `line`.
pub open spec fn cook(
    src: Seq<char>,
    q: int,
    i: int,
    lit: Seq<char>,
    built: Seq<TokenView>,
    saw: bool,
    need_plus: bool,
    sp: Span,
    line: u32,
) -> Result<(Seq<TokenView>, Seq<char>, bool, bool), Seq<char>>
    decreases src.len(), 0int, 0int, 0int, q - i,
{
    if i < 0 || i >= q || i >= src.len() {
        Ok((built, lit, saw, need_plus))
    } else if src[i] == '\\' {
        let (text, next) = escape_at(src, q, i);
        cook(src, q, next, lit + text, built, saw, need_plus, sp, line)
    } else if src[i] == '#' && i + 1 < q && src[i + 1] == '{' {
        match interpolation(src, q, i, lit, built, need_plus, sp, line) {
            Err(m) => Err(m),
            Ok((b, n)) => if i < n <= q {
                cook(src, q, n, seq![], b, true, true, sp, line)
            } else {
                Err(seq![])
            },
        }
    } else {
        cook(src, q, i + 1, lit.push(src[i]), built, saw, need_plus, sp, line)
    }
}

pub(crate) proof fn lemma_cook_end(src: Seq<char>, q: int, i: int, lit: Seq<char>, built: Seq<TokenView>, saw: bool, need_plus: bool, sp: Span, line: u32)
    requires
        i >= q,
    ensures
        cook(src, q, i, lit, built, saw, need_plus, sp, line) == Ok::<(Seq<TokenView>, Seq<char>, bool, bool), Seq<char>>((built, lit, saw, need_plus)),
{
    reveal_with_fuel(cook, 1);
}

pub(crate) proof fn lemma_cook_escape(src: Seq<char>, q: int, i: int, lit: Seq<char>, built: Seq<TokenView>, saw: bool, need_plus: bool, sp: Span, line: u32)
    requires
        0 <= i < q < src.len(),
        src[i] == '\\',
    ensures
        cook(src, q, i, lit, built, saw, need_plus, sp, line) == cook(src, q, escape_at(src, q, i).1, lit + escape_at(src, q, i).0, built, saw, need_plus, sp, line),
{
    reveal_with_fuel(cook, 1);
}

pub(crate) proof fn lemma_cook_plain(src: Seq<char>, q: int, i: int, lit: Seq<char>, built: Seq<TokenView>, saw: bool, need_plus: bool, sp: Span, line: u32)
    requires
        0 <= i < q < src.len(),
        src[i] != '\\',
        !(src[i] == '#' && i + 1 < q && src[i + 1] == '{'),
    ensures
        cook(src, q, i, lit, built, saw, need_plus, sp, line) == cook(src, q, i + 1, lit.push(src[i]), built, saw, need_plus, sp, line),
{
    reveal_with_fuel(cook, 1);
}

proof fn lemma_cook_interpolation(src: Seq<char>, q: int, i: int, lit: Seq<char>, built: Seq<TokenView>, saw: bool, need_plus: bool, sp: Span, line: u32)
    requires
        0 <= i < q < src.len(),
        src[i] == '#' && i + 1 < q && src[i + 1] == '{',
    ensures
        cook(src, q, i, lit, built, saw, need_plus, sp, line) == (match interpolation(src, q, i, lit, built, need_plus, sp, line) {
            Err(m) => Err(m),
            Ok((b, n)) => if i < n <= q {
                cook(src, q, n, seq![], b, true, true, sp, line)
            } else {
                Err(seq![])
            },
        }),
{
    reveal_with_fuel(cook, 1);
}

/// The result of the string at `st.at`, whose closing quote is at `q`, given what its
/// contents cook to.
pub open spec fn string_result(
    src: Seq<char>,
    st: LexState,
    line: int,
    q: int,
    cooked: Result<(Seq<TokenView>, Seq<char>, bool, bool), Seq<char>>,
) -> Result<(TokenView, LexState), Seq<char>> {
    let a = st.at;
    let sp = span_of(offset(src, a), offset(src, q + 1));
    let after = LexState { at: q + 1, ..st };
    match cooked {
        Err(m) => Err(m),
        Ok((built, lit, saw, need_plus)) => if saw {
            let all = built + (if need_plus {
                seq![made(TokenKind::Plus, "+"@, None, sp, line as u32)]
            } else {
                seq![]
            }) + seq![made(TokenKind::String, lit, Some(LitView::Str(lit)), sp, line as u32)];
            let queue = st.pending + all;
            Ok((queue[0], LexState { pending: queue.drop_first(), ..after }))
        } else {
            Ok((
                TokenView {
                    kind: TokenKind::String,
                    lexeme: src.subrange(a, q + 1),
                    literal: Some(LitView::Str(lit)),
                    span: sp,
                    line: line as u32,
                },
                after,
            ))
        },
    }
}

/// The string whose opening quote is the current character, read on line `line`: its
/// closing quote, then what its contents cook to.
pub open spec fn string_tok(src: Seq<char>, st: LexState, line: int) -> Result<(TokenView, LexState), Seq<char>>
    decreases src.len(), src.len() - st.at, 0int, 0int, 0int,
{
    let a = st.at;
    match string_close(src, a + 1) {
        None => Err("unterminated string"@),
        Some(q) => string_result(
            src,
            st,
            line,
            q,
            cook(src, q, a + 1, seq![], seq![], false, false, span_of(offset(src, a), offset(src, q + 1)), line as u32),
        ),
    }
}

/// The token read at the current character (after blanks and comments), read on line
/// `line`, and the state after it; the state is not yet adjusted for the token.
pub open spec fn scan(src: Seq<char>, st: LexState, line: int) -> Result<(TokenView, LexState), Seq<char>>
    decreases src.len(), src.len() - st.at, 0int, 0int, 1int,
{
    let a = st.at;
    if a < 0 || a >= src.len() {
        Err(seq![])
    } else {
        let c = src[a];
        let next_is = |w: char| a + 1 < src.len() && src[a + 1] == w;
        let single = |k: TokenKind| Ok((tok(src, k, a, cur_end(src, a), line), LexState { at: a + 1, ..st }));
        let pair = |k: TokenKind| Ok((tok(src, k, a, cur_end(src, a + 2), line), LexState { at: a + 2, ..st }));
        let one_of_pair = |k: TokenKind| Ok((tok(src, k, a, cur_end(src, a + 1), line), LexState { at: a + 1, ..st }));
        if c == '(' {
            single(TokenKind::LParen)
        } else if c == ')' {
            single(TokenKind::RParen)
        } else if c == '{' {
            single(TokenKind::LBrace)
        } else if c == '}' {
            single(TokenKind::RBrace)
        } else if c == '[' {
            single(TokenKind::LBracket)
        } else if c == ']' {
            single(TokenKind::RBracket)
        } else if c == ',' {
            single(TokenKind::Comma)
        } else if c == ';' {
            single(TokenKind::Semicolon)
        } else if c == ':' {
            single(TokenKind::Colon)
        } else if c == '+' {
            single(TokenKind::Plus)
        } else if c == '-' {
            single(TokenKind::Minus)
        } else if c == '*' {
            single(TokenKind::Star)
        } else if c == '/' {
            single(TokenKind::Slash)
        } else if c == '.' {
            single(TokenKind::Dot)
        } else if c == '=' {
            if next_is('=') { pair(TokenKind::EqEq) } else { one_of_pair(TokenKind::Assign) }
        } else if c == '!' {
            if next_is('=') { pair(TokenKind::BangEq) } else { Err("unexpected '!'"@) }
        } else if c == '<' {
            if next_is('=') {
                pair(TokenKind::LtEq)
            } else if next_is('>') {
                pair(TokenKind::BangEq)
            } else {
                one_of_pair(TokenKind::Lt)
            }
        } else if c == '>' {
            if next_is('=') { pair(TokenKind::GtEq) } else { one_of_pair(TokenKind::Gt) }
        } else if c == '"' {
            string_tok(src, st, line)
        } else if is_ascii_digit(c) {
            Ok(number_tok(src, st, line))
        } else if ident_start(c) {
            word_tok(src, st, line)
        } else {
            Err("unexpected char '"@ + seq![c] + "': pos "@ + decimal(pos_at(src, a) as nat))
        }
    }
}

/// The numeral at the current character, and the state after it.
pub open spec fn number_tok(src: Seq<char>, st: LexState, line: int) -> (TokenView, LexState) {
    let a = st.at;
    let e = numeral_end(src, a);
    (
        TokenView { literal: Some(LitView::Num(src.subrange(a, e))), ..tok(src, TokenKind::Number, a, e, line) },
        LexState { at: e, ..st },
    )
}

/// The word at the current character: a keyword, an identifier, or a label when a
/// `:` follows; a lone `_` that ends a line joins the line to the next, and the token
/// after it is read instead.
pub open spec fn word_tok(src: Seq<char>, st: LexState, line: int) -> Result<(TokenView, LexState), Seq<char>>
    decreases src.len(), src.len() - st.at, 0int, 0int, 0int,
{
    let a = st.at;
    if a < 0 || a >= src.len() {
        Err(seq![])
    } else {
        let e = run_from(src, a, ident_pred());
        let word = src.subrange(a, e);
        let kind = keyword_of(upper_seq(word));
        let ahead = continuation_ahead(src, e + 1);
        if kind == TokenKind::Ident && word == seq!['_'] && ahead is Some {
            proof {
                lemma_run_from_bounds(src, a, ident_pred());
                lemma_consume_continuation_bounds(src, e, ahead->0);
            }
            if e > a {
                next_tok(src, LexState { at: consume_continuation(src, e, ahead->0), ..st })
            } else {
                Err(seq![])
            }
        } else if kind == TokenKind::Ident && e < src.len() && src[e] == ':' {
            Ok((tok(src, TokenKind::Label, a, e, line), LexState { at: e + 1, ..st }))
        } else {
            Ok((tok(src, kind, a, e, line), LexState { at: e, ..st }))
        }
    }
}

pub open spec fn nl_rank(b: bool) -> int {
    if b { 1 } else { 0 }
}

/// The next token and the state after it: a token made ahead of time, else a `;` that
/// a newline owes, else the end of input, else the token at the current character.
pub open spec fn next_tok(src: Seq<char>, st: LexState) -> Result<(TokenView, LexState), Seq<char>>
    decreases src.len(), src.len() - st.at, st.pending.len(), nl_rank(st.nl_semi), 2int,
{
    if st.pending.len() > 0 {
        let t = st.pending[0];
        Ok((t, adjust(LexState { pending: st.pending.drop_first(), ..st }, t.kind)))
    } else if !(0 <= st.at <= src.len()) {
        Err(seq![])
    } else {
        let (k, owed) = skip_from(src, st.at, st.nl_semi, st.depth, st.cont);
        proof {
            lemma_skip_from_bounds(src, st.at, st.nl_semi, st.depth, st.cont);
        }
        let line = line_at(src, k);
        let st1 = LexState { at: k, nl_semi: false, ..st };
        if owed && k < src.len() {
            let p = pos_at(src, k);
            let t = TokenView {
                kind: TokenKind::Semicolon,
                lexeme: seq![],
                literal: None,
                span: span_of(p, p),
                line: line as u32,
            };
            Ok((t, adjust(st1, TokenKind::Semicolon)))
        } else if k >= src.len() {
            let p = pos_at(src, k);
            Ok((
                TokenView { kind: TokenKind::Eof, lexeme: seq![], literal: None, span: span_of(p, p), line: line as u32 },
                st1,
            ))
        } else {
            match scan(src, st1, line) {
                Ok((t, st2)) => Ok((t, adjust(st2, t.kind))),
                Err(m) => Err(m),
            }
        }
    }
}

/// The state `b` is further along than `a`.
pub open spec fn further(src: Seq<char>, a: LexState, b: LexState) -> bool {
    &&& b.at <= src.len()
    &&& {
        ||| b.at > a.at
        ||| (b.at == a.at && b.pending.len() < a.pending.len())
        ||| (b.at == a.at && b.pending.len() == a.pending.len() && nl_rank(b.nl_semi) < nl_rank(a.nl_semi))
    }
}

/// The tokens from state `st` up to and including the end-of-input token.
///
/// Each step moves the lexer further along (`law_lexer_moves_forward`), so the
/// branch that tests this is never taken.
pub open spec fn tokens_from(src: Seq<char>, st: LexState) -> Result<Seq<TokenView>, Seq<char>>
    decreases src.len(), src.len() - st.at, st.pending.len(), nl_rank(st.nl_semi), 3int,
{
    match next_tok(src, st) {
        Err(m) => Err(m),
        Ok((t, st2)) => if t.kind == TokenKind::Eof {
            Ok(seq![t])
        } else if further(src, st, st2) && st.at <= src.len() {
            match tokens_from(src, st2) {
                Ok(ts) => Ok(seq![t] + ts),
                Err(m) => Err(m),
            }
        } else {
            Err(seq![])
        },
    }
}

/// The tokens of a whole source text.
pub open spec fn tokens_of(src: Seq<char>) -> Result<Seq<TokenView>, Seq<char>> {
    tokens_from(src, initial_state())
}

// ---------------------------------------------------------------------
// The lexer

/// A lexer over a source text. It is well formed (`wf`) from `new` on.
pub struct Lexer {
    src: Vec<char>,
    /// The index of the current character (`src.len()` at the end).
    at: usize,
    /// The byte offset just after the current character.
    pos: usize,
    /// The line of the current character.
    line: usize,
    pending_nl_semi: bool,
    pending: VecDeque<Token>,
    paren_depth: i32,
    last_was_continuation: bool,
}

impl Lexer {
    pub closed spec fn source(&self) -> Seq<char> {
        self.src@
    }

    pub closed spec fn state(&self) -> LexState {
        LexState {
            at: self.at as int,
            nl_semi: self.pending_nl_semi,
            pending: tokens_view(self.pending@),
            depth: self.paren_depth as int,
            cont: self.last_was_continuation,
        }
    }

    pub closed spec fn wf(&self) -> bool {
        &&& self.at <= self.src@.len()
        &&& self.pos == pos_at(self.src@, self.at as int)
        &&& self.line == line_at(self.src@, self.at as int)
        &&& self.paren_depth >= 0
        &&& byte_len(self.src@) <= isize::MAX
        &&& self.src@.len() <= isize::MAX
    }
}

pub proof fn lemma_byte_len_add(a: Seq<char>, b: Seq<char>)
    ensures
        byte_len(a + b) == byte_len(a) + byte_len(b),
    decreases b.len(),
{
    if b.len() > 0 {
        assert((a + b).drop_last() =~= a + b.drop_last());
        lemma_byte_len_add(a, b.drop_last());
    } else {
        assert(a + b =~= a);
    }
}

pub proof fn lemma_byte_len_bounds(s: Seq<char>)
    ensures
        s.len() <= byte_len(s) <= 4 * s.len(),
    decreases s.len(),
{
    if s.len() > 0 {
        lemma_byte_len_bounds(s.drop_last());
    }
}

pub proof fn lemma_offset_step(src: Seq<char>, k: int)
    requires
        0 <= k < src.len(),
    ensures
        offset(src, k + 1) == offset(src, k) + utf8_width(src[k]),
        offset(src, k + 1) <= byte_len(src),
        newlines(src.take(k + 1)) == newlines(src.take(k)) + if src[k] == '\n' { 1nat } else { 0nat },
        newlines(src.take(k + 1)) <= k + 1,
{
    assert(src.take(k + 1).drop_last() =~= src.take(k));
    assert(src.take(k + 1) + src.skip(k + 1) =~= src);
    lemma_byte_len_add(src.take(k + 1), src.skip(k + 1));
    lemma_newlines_bound(src.take(k + 1));
}

pub proof fn lemma_newlines_bound(s: Seq<char>)
    ensures
        newlines(s) <= s.len(),
    decreases s.len(),
{
    if s.len() > 0 {
        lemma_newlines_bound(s.drop_last());
    }
}

/// The number of bytes of `c` in UTF-8.
pub(crate) fn char_width(c: char) -> (w: usize)
    ensures
        w == utf8_width(c),
{
    let n = c as u32;
    if n < 0x80 {
        1
    } else if n < 0x800 {
        2
    } else if n < 0x10000 {
        3
    } else {
        4
    }
}

impl Lexer {
    /// A lexer over the characters `src`, positioned on the first of them.
    fn from_chars(src: Vec<char>) -> (l: Lexer)
        requires
            byte_len(src@) <= isize::MAX,
        ensures
            l.wf(),
            l.source() == src@,
            l.state() == initial_state(),
    {
        let mut line: usize = 1;
        let mut pos: usize = 0;
        proof {
            assert(src@.take(0) =~= Seq::<char>::empty());
            lemma_byte_len_bounds(src@);
        }
        if src.len() > 0 {
            proof {
                lemma_offset_step(src@, 0);
            }
            if src[0] == '\n' {
                line = 2;
            }
            pos = char_width(src[0]);
        } else {
            proof {
                assert(src@.take(src@.len() as int) =~= src@);
            }
        }
        let l = Lexer {
            src,
            at: 0,
            pos,
            line,
            pending_nl_semi: false,
            pending: VecDeque::new(),
            paren_depth: 0,
            last_was_continuation: false,
        };
        assert(tokens_view(l.pending@) =~= Seq::<TokenView>::empty());
        l
    }

    /// A lexer over `src`. A `str` holds at most `isize::MAX` bytes.
    pub fn new(src: &str) -> (l: Lexer)
        requires
            byte_len(src@) <= isize::MAX,
        ensures
            l.wf(),
            l.source() == src@,
            l.state() == initial_state(),
    {
        Lexer::from_chars(chars_of(src))
    }

    /// Moves to the next character (staying at the end once there).
    fn advance(&mut self)
        requires
            old(self).wf(),
        ensures
            final(self).wf(),
            final(self).src == old(self).src,
            final(self).at == (if old(self).at < old(self).src@.len() { old(self).at + 1 } else { old(self).at as int }),
            final(self).pending_nl_semi == old(self).pending_nl_semi,
            final(self).pending == old(self).pending,
            final(self).paren_depth == old(self).paren_depth,
            final(self).last_was_continuation == old(self).last_was_continuation,
    {
        if self.at < self.src.len() {
            self.at = self.at + 1;
            if self.at < self.src.len() {
                let c = self.src[self.at];
                proof {
                    lemma_offset_step(self.src@, self.at as int);
                    lemma_byte_len_bounds(self.src@);
                }
                if c == '\n' {
                    self.line = self.line + 1;
                }
                self.pos = self.pos + char_width(c);
            }
        }
    }

    /// The byte offset of the current character.
    fn cur_start(&self) -> (b: usize)
        requires
            self.wf(),
        ensures
            b == offset(self.src@, self.at as int),
    {
        if self.at < self.src.len() {
            proof {
                lemma_offset_step(self.src@, self.at as int);
            }
            self.pos - char_width(self.src[self.at])
        } else {
            proof {
                assert(self.src@.take(self.src@.len() as int) =~= self.src@);
            }
            self.pos
        }
    }

    /// The character at index `k`, if any.
    fn char_at(&self, k: usize) -> (c: Option<char>)
        ensures
            c == (if k < self.src@.len() { Some(self.src@[k as int]) } else { None }),
    {
        if k < self.src.len() {
            Some(self.src[k])
        } else {
            None
        }
    }
}

/// The parts of the state that scanning does not touch.
pub open spec fn same_but_at(a: &Lexer, b: &Lexer) -> bool {
    &&& b.source() == a.source()
    &&& b.state().nl_semi == a.state().nl_semi
    &&& b.state().pending == a.state().pending
    &&& b.state().depth == a.state().depth
    &&& b.state().cont == a.state().cont
}

fn fits(c: char, which: u8) -> (b: bool)
    ensures
        b == (if which == 0 { digit_pred() } else { ident_pred() })(c),
{
    if which == 0 {
        is_digit(c)
    } else {
        is_ident_continue(c)
    }
}

impl Lexer {
    /// Moves to the end of the current line (onto its newline, or to the end).
    fn to_line_end(&mut self)
        requires
            old(self).wf(),
        ensures
            final(self).wf(),
            final(self).src == old(self).src,
            final(self).at == line_end_from(old(self).src@, old(self).at as int),
            final(self).at >= old(self).at,
            final(self).pending_nl_semi == old(self).pending_nl_semi,
            final(self).pending == old(self).pending,
            final(self).paren_depth == old(self).paren_depth,
            final(self).last_was_continuation == old(self).last_was_continuation,
    {
        while self.at < self.src.len() && self.src[self.at] != '\n'
            invariant
                self.wf(),
                self.src == old(self).src,
                old(self).at <= self.at,
                line_end_from(self.src@, old(self).at as int) == line_end_from(self.src@, self.at as int),
                self.pending_nl_semi == old(self).pending_nl_semi,
                self.pending == old(self).pending,
                self.paren_depth == old(self).paren_depth,
                self.last_was_continuation == old(self).last_was_continuation,
            decreases self.src.len() - self.at,
        {
            self.advance();
        }
    }

    /// After a newline: the next line begins with an operator that carries the statement on.
    fn next_after_nl_is_cont_op(&self) -> (r: bool)
        requires
            self.wf(),
        ensures
            r == cont_op_from(self.src@, self.at + 1),
    {
        let mut k = self.at + 1;
        while k < self.src.len()
            invariant
                self.wf(),
                self.at + 1 <= k,
                cont_op_from(self.src@, self.at + 1) == cont_op_from(self.src@, k as int),
            decreases self.src.len() - k,
        {
            let c = self.src[k];
            if c == ' ' || c == '\t' || c == '\r' {
                k = k + 1;
            } else if c == '/' {
                return !(k + 1 < self.src.len() && self.src[k + 1] == '/');
            } else {
                return c == '+' || c == '-' || c == '*' || c == '.' || c == ',';
            }
        }
        false
    }

    /// Skips white space and comments; a newline that ends a statement owes a `;`.
    fn skip_ws_and_comments(&mut self)
        requires
            old(self).wf(),
        ensures
            final(self).wf(),
            final(self).src == old(self).src,
            (final(self).at as int, final(self).pending_nl_semi) == skip_from(
                old(self).src@,
                old(self).at as int,
                old(self).pending_nl_semi,
                old(self).paren_depth as int,
                old(self).last_was_continuation,
            ),
            final(self).pending == old(self).pending,
            final(self).paren_depth == old(self).paren_depth,
            final(self).last_was_continuation == old(self).last_was_continuation,
    {
        let ghost depth = self.paren_depth as int;
        let ghost cont = self.last_was_continuation;
        while self.at < self.src.len()
            invariant
                self.wf(),
                self.src == old(self).src,
                skip_from(self.src@, old(self).at as int, old(self).pending_nl_semi, depth, cont) == skip_from(
                    self.src@,
                    self.at as int,
                    self.pending_nl_semi,
                    depth,
                    cont,
                ),
                self.pending == old(self).pending,
                self.paren_depth == old(self).paren_depth,
                depth == old(self).paren_depth as int,
                cont == old(self).last_was_continuation,
                self.last_was_continuation == old(self).last_was_continuation,
            decreases self.src.len() - self.at,
        {
            let c = self.src[self.at];
            if is_whitespace(c) {
                if c == '\n' {
                    let suppress = self.paren_depth > 0 || self.last_was_continuation || self.next_after_nl_is_cont_op();
                    if !suppress {
                        self.pending_nl_semi = true;
                    }
                }
                self.advance();
            } else if c == '\'' || c == '#' {
                self.advance();
                self.to_line_end();
            } else if c == '/' && self.at + 1 < self.src.len() && self.src[self.at + 1] == '/' {
                self.advance();
                self.advance();
                self.to_line_end();
            } else if (c == 'R' || c == 'r') && self.at + 2 < self.src.len() && (self.src[self.at + 1] == 'E'
                || self.src[self.at + 1] == 'e') && (self.src[self.at + 2] == 'M' || self.src[self.at + 2] == 'm') {
                self.advance();
                self.advance();
                self.advance();
                self.to_line_end();
            } else {
                return;
            }
        }
    }

    /// After a lone `_`: when the rest of the line is blank or a comment, consumes it and
    /// the newline, and says so; otherwise leaves the lexer as it is.
    fn consume_explicit_continuation_after_underscore(&mut self) -> (r: bool)
        requires
            old(self).wf(),
        ensures
            final(self).wf(),
            final(self).src == old(self).src,
            r == continuation_ahead(old(self).src@, old(self).at + 1) is Some,
            r ==> final(self).at == consume_continuation(
                old(self).src@,
                old(self).at as int,
                continuation_ahead(old(self).src@, old(self).at + 1)->0,
            ),
            !r ==> final(self).at == old(self).at,
            final(self).pending_nl_semi == old(self).pending_nl_semi,
            final(self).pending == old(self).pending,
            final(self).paren_depth == old(self).paren_depth,
            final(self).last_was_continuation == old(self).last_was_continuation,
    {
        let mut k = self.at + 1;
        let mut saw_comment = false;
        while k < self.src.len()
            invariant_except_break
                continuation_ahead(self.src@, self.at + 1) == continuation_ahead(self.src@, k as int),
                !saw_comment,
            invariant
                self.wf(),
                self.at + 1 <= k,
            ensures
                continuation_ahead(self.src@, self.at + 1) == Some(saw_comment),
            decreases self.src.len() - k,
        {
            let c = self.src[k];
            if c == ' ' || c == '\t' || c == '\r' {
                k = k + 1;
            } else if c == '\n' {
                break;
            } else if c == '\'' || c == '#' {
                saw_comment = true;
                break;
            } else if c == '/' {
                if k + 1 < self.src.len() && self.src[k + 1] == '/' {
                    saw_comment = true;
                    break;
                }
                return false;
            } else {
                return false;
            }
        }
        let ghost k0 = self.at as int;
        loop
            invariant_except_break
                consume_continuation(self.src@, k0, saw_comment) == consume_continuation(
                    self.src@,
                    self.at as int,
                    saw_comment,
                ),
            invariant
                self.wf(),
                self.src == old(self).src,
                self.pending_nl_semi == old(self).pending_nl_semi,
                self.pending == old(self).pending,
                self.paren_depth == old(self).paren_depth,
                self.last_was_continuation == old(self).last_was_continuation,
            ensures
                self.wf(),
                self.src == old(self).src,
                self.at == consume_continuation(self.src@, k0, saw_comment),
                self.pending_nl_semi == old(self).pending_nl_semi,
                self.pending == old(self).pending,
                self.paren_depth == old(self).paren_depth,
                self.last_was_continuation == old(self).last_was_continuation,
            decreases self.src.len() - self.at,
        {
            if self.at >= self.src.len() {
                break;
            }
            let c = self.src[self.at];
            if c == ' ' || c == '\t' || c == '\r' {
                self.advance();
            } else if (c == '\'' || c == '#') && saw_comment {
                self.advance();
                self.to_line_end();
            } else if c == '/' && saw_comment && self.at + 1 < self.src.len() && self.src[self.at + 1] == '/' {
                self.advance();
                self.advance();
                self.to_line_end();
            } else if c == '\n' {
                self.advance();
                break;
            } else {
                break;
            }
        }
        true
    }

    /// The index where the run of characters from `k` that are digits (`which` 0) or
    /// identifier characters (otherwise) ends.
    fn run_end(&self, k: usize, which: u8) -> (e: usize)
        requires
            k <= self.src@.len(),
        ensures
            e == run_from(self.src@, k as int, if which == 0 { digit_pred() } else { ident_pred() }),
            k <= e <= self.src@.len(),
    {
        let ghost p = if which == 0 { digit_pred() } else { ident_pred() };
        let mut e = k;
        while e < self.src.len() && fits(self.src[e], which)
            invariant
                k <= e <= self.src@.len(),
                p == (if which == 0 { digit_pred() } else { ident_pred() }),
                run_from(self.src@, k as int, p) == run_from(self.src@, e as int, p),
            decreases self.src.len() - e,
        {
            e = e + 1;
        }
        e
    }
}

// ---------------------------------------------------------------------
// Reading tokens

pub open spec fn prepend_tokens(pre: Seq<TokenView>, r: Result<Seq<TokenView>, Seq<char>>) -> Result<
    Seq<TokenView>,
    Seq<char>,
> {
    match r {
        Ok(ts) => Ok(pre + ts),
        Err(m) => Err(m),
    }
}

/// The state `b` is no further back than `a`.
pub open spec fn not_behind(a: LexState, b: LexState) -> bool {
    ||| b.at > a.at
    ||| (b.at == a.at && b.pending.len() < a.pending.len())
    ||| (b.at == a.at && b.pending.len() == a.pending.len() && nl_rank(b.nl_semi) <= nl_rank(a.nl_semi))
}

fn copy_range(v: &Vec<char>, a: usize, b: usize) -> (r: Vec<char>)
    requires
        a <= b <= v.len(),
    ensures
        r@ == v@.subrange(a as int, b as int),
{
    let mut r: Vec<char> = Vec::new();
    let mut k = a;
    while k < b
        invariant
            a <= k <= b <= v.len(),
            r@ == v@.subrange(a as int, k as int),
        decreases b - k,
    {
        r.push(v[k]);
        assert(v@.subrange(a as int, k + 1) =~= v@.subrange(a as int, k as int).push(v@[k as int]));
        k += 1;
    }
    r
}

proof fn lemma_byte_len_subrange(s: Seq<char>, a: int, b: int)
    requires
        0 <= a <= b <= s.len(),
    ensures
        byte_len(s.subrange(a, b)) <= byte_len(s),
{
    assert(s =~= s.take(a) + (s.subrange(a, b) + s.skip(b)));
    lemma_byte_len_add(s.take(a), s.subrange(a, b) + s.skip(b));
    lemma_byte_len_add(s.subrange(a, b), s.skip(b));
}

proof fn lemma_tokens_view_push(v: Seq<Token>, t: Token)
    ensures
        tokens_view(v.push(t)) == tokens_view(v).push(token_view(t)),
{
    assert(tokens_view(v.push(t)) =~= tokens_view(v).push(token_view(t)));
}

fn message_at_line(head: &str, line: u32) -> (m: String)
    ensures
        m@ == head@ + decimal(line as nat) + "."@,
{
    let mut m = string_of(head);
    push_decimal(&mut m, line as u64);
    push_str(&mut m, ".");
    m
}

/// Appends the tokens of an interpolated expression, without end-of-input and `;`
/// tokens, each put on line `line`.
fn retag_into(built: &mut Vec<Token>, inner: Vec<Token>, line: u32)
    ensures
        tokens_view(final(built)@) == tokens_view(old(built)@) + retag(tokens_view(inner@), line),
{
    let ghost start = tokens_view(built@);
    let ghost all = tokens_view(inner@);
    let mut inner = inner;
    while inner.len() > 0
        invariant
            start + retag(all, line) == tokens_view(built@) + retag(tokens_view(inner@), line),
        decreases inner.len(),
    {
        let ghost rest = tokens_view(inner@);
        let t = inner.remove(0);
        assert(tokens_view(inner@) =~= rest.drop_first());
        assert(rest[0] == token_view(t));
        if t.kind != TokenKind::Eof && t.kind != TokenKind::Semicolon {
            let u = Token { kind: t.kind, lexeme: t.lexeme, literal: t.literal, span: t.span, line };
            proof {
                lemma_tokens_view_push(built@, u);
            }
            built.push(u);
            assert(token_view(u) == TokenView { line, ..rest[0] });
            assert(tokens_view(built@) + retag(tokens_view(inner@), line) =~= (tokens_view(built@).drop_last()
                + retag(rest, line)));
        }
    }
    assert(retag(tokens_view(inner@), line) =~= Seq::<TokenView>::empty());
    assert(start + retag(all, line) =~= tokens_view(built@));
}

impl Lexer {
    /// Moves forward to index `e`.
    fn seek(&mut self, e: usize)
        requires
            old(self).wf(),
            old(self).at <= e <= old(self).src@.len(),
        ensures
            final(self).wf(),
            final(self).src == old(self).src,
            final(self).at == e,
            final(self).pending_nl_semi == old(self).pending_nl_semi,
            final(self).pending == old(self).pending,
            final(self).paren_depth == old(self).paren_depth,
            final(self).last_was_continuation == old(self).last_was_continuation,
    {
        while self.at < e
            invariant
                self.wf(),
                self.src == old(self).src,
                self.at <= e <= self.src@.len(),
                self.pending_nl_semi == old(self).pending_nl_semi,
                self.pending == old(self).pending,
                self.paren_depth == old(self).paren_depth,
                self.last_was_continuation == old(self).last_was_continuation,
            decreases e - self.at,
        {
            self.advance();
        }
    }

    /// The token of kind `kind` from index `a` (at byte `a_byte`) through the current
    /// character.
    fn make_tok(&self, kind: TokenKind, a: usize, a_byte: usize, line: usize) -> (t: Token)
        requires
            self.wf(),
            a <= self.at,
            a < self.src@.len(),
            a_byte == offset(self.src@, a as int),
        ensures
            token_view(t) == tok(self.src@, kind, a as int, cur_end(self.src@, self.at as int), line as int),
    {
        let e = if self.at < self.src.len() {
            self.at + 1
        } else {
            self.src.len()
        };
        Token {
            kind,
            lexeme: string_from_range(&self.src, a, e),
            literal: None,
            span: Span::new(a_byte, self.pos),
            line: line as u32,
        }
    }

    fn post_emit_adjust(&mut self, kind: TokenKind)
        requires
            old(self).wf(),
        ensures
            final(self).wf(),
            final(self).src == old(self).src,
            final(self).at == old(self).at,
            final(self).state() == adjust(old(self).state(), kind),
    {
        if kind == TokenKind::LParen {
            if self.paren_depth < i32::MAX {
                self.paren_depth = self.paren_depth + 1;
            }
            self.last_was_continuation = true;
        } else if kind == TokenKind::RParen {
            if self.paren_depth > 0 {
                self.paren_depth = self.paren_depth - 1;
            }
            self.last_was_continuation = false;
        } else {
            self.last_was_continuation = match kind {
                TokenKind::Plus | TokenKind::Minus | TokenKind::Star | TokenKind::Slash | TokenKind::Dot
                | TokenKind::Assign | TokenKind::EqEq | TokenKind::BangEq | TokenKind::Lt | TokenKind::LtEq
                | TokenKind::Gt | TokenKind::GtEq | TokenKind::And | TokenKind::Or | TokenKind::Comma
                | TokenKind::Mod | TokenKind::To | TokenKind::Step => true,
                _ => false,
            };
        }
    }

    /// The `}` that closes an interpolation, scanning from `j` before `q`.
    fn interp_close_from(&self, q: usize, j: usize) -> (r: Option<usize>)
        requires
            self.wf(),
            q <= self.src@.len(),
        ensures
            r == (match interp_close(self.src@, q as int, j as int, 1, false) {
                Some(e) => Some(e as usize),
                None => None::<usize>,
            }),
    {
        proof {
            lemma_interp_close_bounds(self.src@, q as int, j as int, 1, false);
        }
        let mut k = j;
        let mut depth: usize = 1;
        let mut in_str = false;
        while k < q
            invariant
                self.wf(),
                q <= self.src@.len(),
                j <= k,
                1 <= depth <= k - j + 1,
                interp_close(self.src@, q as int, j as int, 1, false) == interp_close(
                    self.src@,
                    q as int,
                    k as int,
                    depth as int,
                    in_str,
                ),
            decreases q - k,
        {
            let c = self.src[k];
            if in_str {
                in_str = c != '"';
            } else if c == '"' {
                in_str = true;
            } else if c == '{' {
                depth = depth + 1;
            } else if c == '}' {
                if depth - 1 == 0 {
                    return Some(k);
                }
                depth = depth - 1;
            }
            k = k + 1;
        }
        None
    }
}

impl Lexer {
    /// Reads the numeral at the current character (a digit).
    fn number(&mut self, line: usize) -> (t: Token)
        requires
            old(self).wf(),
            old(self).at < old(self).src@.len(),
            is_ascii_digit(old(self).src@[old(self).at as int]),
        ensures
            final(self).wf(),
            final(self).src == old(self).src,
            number_tok(old(self).source(), old(self).state(), line as int) == (token_view(t), final(self).state()),
            final(self).at > old(self).at,
    {
        let ghost st = self.state();
        let a = self.at;
        let a_byte = self.cur_start();
        proof {
            lemma_run_from_bounds(self.src@, a as int, digit_pred());
        }
        let e1 = self.run_end(a, 0);
        let e = if e1 + 1 < self.src.len() && self.src[e1] == '.' && is_digit(self.src[e1 + 1]) {
            self.run_end(e1 + 1, 0)
        } else {
            e1
        };
        self.seek(e);
        let e_byte = self.cur_start();
        let t = Token {
            kind: TokenKind::Number,
            lexeme: string_from_range(&self.src, a, e),
            literal: Some(Literal::Num(string_from_range(&self.src, a, e))),
            span: Span::new(a_byte, e_byte),
            line: line as u32,
        };
        assert(self.state() == (LexState { at: e as int, ..st }));
        t
    }

    /// Reads a word at the current character (a letter or `_`): a keyword, an
    /// identifier or a label; a lone `_` that ends a line joins it to the next.
    fn ident_or_kw(&mut self, line: usize) -> (r: Result<Token, BasilError>)
        requires
            old(self).wf(),
            old(self).at < old(self).src@.len(),
            ident_start(old(self).src@[old(self).at as int]),
            old(self).pending@.len() == 0,
            !old(self).pending_nl_semi,
        ensures
            final(self).wf(),
            final(self).src == old(self).src,
            match word_tok(old(self).source(), old(self).state(), line as int) {
                Ok((t, st)) => r matches Ok(x) && token_view(x) == t && final(self).state() == st,
                Err(m) => r matches Err(e) && e.0@ == m,
            },
            r is Ok ==> final(self).at > old(self).at,
        decreases old(self).src@.len(), old(self).src@.len() - old(self).at, 0int, 0int, 0int,
    {
        let ghost st = self.state();
        let ghost src = self.source();
        let a = self.at;
        let a_byte = self.cur_start();
        proof {
            lemma_run_from_bounds(src, a as int, ident_pred());
        }
        let e = self.run_end(a, 1);
        let word = string_from_range(&self.src, a, e);
        let upper = ascii_upper(word.as_str());
        let kind = keyword_kind(upper.as_str());
        self.seek(e);
        let e_byte = self.cur_start();
        let lone_underscore = str_eq(word.as_str(), "_");
        proof {
            reveal_strlit("_");
            assert("_"@ =~= seq!['_']);
            assert(lone_underscore == (word@ == seq!['_']));
        }
        let mut joined = false;
        if kind == TokenKind::Ident && lone_underscore {
            joined = self.consume_explicit_continuation_after_underscore();
        }
        assert(joined == (kind == TokenKind::Ident && word@ == seq!['_'] && continuation_ahead(src, e + 1) is Some));
        if joined {
            proof {
                lemma_consume_continuation_bounds(src, e as int, continuation_ahead(src, e + 1)->0);
            }
            return self.next_token();
        }
        if kind == TokenKind::Ident && self.at < self.src.len() && self.src[self.at] == ':' {
            self.advance();
            return Ok(
                Token { kind: TokenKind::Label, lexeme: word, literal: None, span: Span::new(a_byte, e_byte), line: line as u32 },
            );
        }
        Ok(Token { kind, lexeme: word, literal: None, span: Span::new(a_byte, e_byte), line: line as u32 })
    }

    /// Moves past the string whose opening quote is the current character; gives the
    /// index of its closing quote.
    fn close_string(&mut self) -> (r: Option<usize>)
        requires
            old(self).wf(),
            old(self).at < old(self).src@.len(),
        ensures
            final(self).wf(),
            final(self).src == old(self).src,
            r == (match string_close(old(self).src@, old(self).at + 1) {
                Some(q) => Some(q as usize),
                None => None::<usize>,
            }),
            r matches Some(q) ==> final(self).at == q + 1 && old(self).at < q < old(self).src@.len() && string_close(
                old(self).src@,
                old(self).at + 1,
            ) == Some(q as int),
            r is None ==> string_close(old(self).src@, old(self).at + 1) is None,
            final(self).pending_nl_semi == old(self).pending_nl_semi,
            final(self).pending == old(self).pending,
            final(self).paren_depth == old(self).paren_depth,
            final(self).last_was_continuation == old(self).last_was_continuation,
    {
        let ghost src = self.src@;
        let ghost a = self.at as int;
        proof {
            lemma_string_close_bounds(src, a + 1);
        }
        self.advance();
        loop
            invariant
                self.wf(),
                self.src == old(self).src,
                self.src@ == src,
                src == old(self).src@,
                a == old(self).at,
                a < self.at,
                string_close(src, a + 1) == string_close(src, self.at as int),
                self.pending_nl_semi == old(self).pending_nl_semi,
                self.pending == old(self).pending,
                self.paren_depth == old(self).paren_depth,
                self.last_was_continuation == old(self).last_was_continuation,
            decreases src.len() - self.at,
        {
            if self.at >= self.src.len() {
                return None;
            }
            let c = self.src[self.at];
            if c == '"' {
                let q = self.at;
                self.advance();
                return Some(q);
            }
            if c == '\\' {
                self.advance();
                if self.at < self.src.len() {
                    self.advance();
                }
            } else {
                self.advance();
            }
        }
    }

    /// Handles the interpolation `#{expr}` at `i` in a string closing at `q`: appends
    /// the literal read before it and the expression's tokens to `built`, and gives where
    /// the string goes on.
    fn interpolate(
        &self,
        q: usize,
        i: usize,
        lit: &Vec<char>,
        need_plus: bool,
        sp: Span,
        tl: u32,
        built: &mut Vec<Token>,
    ) -> (r: Result<usize, BasilError>)
        requires
            self.wf(),
            i < q < self.src@.len(),
        ensures
            match interpolation(self.src@, q as int, i as int, lit@, tokens_view(old(built)@), need_plus, sp, tl) {
                Ok((b, n)) => r == Ok::<usize, BasilError>(n as usize) && tokens_view(final(built)@) == b,
                Err(m) => r matches Err(e) && e.0@ == m,
            },
        decreases self.src@.len(), 0int, 0int, 0int, 0int,
    {
        let ghost src = self.src@;
        let ghost built0 = tokens_view(built@);
        let plus = Token { kind: TokenKind::Plus, lexeme: string_of("+"), literal: None, span: sp, line: tl };
        if need_plus {
            proof {
                lemma_tokens_view_push(built@, plus);
            }
            built.push(plus);
        }
        let l = string_from_chars(lit);
        let str_tok = Token { kind: TokenKind::String, lexeme: l.clone(), literal: Some(Literal::Str(l)), span: sp, line: tl };
        proof {
            lemma_tokens_view_push(built@, str_tok);
        }
        built.push(str_tok);
        let plus2 = Token { kind: TokenKind::Plus, lexeme: string_of("+"), literal: None, span: sp, line: tl };
        proof {
            lemma_tokens_view_push(built@, plus2);
        }
        built.push(plus2);
        proof {
            assert(tokens_view(built@) =~= built0 + (if need_plus {
                seq![made(TokenKind::Plus, "+"@, None, sp, tl)]
            } else {
                seq![]
            }) + seq![made(TokenKind::String, lit@, Some(LitView::Str(lit@)), sp, tl), made(TokenKind::Plus, "+"@, None, sp, tl)]);
            lemma_interp_close_bounds(src, q as int, i + 2, 1, false);
        }
        let e = match self.interp_close_from(q, i + 2) {
            Some(e) => e,
            None => {
                return Err(BasilError(message_at_line("Unterminated interpolation: missing '}' after '#{' at line ", tl)));
            },
        };
        let (x, y) = crate::text::trim_bounds(&self.src, i + 2, e);
        if x == y {
            return Err(
                BasilError(message_at_line("Empty interpolation not allowed: expected expression after '#{' at line ", tl)),
            );
        }
        let expr = copy_range(&self.src, i + 2, e);
        proof {
            lemma_byte_len_subrange(src, i + 2, e as int);
        }
        let mut sub = Lexer::from_chars(expr);
        let inner = match sub.tokenize() {
            Ok(v) => v,
            Err(m) => {
                return Err(m);
            },
        };
        let lp = Token { kind: TokenKind::LParen, lexeme: string_of("("), literal: None, span: sp, line: tl };
        proof {
            lemma_tokens_view_push(built@, lp);
        }
        built.push(lp);
        retag_into(built, inner, tl);
        let rp = Token { kind: TokenKind::RParen, lexeme: string_of(")"), literal: None, span: sp, line: tl };
        proof {
            lemma_tokens_view_push(built@, rp);
        }
        built.push(rp);
        Ok(e + 1)
    }

    /// Reads the contents of a string from `i` up to its closing quote at `q`: the tokens
    /// made for its interpolations, the literal text after the last of them, whether one
    /// was seen, and whether a `+` is owed.
    fn cook_contents(&self, q: usize, i: usize, sp: Span, tl: u32) -> (r: Result<(Vec<Token>, Vec<char>, bool, bool), BasilError>)
        requires
            self.wf(),
            i <= q < self.src@.len(),
        ensures
            match cook(self.src@, q as int, i as int, seq![], seq![], false, false, sp, tl) {
                Ok((b, l, s, n)) => r matches Ok((vb, vl, vs, vn)) && tokens_view(vb@) == b && vl@ == l && vs == s
                    && vn == n,
                Err(m) => r matches Err(e) && e.0@ == m,
            },
        decreases self.src@.len(), 0int, 0int, 0int, 1int,
    {
        let ghost src = self.src@;
        let mut lit: Vec<char> = Vec::new();
        let mut built: Vec<Token> = Vec::new();
        let mut saw = false;
        let mut need_plus = false;
        let mut k = i;
        proof {
            assert(tokens_view(built@) =~= Seq::<TokenView>::empty());
        }
        while k < q
            invariant
                self.wf(),
                self.src@ == src,
                q < src.len(),
                i <= k <= q + 1,
                cook(src, q as int, i as int, seq![], seq![], false, false, sp, tl) == cook(
                    src,
                    q as int,
                    k as int,
                    lit@,
                    tokens_view(built@),
                    saw,
                    need_plus,
                    sp,
                    tl,
                ),
            decreases q + 1 - k,
        {
            let c = self.src[k];
            let ghost lit0 = lit@;
            let ghost i0 = k as int;
            let ghost b0 = tokens_view(built@);
            if c == '\\' {
                proof {
                    lemma_cook_escape(src, q as int, i0, lit0, b0, saw, need_plus, sp, tl);
                }
                if k + 1 >= q {
                    k = k + 1;
                } else {
                    let n = self.src[k + 1];
                    if n == '#' {
                        if k + 2 < q && self.src[k + 2] == '{' {
                            lit.push('#');
                            lit.push('{');
                            k = k + 3;
                        } else {
                            lit.push('#');
                            k = k + 2;
                        }
                    } else if n == 'n' {
                        lit.push('\n');
                        k = k + 2;
                    } else if n == 't' {
                        lit.push('\t');
                        k = k + 2;
                    } else if n == 'r' {
                        lit.push('\r');
                        k = k + 2;
                    } else {
                        lit.push(n);
                        k = k + 2;
                    }
                }
                assert(lit@ =~= lit0 + escape_at(src, q as int, i0).0);
                assert(k == escape_at(src, q as int, i0).1);
            } else if c == '#' && k + 1 < q && self.src[k + 1] == '{' {
                proof {
                    lemma_cook_interpolation(src, q as int, i0, lit0, b0, saw, need_plus, sp, tl);
                    lemma_interpolation_next(src, q as int, i0, lit0, b0, need_plus, sp, tl);
                }
                let n = match self.interpolate(q, k, &lit, need_plus, sp, tl, &mut built) {
                    Ok(n) => n,
                    Err(e) => {
                        return Err(e);
                    },
                };
                lit = Vec::new();
                saw = true;
                need_plus = true;
                k = n;
                assert(lit@ =~= Seq::<char>::empty());
            } else {
                proof {
                    lemma_cook_plain(src, q as int, i0, lit0, b0, saw, need_plus, sp, tl);
                }
                lit.push(c);
                k = k + 1;
            }
        }
        proof {
            lemma_cook_end(src, q as int, k as int, lit@, tokens_view(built@), saw, need_plus, sp, tl);
        }
        Ok((built, lit, saw, need_plus))
    }

    /// Puts `built` (not empty) after the tokens made ready, and takes the first of them.
    fn queue_tokens(&mut self, built: Vec<Token>) -> (t: Token)
        requires
            old(self).wf(),
            built@.len() > 0,
        ensures
            final(self).wf(),
            final(self).src == old(self).src,
            final(self).at == old(self).at,
            final(self).pending_nl_semi == old(self).pending_nl_semi,
            final(self).paren_depth == old(self).paren_depth,
            final(self).last_was_continuation == old(self).last_was_continuation,
            token_view(t) == (tokens_view(old(self).pending@) + tokens_view(built@))[0],
            tokens_view(final(self).pending@) == (tokens_view(old(self).pending@) + tokens_view(built@)).drop_first(),
    {
        let ghost all = tokens_view(built@);
        let ghost queue0 = tokens_view(self.pending@);
        let mut built = built;
        while built.len() > 0
            invariant
                self.wf(),
                self.src == old(self).src,
                self.at == old(self).at,
                self.pending_nl_semi == old(self).pending_nl_semi,
                self.paren_depth == old(self).paren_depth,
                self.last_was_continuation == old(self).last_was_continuation,
                queue0 + all == tokens_view(self.pending@) + tokens_view(built@),
                queue0 == tokens_view(old(self).pending@),
                all.len() > 0,
            decreases built.len(),
        {
            let ghost b0 = tokens_view(built@);
            let ghost p0 = tokens_view(self.pending@);
            let t = built.remove(0);
            assert(tokens_view(built@) =~= b0.drop_first());
            self.pending.push_back(t);
            assert(tokens_view(self.pending@) =~= p0.push(b0[0]));
            assert(p0 + b0 =~= p0.push(b0[0]) + b0.drop_first());
        }
        assert(tokens_view(built@) =~= Seq::<TokenView>::empty());
        let ghost pend = tokens_view(self.pending@);
        assert(pend =~= queue0 + all);
        let t = self.pending.pop_front().unwrap();
        assert(tokens_view(self.pending@) =~= pend.drop_first());
        t
    }

    /// Reads the string whose opening quote is the current character, with escapes
    /// decoded; an interpolation `#{expr}` turns it into a sum of strings and
    /// parenthesized expressions, whose tokens after the first are made ready.
    fn string(&mut self, line: usize) -> (r: Result<Token, BasilError>)
        requires
            old(self).wf(),
            old(self).at < old(self).src@.len(),
            old(self).src@[old(self).at as int] == '"',
        ensures
            final(self).wf(),
            final(self).src == old(self).src,
            match string_tok(old(self).source(), old(self).state(), line as int) {
                Ok((t, st)) => r matches Ok(x) && token_view(x) == t && final(self).state() == st,
                Err(m) => r matches Err(e) && e.0@ == m,
            },
            r is Ok ==> final(self).at > old(self).at,
        decreases old(self).src@.len(), old(self).src@.len() - old(self).at, 0int, 0int, 0int,
    {
        let ghost st = self.state();
        let ghost src = self.source();
        let a = self.at;
        let a_byte = self.cur_start();
        let tl = line as u32;
        let q = match self.close_string() {
            Some(q) => q,
            None => {
                return Err(BasilError(string_of("unterminated string")));
            },
        };
        let sp = Span::new(a_byte, self.cur_start());
        assert(sp == span_of(offset(src, a as int), offset(src, q + 1)));
        assert(self.state() == (LexState { at: q + 1, ..st }));
        let (mut built, lit, saw, need_plus) = match self.cook_contents(q, a + 1, sp, tl) {
            Ok(x) => x,
            Err(e) => {
                return Err(e);
            },
        };
        let ghost b0 = tokens_view(built@);
        let ghost cooked = cook(src, q as int, a + 1, seq![], seq![], false, false, sp, tl);
        assert(cooked == Ok::<(Seq<TokenView>, Seq<char>, bool, bool), Seq<char>>((b0, lit@, saw, need_plus)));
        assert(string_tok(src, st, line as int) == string_result(src, st, line as int, q as int, cooked));
        if saw {
            if need_plus {
                let plus = Token { kind: TokenKind::Plus, lexeme: string_of("+"), literal: None, span: sp, line: tl };
                proof {
                    lemma_tokens_view_push(built@, plus);
                }
                built.push(plus);
            }
            let l = string_from_chars(&lit);
            let tail = Token { kind: TokenKind::String, lexeme: l.clone(), literal: Some(Literal::Str(l)), span: sp, line: tl };
            proof {
                lemma_tokens_view_push(built@, tail);
                reveal_strlit("+");
            }
            built.push(tail);
            assert(tokens_view(built@) =~= b0 + (if need_plus {
                seq![made(TokenKind::Plus, "+"@, None, sp, tl)]
            } else {
                seq![]
            }) + seq![made(TokenKind::String, lit@, Some(LitView::Str(lit@)), sp, tl)]);
            Ok(self.queue_tokens(built))
        } else {
            Ok(
                Token {
                    kind: TokenKind::String,
                    lexeme: string_from_range(&self.src, a, self.at),
                    literal: Some(Literal::Str(string_from_chars(&lit))),
                    span: sp,
                    line: tl,
                },
            )
        }
    }

    /// Reads the token at the current character (after blanks and comments), not yet
    /// counted in the state.
    fn scan_token(&mut self, line: usize) -> (r: Result<Token, BasilError>)
        requires
            old(self).wf(),
            old(self).at < old(self).src@.len(),
            old(self).pending@.len() == 0,
            !old(self).pending_nl_semi,
        ensures
            final(self).wf(),
            final(self).src == old(self).src,
            match scan(old(self).source(), old(self).state(), line as int) {
                Ok((t, st)) => r matches Ok(x) && token_view(x) == t && final(self).state() == st,
                Err(m) => r matches Err(e) && e.0@ == m,
            },
            r is Ok ==> final(self).at > old(self).at,
        decreases old(self).src@.len(), old(self).src@.len() - old(self).at, 0int, 0int, 1int,
    {
        let ghost st = self.state();
        let a = self.at;
        let a_byte = self.cur_start();
        let c = self.src[a];
        let kind = if c == '(' {
            TokenKind::LParen
        } else if c == ')' {
            TokenKind::RParen
        } else if c == '{' {
            TokenKind::LBrace
        } else if c == '}' {
            TokenKind::RBrace
        } else if c == '[' {
            TokenKind::LBracket
        } else if c == ']' {
            TokenKind::RBracket
        } else if c == ',' {
            TokenKind::Comma
        } else if c == ';' {
            TokenKind::Semicolon
        } else if c == ':' {
            TokenKind::Colon
        } else if c == '+' {
            TokenKind::Plus
        } else if c == '-' {
            TokenKind::Minus
        } else if c == '*' {
            TokenKind::Star
        } else if c == '/' {
            TokenKind::Slash
        } else if c == '.' {
            TokenKind::Dot
        } else {
            TokenKind::Eof
        };
        if kind != TokenKind::Eof {
            let t = self.make_tok(kind, a, a_byte, line);
            self.advance();
            return Ok(t);
        }
        if c == '=' || c == '!' || c == '<' || c == '>' {
            self.advance();
            let next = self.char_at(self.at);
            let kind = if c == '=' {
                if next == Some('=') {
                    TokenKind::EqEq
                } else {
                    TokenKind::Assign
                }
            } else if c == '!' {
                if next == Some('=') {
                    TokenKind::BangEq
                } else {
                    return Err(BasilError(string_of("unexpected '!'")));
                }
            } else if c == '<' {
                if next == Some('=') {
                    TokenKind::LtEq
                } else if next == Some('>') {
                    TokenKind::BangEq
                } else {
                    TokenKind::Lt
                }
            } else {
                if next == Some('=') {
                    TokenKind::GtEq
                } else {
                    TokenKind::Gt
                }
            };
            if next == Some('=') || (c == '<' && next == Some('>')) {
                self.advance();
            }
            return Ok(self.make_tok(kind, a, a_byte, line));
        }
        if c == '"' {
            return self.string(line);
        }
        if is_digit(c) {
            return Ok(self.number(line));
        }
        if is_ident_start(c) {
            return self.ident_or_kw(line);
        }
        let mut m = string_of("unexpected char '");
        push_char(&mut m, c);
        push_str(&mut m, "': pos ");
        push_decimal(&mut m, self.pos as u64);
        Err(BasilError(m))
    }

    /// The next token: one made ahead of time, a `;` that a newline owes, the end of
    /// input, or the token at the current character.
    fn next_token(&mut self) -> (r: Result<Token, BasilError>)
        requires
            old(self).wf(),
        ensures
            final(self).wf(),
            final(self).src == old(self).src,
            match next_tok(old(self).source(), old(self).state()) {
                Ok((t, st)) => r matches Ok(x) && token_view(x) == t && final(self).state() == st,
                Err(m) => r matches Err(e) && e.0@ == m,
            },
            r is Ok ==> final(self).at >= old(self).at,
            r matches Ok(x) && x.kind != TokenKind::Eof ==> further(
                old(self).source(),
                old(self).state(),
                final(self).state(),
            ),
        decreases old(self).src@.len(), old(self).src@.len() - old(self).at, old(self).pending@.len(), nl_rank(
            old(self).pending_nl_semi,
        ), 2int,
    {
        let ghost st0 = self.state();
        if self.pending.len() > 0 {
            let ghost p0 = self.pending@;
            let t = self.pending.pop_front().unwrap();
            assert(tokens_view(self.pending@) =~= tokens_view(p0).drop_first());
            self.post_emit_adjust(t.kind);
            return Ok(t);
        }
        proof {
            lemma_skip_from_bounds(
                self.src@,
                self.at as int,
                self.pending_nl_semi,
                self.paren_depth as int,
                self.last_was_continuation,
            );
        }
        self.skip_ws_and_comments();
        let line = self.line;
        if self.pending_nl_semi {
            self.pending_nl_semi = false;
            if self.at < self.src.len() {
                let t = Token {
                    kind: TokenKind::Semicolon,
                    lexeme: String::new(),
                    literal: None,
                    span: Span::new(self.pos, self.pos),
                    line: line as u32,
                };
                self.post_emit_adjust(TokenKind::Semicolon);
                return Ok(t);
            }
        }
        if self.at >= self.src.len() {
            return Ok(
                Token {
                    kind: TokenKind::Eof,
                    lexeme: String::new(),
                    literal: None,
                    span: Span::new(self.pos, self.pos),
                    line: line as u32,
                },
            );
        }
        let t = match self.scan_token(line) {
            Ok(t) => t,
            Err(e) => {
                return Err(e);
            },
        };
        self.post_emit_adjust(t.kind);
        Ok(t)
    }

    /// All the tokens of the source, through the end-of-input token.
    pub fn tokenize(&mut self) -> (r: Result<Vec<Token>, BasilError>)
        requires
            old(self).wf(),
        ensures
            final(self).wf(),
            match tokens_from(old(self).source(), old(self).state()) {
                Ok(ts) => r matches Ok(v) && tokens_view(v@) == ts,
                Err(m) => r matches Err(e) && e.0@ == m,
            },
        decreases old(self).source().len(), old(self).source().len() - old(self).state().at,
            old(self).state().pending.len(), nl_rank(old(self).state().nl_semi), 3int,
    {
        let ghost st0 = self.state();
        let ghost src = self.source();
        let mut out: Vec<Token> = Vec::new();
        proof {
            assert(tokens_view(out@) =~= Seq::<TokenView>::empty());
            assert(prepend_tokens(seq![], tokens_from(src, st0)) =~= tokens_from(src, st0)) by {
                if let Ok(ts) = tokens_from(src, st0) {
                    assert(Seq::<TokenView>::empty() + ts =~= ts);
                }
            }
        }
        loop
            invariant
                self.wf(),
                self.source() == src,
                tokens_from(src, st0) == prepend_tokens(tokens_view(out@), tokens_from(src, self.state())),
                not_behind(st0, self.state()),
                st0 == old(self).state(),
                src == old(self).source(),
            decreases src.len() - self.at, self.pending@.len(), nl_rank(self.pending_nl_semi),
        {
            let ghost st = self.state();
            assert(self.state().pending.len() == self.pending@.len());
            assert(st0.pending.len() == old(self).pending@.len());
            let t = match self.next_token() {
                Ok(t) => t,
                Err(e) => {
                    return Err(e);
                },
            };
            let eof = t.kind == TokenKind::Eof;
            let ghost o = tokens_view(out@);
            proof {
                lemma_tokens_view_push(out@, t);
            }
            out.push(t);
            if eof {
                assert(tokens_view(out@) =~= o + seq![token_view(t)]);
                return Ok(out);
            }
            proof {
                if let Ok(ts) = tokens_from(src, self.state()) {
                    assert(o + (seq![token_view(t)] + ts) =~= tokens_view(out@) + ts);
                }
            }
        }
    }
}

// ---------------------------------------------------------------------
// The lexer moves forward

proof fn lemma_scan_moves(src: Seq<char>, st: LexState, line: int)
    requires
        0 <= st.at < src.len(),
    ensures
        scan(src, st, line) matches Ok((_, st2)) ==> st.at < st2.at <= src.len(),
    decreases src.len(), src.len() - st.at, 0int, 0int, 1int,
{
    let a = st.at;
    let c = src[a];
    if c == '"' {
        lemma_string_close_bounds(src, a + 1);
    } else if is_ascii_digit(c) {
        lemma_run_from_bounds(src, a, digit_pred());
        let e1 = run_from(src, a, digit_pred());
        if e1 + 1 < src.len() {
            lemma_run_from_bounds(src, e1 + 1, digit_pred());
        }
    } else if ident_start(c) {
        lemma_word_moves(src, st, line);
    }
}

proof fn lemma_word_moves(src: Seq<char>, st: LexState, line: int)
    requires
        0 <= st.at < src.len(),
        ident_start(src[st.at]),
    ensures
        word_tok(src, st, line) matches Ok((_, st2)) ==> st.at < st2.at <= src.len(),
    decreases src.len(), src.len() - st.at, 0int, 0int, 0int,
{
    let a = st.at;
    lemma_run_from_bounds(src, a, ident_pred());
    let e = run_from(src, a, ident_pred());
    let word = src.subrange(a, e);
    let ahead = continuation_ahead(src, e + 1);
    if keyword_of(upper_seq(word)) == TokenKind::Ident && word == seq!['_'] && ahead is Some {
        lemma_consume_continuation_bounds(src, e, ahead->0);
        let st1 = LexState { at: consume_continuation(src, e, ahead->0), ..st };
        lemma_next_tok_moves(src, st1);
    }
}

proof fn lemma_next_tok_moves(src: Seq<char>, st: LexState)
    requires
        0 <= st.at <= src.len(),
    ensures
        next_tok(src, st) matches Ok((_, st2)) ==> st.at <= st2.at <= src.len(),
        next_tok(src, st) matches Ok((t, st2)) ==> (t.kind != TokenKind::Eof ==> further(src, st, st2)),
    decreases src.len(), src.len() - st.at, st.pending.len(), nl_rank(st.nl_semi), 2int,
{
    if st.pending.len() == 0 {
        lemma_skip_from_bounds(src, st.at, st.nl_semi, st.depth, st.cont);
        let (k, owed) = skip_from(src, st.at, st.nl_semi, st.depth, st.cont);
        if !(owed && k < src.len()) && k < src.len() {
            lemma_scan_moves(src, LexState { at: k, nl_semi: false, ..st }, line_at(src, k));
        }
    }
}

/// The lexer only moves forward: each token but the last leaves it further along, with
/// the source consumed, fewer tokens made ahead of time, or no `;` owed any more.
pub proof fn law_lexer_moves_forward(src: Seq<char>, st: LexState)
    requires
        0 <= st.at <= src.len(),
    ensures
        next_tok(src, st) matches Ok((t, st2)) ==> (t.kind != TokenKind::Eof ==> further(src, st, st2)),
{
    lemma_next_tok_moves(src, st);
}

/// Tokenizing ends with the end-of-input token, and with the first one: every token
/// before the last is of another kind.
pub proof fn law_tokens_end_with_eof(src: Seq<char>, st: LexState)
    requires
        0 <= st.at <= src.len(),
    ensures
        tokens_from(src, st) matches Ok(ts) ==> ts.len() >= 1 && ts.last().kind == TokenKind::Eof && forall|i: int|
            0 <= i < ts.len() - 1 ==> ts[i].kind != TokenKind::Eof,
    decreases src.len() - st.at, st.pending.len(), nl_rank(st.nl_semi),
{
    lemma_next_tok_moves(src, st);
    if let Ok((t, st2)) = next_tok(src, st) {
        if t.kind != TokenKind::Eof && further(src, st, st2) {
            law_tokens_end_with_eof(src, st2);
            if let Ok(rest) = tokens_from(src, st2) {
                let ts = seq![t] + rest;
                assert forall|i: int| 0 <= i < ts.len() - 1 implies ts[i].kind != TokenKind::Eof by {
                    if i > 0 {
                        assert(ts[i] == rest[i - 1]);
                    }
                }
                assert(ts.last() == rest.last());
            }
        }
    }
}

// ---------------------------------------------------------------------
// Bounds

pub proof fn lemma_line_end_from_bounds(src: Seq<char>, k: int)
    requires
        0 <= k <= src.len(),
    ensures
        k <= line_end_from(src, k) <= src.len(),
    decreases src.len() - k,
{
    if k < src.len() && src[k] != '\n' {
        lemma_line_end_from_bounds(src, k + 1);
    }
}

pub proof fn lemma_skip_from_bounds(src: Seq<char>, k: int, nl: bool, depth: int, cont: bool)
    requires
        0 <= k <= src.len(),
    ensures
        k <= skip_from(src, k, nl, depth, cont).0 <= src.len(),
        skip_from(src, k, nl, depth, cont).0 == k ==> skip_from(src, k, nl, depth, cont).1 == nl,
    decreases src.len() - k,
{
    if k < src.len() {
        let c = src[k];
        if is_white(c) {
            let owed = if c == '\n' && !(depth > 0 || cont || cont_op_from(src, k + 1)) {
                true
            } else {
                nl
            };
            lemma_skip_from_bounds(src, k + 1, owed, depth, cont);
        } else if c == '\'' || c == '#' {
            lemma_line_end_from_bounds(src, k + 1);
            lemma_skip_from_bounds(src, line_end_from(src, k + 1), nl, depth, cont);
        } else if c == '/' && k + 1 < src.len() && src[k + 1] == '/' {
            lemma_line_end_from_bounds(src, k + 2);
            lemma_skip_from_bounds(src, line_end_from(src, k + 2), nl, depth, cont);
        } else if rem_at(src, k) {
            lemma_line_end_from_bounds(src, k + 3);
            lemma_skip_from_bounds(src, line_end_from(src, k + 3), nl, depth, cont);
        }
    }
}

pub proof fn lemma_interp_close_bounds(src: Seq<char>, q: int, j: int, depth: int, in_str: bool)
    ensures
        interp_close(src, q, j, depth, in_str) matches Some(e) ==> j <= e < q && e < src.len(),
    decreases q - j,
{
    if 0 <= j < q && j < src.len() {
        if in_str {
            lemma_interp_close_bounds(src, q, j + 1, depth, src[j] != '"');
        } else if src[j] == '"' {
            lemma_interp_close_bounds(src, q, j + 1, depth, true);
        } else if src[j] == '{' {
            lemma_interp_close_bounds(src, q, j + 1, depth + 1, false);
        } else if src[j] == '}' {
            if depth - 1 != 0 {
                lemma_interp_close_bounds(src, q, j + 1, depth - 1, false);
            }
        } else {
            lemma_interp_close_bounds(src, q, j + 1, depth, false);
        }
    }
}

pub proof fn lemma_string_close_bounds(src: Seq<char>, k: int)
    ensures
        string_close(src, k) matches Some(q) ==> k <= q < src.len(),
    decreases src.len() - k,
{
    if 0 <= k < src.len() && src[k] != '"' {
        if src[k] == '\\' {
            if k + 1 < src.len() {
                lemma_string_close_bounds(src, k + 2);
            }
        } else {
            lemma_string_close_bounds(src, k + 1);
        }
    }
}

pub proof fn lemma_interpolation_next(src: Seq<char>, q: int, i: int, lit: Seq<char>, built: Seq<TokenView>, need_plus: bool, sp: Span, line: u32)
    requires
        0 <= i < q < src.len(),
    ensures
        interpolation(src, q, i, lit, built, need_plus, sp, line) matches Ok((_, n)) ==> i + 2 < n <= q,
{
    lemma_interp_close_bounds(src, q, i + 2, 1, false);
}

pub proof fn lemma_run_from_bounds(src: Seq<char>, k: int, p: spec_fn(char) -> bool)
    requires
        0 <= k <= src.len(),
    ensures
        k <= run_from(src, k, p) <= src.len(),
        k < src.len() && p(src[k]) ==> k < run_from(src, k, p),
    decreases src.len() - k,
{
    if k < src.len() && p(src[k]) {
        lemma_run_from_bounds(src, k + 1, p);
    }
}

pub proof fn lemma_consume_continuation_bounds(src: Seq<char>, k: int, saw: bool)
    requires
        0 <= k <= src.len(),
    ensures
        k <= consume_continuation(src, k, saw) <= src.len(),
    decreases src.len() - k,
{
    if k < src.len() {
        if src[k] == ' ' || src[k] == '\t' || src[k] == '\r' {
            lemma_consume_continuation_bounds(src, k + 1, saw);
        } else if (src[k] == '\'' || src[k] == '#') && saw {
            lemma_line_end_from_bounds(src, k + 1);
            lemma_consume_continuation_bounds(src, line_end_from(src, k + 1), saw);
        } else if src[k] == '/' && saw && k + 1 < src.len() && src[k + 1] == '/' {
            lemma_line_end_from_bounds(src, k + 2);
            lemma_consume_continuation_bounds(src, line_end_from(src, k + 2), saw);
        }
    }
}

/// Escapes in a string literal: `\n`, `\t` and `\r` stand for newline, tab and
/// carriage return, and a backslash before any other character (but `#`) stands
/// for that character, such as `\"` for a quote and `\\` for a backslash. Either
/// way the text goes on after the two characters.
pub proof fn law_escapes_decode(src: Seq<char>, q: int, i: int, lit: Seq<char>, built: Seq<TokenView>, saw: bool, need_plus: bool, sp: Span, line: u32)
    requires
        0 <= i,
        i + 1 < q < src.len(),
        src[i] == '\\',
        src[i + 1] != '#',
    ensures
        src[i + 1] == 'n' ==> cook(src, q, i, lit, built, saw, need_plus, sp, line) == cook(src, q, i + 2, lit.push('\n'), built, saw, need_plus, sp, line),
        src[i + 1] == 't' ==> cook(src, q, i, lit, built, saw, need_plus, sp, line) == cook(src, q, i + 2, lit.push('\t'), built, saw, need_plus, sp, line),
        src[i + 1] == 'r' ==> cook(src, q, i, lit, built, saw, need_plus, sp, line) == cook(src, q, i + 2, lit.push('\r'), built, saw, need_plus, sp, line),
        (src[i + 1] != 'n' && src[i + 1] != 't' && src[i + 1] != 'r') ==> cook(src, q, i, lit, built, saw, need_plus, sp, line)
            == cook(src, q, i + 2, lit.push(src[i + 1]), built, saw, need_plus, sp, line),
        '\n' as u32 == 10 && '\t' as u32 == 9 && '\r' as u32 == 13,
{
    lemma_cook_escape(src, q, i, lit, built, saw, need_plus, sp, line);
    let (text, next) = escape_at(src, q, i);
    assert(lit + text =~= lit.push(text[0]));
}

} // verus!
