use vstd::prelude::*;

use crate::ast::{
    arms_view, exprs_view, expr_view, fields_view, field_view, lemma_arms_view_push, lemma_exprs_view_push,
    lemma_stmts_view_push, opt_expr_view, opt_string_view, pattern_view, patterns_view, stmt_view, stmts_view,
    strings_view, BinOp, CasePattern, CasePatternView, CaseArm, CaseArmView, Expr, ExprView, FieldKindView, FieldView,
    FuncKind, Stmt, StmtView, StructField, StructFieldKind,
};
use crate::common::BasilError;
use crate::lexer::{byte_len, tokens_of, LitView, Lexer, TokenKind, TokenView};
use crate::parser::{
    at_kind, call_args, error_at, expected, expr_bp, expr_result, kind_at, line_of, member_name, postfix, prefix,
    takes, Parser,
};
use crate::template::{eq_ignore_case, eq_ignore_case_str};
use crate::text::{ascii_upper, chars_of, decimal, decimal_string, str_eq, string_of, upper_seq};

verus! {

// ---------------------------------------------------------------------
// Small pieces of the statement grammar

/// Where the run of statement separators (`;` or `:`) from `i` ends.
pub open spec fn skip_terms(toks: Seq<TokenView>, i: int) -> int
    decreases toks.len() - i,
{
    if 0 <= i < toks.len() && takes(toks, i, TokenKind::Semicolon) {
        skip_terms(toks, i + 1)
    } else {
        i
    }
}

pub proof fn lemma_skip_terms(toks: Seq<TokenView>, i: int)
    ensures
        i <= skip_terms(toks, i),
        0 <= i <= toks.len() ==> skip_terms(toks, i) <= toks.len(),
    decreases toks.len() - i,
{
    if 0 <= i < toks.len() && takes(toks, i, TokenKind::Semicolon) {
        lemma_skip_terms(toks, i + 1);
    }
}

/// The end of a statement: a separator, or the end of input (not taken).
pub open spec fn terminate(toks: Seq<TokenView>, i: int) -> Result<int, Seq<char>> {
    if takes(toks, i, TokenKind::Semicolon) {
        Ok(i + 1)
    } else if at_kind(toks, i, TokenKind::Eof) {
        Ok(i)
    } else {
        Err(error_at(toks, i, "expected Semicolon or Colon"@))
    }
}

/// An optional separator.
pub open spec fn opt_terminate(toks: Seq<TokenView>, i: int) -> int {
    if takes(toks, i, TokenKind::Semicolon) {
        i + 1
    } else {
        i
    }
}

/// The lexeme of the token at `i`.
pub open spec fn lexeme_at(toks: Seq<TokenView>, i: int) -> Seq<char> {
    if 0 <= i < toks.len() {
        toks[i].lexeme
    } else {
        seq![]
    }
}

/// An optional word after END: IF, FUNC, WHILE or the identifier BLOCK.
pub open spec fn end_suffix(toks: Seq<TokenView>, i: int) -> int {
    match kind_at(toks, i) {
        Some(TokenKind::If) => i + 1,
        Some(TokenKind::Func) => i + 1,
        Some(TokenKind::While) => i + 1,
        Some(TokenKind::Ident) => if eq_ignore_case(lexeme_at(toks, i), "BLOCK"@) {
            i + 1
        } else {
            i
        },
        _ => i,
    }
}

/// END with its optional suffix word.
pub open spec fn end_any(toks: Seq<TokenView>, i: int) -> Result<int, Seq<char>> {
    if at_kind(toks, i, TokenKind::End) {
        Ok(end_suffix(toks, i + 1))
    } else {
        Err(expected(toks, i, TokenKind::End))
    }
}

/// An identifier.
pub open spec fn ident(toks: Seq<TokenView>, i: int) -> Result<(Seq<char>, int), Seq<char>> {
    if at_kind(toks, i, TokenKind::Ident) {
        Ok((toks[i].lexeme, i + 1))
    } else {
        Err(error_at(toks, i, "expected identifier"@))
    }
}

pub open spec fn ends_with_char(s: Seq<char>, c: char) -> bool {
    s.len() > 0 && s.last() == c
}

/// The number of ASCII digits at the start of `s`.
pub open spec fn leading_digits(s: Seq<char>) -> nat
    decreases s.len(),
{
    if s.len() > 0 && '0' <= s[0] <= '9' {
        1 + leading_digits(s.drop_first())
    } else {
        0
    }
}

/// The value of a string of decimal digits.
pub open spec fn digits_value(s: Seq<char>) -> nat
    decreases s.len(),
{
    if s.len() == 0 {
        0
    } else {
        digits_value(s.drop_last()) * 10 + ((s.last() as nat) - 48) as nat
    }
}

/// A numeral taken as a count: its whole part, at most `usize::MAX`.
pub open spec fn numeral_count(s: Seq<char>) -> usize {
    let v = digits_value(s.take(leading_digits(s) as int));
    if v > usize::MAX {
        usize::MAX
    } else {
        v as usize
    }
}

/// The count written by the number token at `i` (0 when it holds no numeral).
pub open spec fn count_at(toks: Seq<TokenView>, i: int) -> usize {
    if 0 <= i < toks.len() {
        match toks[i].literal {
            Some(LitView::Num(t)) => numeral_count(t),
            _ => 0,
        }
    } else {
        0
    }
}

/// The comparison operator after CASE IS.
pub open spec fn compare_op_at(toks: Seq<TokenView>, i: int) -> Option<BinOp> {
    match kind_at(toks, i) {
        Some(TokenKind::EqEq) => Some(BinOp::Eq),
        Some(TokenKind::Assign) => Some(BinOp::Eq),
        Some(TokenKind::BangEq) => Some(BinOp::Ne),
        Some(TokenKind::Lt) => Some(BinOp::Lt),
        Some(TokenKind::LtEq) => Some(BinOp::Le),
        Some(TokenKind::Gt) => Some(BinOp::Gt),
        Some(TokenKind::GtEq) => Some(BinOp::Ge),
        _ => None,
    }
}

/// The terminal commands that may stand alone as statements, without arguments.
pub open spec fn zero_arg_command(u: Seq<char>) -> bool {
    ||| u == "CLS"@
    ||| u == "CLEAR"@
    ||| u == "HOME"@
    ||| u == "COLOR_RESET"@
    ||| u == "ATTR_RESET"@
    ||| u == "CURSOR_SAVE"@
    ||| u == "CURSOR_RESTORE"@
    ||| u == "CURSOR_HIDE"@
    ||| u == "CURSOR_SHOW"@
}

/// The numeral of a count, as an expression.
pub open spec fn count_number(n: nat) -> ExprView {
    ExprView::Number(decimal(n))
}

/// `DIM name = [items]` for an array of numbers or strings: the DIM of the array
/// and one assignment per item, counting from 1.
pub open spec fn dim_list(name: Seq<char>, items: Seq<ExprView>) -> Seq<StmtView> {
    seq![StmtView::Dim { name, dims: seq![count_number(items.len())] }] + Seq::new(
        items.len(),
        |k: int| StmtView::Let { name, indices: Some(seq![count_number((k + 1) as nat)]), init: items[k] },
    )
}

// ---------------------------------------------------------------------
// Bodies: statements up to a closing token

/// How a body of statements ends.
#[derive(Clone, Copy, PartialEq, Eq, Structural)]
pub enum Closer {
    /// `}`, taken.
    Brace,
    /// END with an optional suffix word, taken.
    BeginEnd,
    /// END alone, taken.
    BareEnd,
    /// END WITH, taken.
    EndWith,
    /// END with an optional FUNC, taken.
    FuncEnd,
    /// Before ELSE or END.
    ElseOrEnd,
    /// Before END or CASE.
    EndOrCase,
    /// Before CASE or `}`.
    CaseOrBrace,
    /// Before CATCH, FINALLY or END.
    TrySections,
    /// Before FINALLY or END.
    FinallyOrEnd,
    /// Before CATCH or END.
    CatchOrEnd,
    /// Before the end of input.
    Input,
}

/// Whether the body closes at `j`, and where it goes on (or why it fails).
pub open spec fn closes(toks: Seq<TokenView>, j: int, cl: Closer) -> Option<Result<int, Seq<char>>> {
    match cl {
        Closer::Brace => if at_kind(toks, j, TokenKind::RBrace) {
            Some(Ok(j + 1))
        } else {
            None
        },
        Closer::BeginEnd => if at_kind(toks, j, TokenKind::End) {
            Some(Ok(end_suffix(toks, j + 1)))
        } else {
            None
        },
        Closer::BareEnd => if at_kind(toks, j, TokenKind::End) {
            Some(Ok(j + 1))
        } else {
            None
        },
        Closer::EndWith => if at_kind(toks, j, TokenKind::End) {
            if at_kind(toks, j + 1, TokenKind::With) {
                Some(Ok(j + 2))
            } else {
                Some(Err("Expected 'END WITH' to terminate WITH block."@))
            }
        } else {
            None
        },
        Closer::FuncEnd => if at_kind(toks, j, TokenKind::End) {
            Some(Ok(if at_kind(toks, j + 1, TokenKind::Func) { j + 2 } else { j + 1 }))
        } else {
            None
        },
        Closer::ElseOrEnd => if at_kind(toks, j, TokenKind::Else) || at_kind(toks, j, TokenKind::End) {
            Some(Ok(j))
        } else {
            None
        },
        Closer::EndOrCase => if at_kind(toks, j, TokenKind::End) || at_kind(toks, j, TokenKind::Case) {
            Some(Ok(j))
        } else {
            None
        },
        Closer::CaseOrBrace => if at_kind(toks, j, TokenKind::RBrace) || at_kind(toks, j, TokenKind::Case) {
            Some(Ok(j))
        } else {
            None
        },
        Closer::TrySections => if at_kind(toks, j, TokenKind::Catch) || at_kind(toks, j, TokenKind::Finally)
            || at_kind(toks, j, TokenKind::End) {
            Some(Ok(j))
        } else {
            None
        },
        Closer::FinallyOrEnd => if at_kind(toks, j, TokenKind::Finally) || at_kind(toks, j, TokenKind::End) {
            Some(Ok(j))
        } else {
            None
        },
        Closer::CatchOrEnd => if at_kind(toks, j, TokenKind::Catch) || at_kind(toks, j, TokenKind::End) {
            Some(Ok(j))
        } else {
            None
        },
        Closer::Input => if at_kind(toks, j, TokenKind::Eof) {
            Some(Ok(j))
        } else {
            None
        },
    }
}

/// The error when the input ends inside a body: `msg`, after the line of the end
/// when `with_line` holds.
pub open spec fn eof_error(toks: Seq<TokenView>, j: int, msg: Seq<char>, with_line: bool) -> Seq<char> {
    if with_line {
        error_at(toks, j, msg)
    } else {
        msg
    }
}

/// The statements of a body from `i`, each after a line marker, up to the closer.
/// `c` counts the CATCH blocks around it.
pub open spec fn body(toks: Seq<TokenView>, i: int, c: nat, cl: Closer, msg: Seq<char>, with_line: bool) -> Result<
    (Seq<StmtView>, int),
    Seq<char>,
>
    decreases toks.len() - i, 6int,
{
    let j = skip_terms(toks, i);
    proof {
        lemma_skip_terms(toks, i);
    }
    if !(0 <= i <= toks.len()) {
        Err(seq![])
    } else {
        match closes(toks, j, cl) {
            Some(Ok(k)) => Ok((seq![], k)),
            Some(Err(e)) => Err(e),
            None => if at_kind(toks, j, TokenKind::Eof) {
                Err(eof_error(toks, j, msg, with_line))
            } else {
                match stmt(toks, j, c) {
                    Err(e) => Err(e),
                    Ok((s, k)) => if j < k <= toks.len() {
                        match body(toks, k, c, cl, msg, with_line) {
                            Err(e) => Err(e),
                            Ok((rest, m)) => Ok((seq![StmtView::Line(line_of(toks, j)), s] + rest, m)),
                        }
                    } else {
                        Err(seq![])
                    },
                }
            },
        }
    }
}

/// A body as a block statement.
pub open spec fn block(r: Result<(Seq<StmtView>, int), Seq<char>>) -> Result<(StmtView, int), Seq<char>> {
    match r {
        Ok((b, k)) => Ok((StmtView::Block(b), k)),
        Err(e) => Err(e),
    }
}

/// A single statement as a block, after the marker of its line.
pub open spec fn lined(toks: Seq<TokenView>, j: int, r: Result<(StmtView, int), Seq<char>>) -> Result<
    (StmtView, int),
    Seq<char>,
> {
    match r {
        Ok((s, k)) => Ok((StmtView::Block(seq![StmtView::Line(line_of(toks, j)), s]), k)),
        Err(e) => Err(e),
    }
}

// ---------------------------------------------------------------------
// Statements

/// The statement from `i`, after any separators; `c` counts the CATCH blocks around it.
pub open spec fn stmt(toks: Seq<TokenView>, i: int, c: nat) -> Result<(StmtView, int), Seq<char>>
    decreases toks.len() - i, 5int,
{
    let j = skip_terms(toks, i);
    proof {
        lemma_skip_terms(toks, i);
    }
    if !(0 <= i <= toks.len()) {
        Err(seq![])
    } else {
        match kind_at(toks, j) {
            Some(TokenKind::Select) => select_stmt(toks, j + 1, c),
            Some(TokenKind::With) => with_stmt(toks, j + 1, c),
            Some(TokenKind::Try) => try_stmt(toks, j + 1, c),
            Some(TokenKind::Func) => func_stmt(
                toks,
                j + 1,
                c,
                if eq_ignore_case(toks[j].lexeme, "SUB"@) { FuncKind::Sub } else { FuncKind::Func },
            ),
            Some(TokenKind::Label) => label_stmt(toks, j),
            Some(TokenKind::Goto) => match ident(toks, j + 1) {
                Err(e) => Err(e),
                Ok((name, k)) => finish(toks, k, StmtView::Goto(name)),
            },
            Some(TokenKind::Gosub) => match ident(toks, j + 1) {
                Err(e) => Err(e),
                Ok((name, k)) => finish(toks, k, StmtView::Gosub(name)),
            },
            Some(TokenKind::Setenv) => setenv_stmt(toks, j + 1, false),
            Some(TokenKind::Exportenv) => setenv_stmt(toks, j + 1, true),
            Some(TokenKind::Shell) => match expr_bp(toks, j + 1, 0) {
                Err(e) => Err(e),
                Ok((cmd, k)) => finish(toks, k, StmtView::Shell { cmd }),
            },
            Some(TokenKind::Exit) => match opt_operand(toks, j + 1) {
                Err(e) => Err(e),
                Ok((e, k)) => finish(toks, k, StmtView::Exit(e)),
            },
            Some(TokenKind::Stop) => finish(toks, j + 1, StmtView::Stop),
            Some(TokenKind::Raise) => raise_stmt(toks, j + 1, c),
            Some(TokenKind::Let) => let_stmt(toks, j + 1),
            Some(TokenKind::Print) => print_stmt(toks, j + 1, false),
            Some(TokenKind::Println) => print_stmt(toks, j + 1, true),
            Some(TokenKind::Describe) => match expr_bp(toks, j + 1, 0) {
                Err(e) => Err(e),
                Ok((target, k)) => finish(toks, k, StmtView::Describe { target }),
            },
            Some(TokenKind::Exec) => exec_stmt(toks, j + 1),
            Some(TokenKind::Return) => return_stmt(toks, j + 1),
            Some(TokenKind::If) => if_stmt(toks, j + 1, c),
            Some(TokenKind::While) => while_stmt(toks, j + 1, c),
            Some(TokenKind::Break) => finish(toks, j + 1, StmtView::Break),
            Some(TokenKind::Continue) => finish(toks, j + 1, StmtView::Continue),
            Some(TokenKind::LBrace) => block(body(toks, j + 1, c, Closer::Brace, "unterminated brace block"@, true)),
            Some(TokenKind::Begin) => block(body(toks, j + 1, c, Closer::BeginEnd, "unterminated BEGIN/END"@, true)),
            Some(TokenKind::Type) => type_stmt(toks, j + 1),
            Some(TokenKind::For) => for_stmt(toks, j + 1, c),
            Some(TokenKind::Dim) => dim_stmt(toks, j + 1),
            Some(TokenKind::Ident) => ident_stmt(toks, j),
            _ => expr_stmt(toks, j),
        }
    }
}

/// LABEL name, or a label in the colon form (its name is the token's text).
pub open spec fn label_stmt(toks: Seq<TokenView>, j: int) -> Result<(StmtView, int), Seq<char>> {
    if at_kind(toks, j + 1, TokenKind::Ident) {
        finish(toks, j + 2, StmtView::Label(lexeme_at(toks, j + 1)))
    } else {
        finish(toks, j + 1, StmtView::Label(lexeme_at(toks, j)))
    }
}

/// RAISE [expr]; without an expression only inside CATCH.
pub open spec fn raise_stmt(toks: Seq<TokenView>, k: int, c: nat) -> Result<(StmtView, int), Seq<char>> {
    match opt_operand(toks, k) {
        Err(e) => Err(e),
        Ok((e, m)) => if e is None && c == 0 {
            Err("RAISE without an expression is only valid inside CATCH."@)
        } else {
            finish(toks, m, StmtView::Raise(e))
        },
    }
}

/// PRINT or PRINTLN (which appends a newline).
pub open spec fn print_stmt(toks: Seq<TokenView>, k: int, newline: bool) -> Result<(StmtView, int), Seq<char>> {
    match print_items(toks, k) {
        Err(e) => Err(e),
        Ok((e, m)) => finish(
            toks,
            m,
            StmtView::Print {
                expr: if newline {
                    ExprView::Binary { op: BinOp::Add, lhs: Box::new(e), rhs: Box::new(ExprView::Str("\n"@)) }
                } else {
                    e
                },
            },
        ),
    }
}

/// EXEC(code).
pub open spec fn exec_stmt(toks: Seq<TokenView>, k: int) -> Result<(StmtView, int), Seq<char>> {
    if !at_kind(toks, k, TokenKind::LParen) {
        Err(expected(toks, k, TokenKind::LParen))
    } else {
        match expr_bp(toks, k + 1, 0) {
            Err(e) => Err(e),
            Ok((code, m)) => if !at_kind(toks, m, TokenKind::RParen) {
                Err(expected(toks, m, TokenKind::RParen))
            } else {
                finish(toks, m + 1, StmtView::Exec { code })
            },
        }
    }
}

/// A statement that starts with an identifier: SLEEP, a bare terminal command, or
/// an expression statement.
pub open spec fn ident_stmt(toks: Seq<TokenView>, j: int) -> Result<(StmtView, int), Seq<char>> {
    let name = lexeme_at(toks, j);
    if eq_ignore_case(name, "SLEEP"@) {
        sleep_stmt(toks, j + 1)
    } else if zero_arg_command(upper_seq(name)) {
        let k = if takes(toks, j + 1, TokenKind::LParen) {
            if at_kind(toks, j + 2, TokenKind::RParen) {
                Ok(j + 3)
            } else {
                Err(expected(toks, j + 2, TokenKind::RParen))
            }
        } else {
            Ok(j + 1)
        };
        match k {
            Err(e) => Err(e),
            Ok(k) => finish(
                toks,
                k,
                StmtView::ExprStmt(ExprView::Call { callee: Box::new(ExprView::Var(name)), args: seq![] }),
            ),
        }
    } else {
        expr_stmt(toks, j)
    }
}

/// `s`, after the end of the statement at `k`.
pub open spec fn finish(toks: Seq<TokenView>, k: int, s: StmtView) -> Result<(StmtView, int), Seq<char>> {
    match terminate(toks, k) {
        Ok(e) => Ok((s, e)),
        Err(m) => Err(m),
    }
}

/// The optional expression after EXIT or RAISE: none before `;` or the end.
pub open spec fn opt_operand(toks: Seq<TokenView>, k: int) -> Result<(Option<ExprView>, int), Seq<char>> {
    if at_kind(toks, k, TokenKind::Semicolon) || at_kind(toks, k, TokenKind::Eof) {
        Ok((None, k))
    } else {
        match expr_bp(toks, k, 0) {
            Err(e) => Err(e),
            Ok((e, m)) => Ok((Some(e), m)),
        }
    }
}

/// SETENV or EXPORTENV `name = expr`.
pub open spec fn setenv_stmt(toks: Seq<TokenView>, k: int, export: bool) -> Result<(StmtView, int), Seq<char>> {
    match ident(toks, k) {
        Err(e) => Err(e),
        Ok((name, m)) => if !at_kind(toks, m, TokenKind::Assign) {
            Err(expected(toks, m, TokenKind::Assign))
        } else {
            match expr_bp(toks, m + 1, 0) {
                Err(e) => Err(e),
                Ok((value, n)) => finish(toks, n, StmtView::SetEnv { name, value, export }),
            }
        },
    }
}

/// The expressions of PRINT from `k`, joined with tabs: `acc` so far.
pub open spec fn print_rest(toks: Seq<TokenView>, k: int, acc: ExprView) -> Result<(ExprView, int), Seq<char>>
    decreases toks.len() - k,
{
    if takes(toks, k, TokenKind::Comma) {
        match expr_bp(toks, k + 1, 0) {
            Err(e) => Err(e),
            Ok((next, m)) => if k < m <= toks.len() {
                print_rest(
                    toks,
                    m,
                    ExprView::Binary {
                        op: BinOp::Add,
                        lhs: Box::new(
                            ExprView::Binary { op: BinOp::Add, lhs: Box::new(acc), rhs: Box::new(ExprView::Str("\t"@)) },
                        ),
                        rhs: Box::new(next),
                    },
                )
            } else {
                Err(seq![])
            },
        }
    } else {
        Ok((acc, k))
    }
}

pub open spec fn print_items(toks: Seq<TokenView>, k: int) -> Result<(ExprView, int), Seq<char>> {
    match expr_bp(toks, k, 0) {
        Err(e) => Err(e),
        Ok((e, m)) => print_rest(toks, m, e),
    }
}

/// RETURN TO label, a bare RETURN (from a GOSUB), or RETURN expr (from a function).
pub open spec fn return_stmt(toks: Seq<TokenView>, k: int) -> Result<(StmtView, int), Seq<char>> {
    if at_kind(toks, k, TokenKind::To) {
        match ident(toks, k + 1) {
            Err(e) => Err(e),
            Ok((label, m)) => finish(toks, m, StmtView::ReturnFromGosub(Some(label))),
        }
    } else if at_kind(toks, k, TokenKind::Semicolon) || at_kind(toks, k, TokenKind::Eof) {
        finish(toks, k, StmtView::ReturnFromGosub(None))
    } else {
        match expr_bp(toks, k, 0) {
            Err(e) => Err(e),
            Ok((e, m)) => finish(toks, m, StmtView::Return(Some(e))),
        }
    }
}

/// `= value` after a target, then the end of the statement.
pub open spec fn assigned(toks: Seq<TokenView>, m: int) -> Result<(ExprView, int), Seq<char>> {
    if !at_kind(toks, m, TokenKind::Assign) {
        Err(expected(toks, m, TokenKind::Assign))
    } else {
        match expr_bp(toks, m + 1, 0) {
            Err(e) => Err(e),
            Ok((v, n)) => match terminate(toks, n) {
                Err(e) => Err(e),
                Ok(e) => Ok((v, e)),
            },
        }
    }
}

/// LET obj.Prop = expr, LET name[idx] = expr, LET name(indices).Prop = expr, or
/// LET name[(indices)] = expr.
pub open spec fn let_stmt(toks: Seq<TokenView>, k: int) -> Result<(StmtView, int), Seq<char>> {
    if at_kind(toks, k, TokenKind::Ident) && takes(toks, k + 1, TokenKind::Dot) {
        match ident(toks, k + 2) {
            Err(e) => Err(e),
            Ok((prop, m)) => match assigned(toks, m) {
                Err(e) => Err(e),
                Ok((value, e)) => Ok(
                    (StmtView::SetProp { target: ExprView::Var(toks[k].lexeme), prop, value }, e),
                ),
            },
        }
    } else {
        match ident(toks, k) {
            Err(e) => Err(e),
            Ok((name, m)) => if takes(toks, m, TokenKind::LBracket) {
                match expr_bp(toks, m + 1, 0) {
                    Err(e) => Err(e),
                    Ok((index, n)) => if !at_kind(toks, n, TokenKind::RBracket) {
                        Err(expected(toks, n, TokenKind::RBracket))
                    } else {
                        match assigned(toks, n + 1) {
                            Err(e) => Err(e),
                            Ok((value, e)) => Ok(
                                (StmtView::SetIndexSquare { target: ExprView::Var(name), index, value }, e),
                            ),
                        }
                    },
                }
            } else if takes(toks, m, TokenKind::LParen) {
                match call_args(toks, m + 1) {
                    Err(e) => Err(e),
                    Ok((idxs, n)) => if takes(toks, n, TokenKind::Dot) {
                        match member_name(toks, n + 1) {
                            Err(e) => Err(e),
                            Ok((prop, p)) => match assigned(toks, p) {
                                Err(e) => Err(e),
                                Ok((value, e)) => Ok(
                                    (
                                        StmtView::SetProp {
                                            target: ExprView::Call { callee: Box::new(ExprView::Var(name)), args: idxs },
                                            prop,
                                            value,
                                        },
                                        e,
                                    ),
                                ),
                            },
                        }
                    } else {
                        match assigned(toks, n) {
                            Err(e) => Err(e),
                            Ok((init, e)) => Ok((StmtView::Let { name, indices: Some(idxs), init }, e)),
                        }
                    },
                }
            } else {
                match assigned(toks, m) {
                    Err(e) => Err(e),
                    Ok((init, e)) => Ok((StmtView::Let { name, indices: None, init }, e)),
                }
            },
        }
    }
}

/// SLEEP(expr) or SLEEP expr.
pub open spec fn sleep_stmt(toks: Seq<TokenView>, k: int) -> Result<(StmtView, int), Seq<char>> {
    let arg = if takes(toks, k, TokenKind::LParen) {
        match expr_bp(toks, k + 1, 0) {
            Err(e) => Err(e),
            Ok((e, m)) => if at_kind(toks, m, TokenKind::RParen) {
                Ok((e, m + 1))
            } else {
                Err(expected(toks, m, TokenKind::RParen))
            },
        }
    } else {
        expr_bp(toks, k, 0)
    };
    match arg {
        Err(e) => Err(e),
        Ok((a, m)) => finish(
            toks,
            m,
            StmtView::ExprStmt(ExprView::Call { callee: Box::new(ExprView::Var("SLEEP"@)), args: seq![a] }),
        ),
    }
}

/// An expression statement at `j`, or an assignment to a member or an index
/// without LET.
pub open spec fn expr_stmt(toks: Seq<TokenView>, j: int) -> Result<(StmtView, int), Seq<char>> {
    let probe = match prefix(toks, j) {
        Err(e) => Err(e),
        Ok((l, k)) => if j < k <= toks.len() {
            postfix(toks, k, l)
        } else {
            Err(seq![])
        },
    };
    let plain = match expr_bp(toks, j, 0) {
        Err(e) => Err(e),
        Ok((e, k)) => finish(toks, k, StmtView::ExprStmt(e)),
    };
    match probe {
        Ok((lhs, k)) => if at_kind(toks, k, TokenKind::Assign) {
            match lhs {
                ExprView::MemberGet { target, name } => match expr_bp(toks, k + 1, 0) {
                    Err(e) => Err(e),
                    Ok((value, m)) => finish(toks, m, StmtView::SetProp { target: *target, prop: name, value }),
                },
                ExprView::IndexSquare { target, index } => match expr_bp(toks, k + 1, 0) {
                    Err(e) => Err(e),
                    Ok((value, m)) => finish(
                        toks,
                        m,
                        StmtView::SetIndexSquare { target: *target, index: *index, value },
                    ),
                },
                _ => Err("Use LET for assignment; '=' in expressions tests equality."@),
            }
        } else {
            plain
        },
        Err(_) => plain,
    }
}

/// IF in its brace, block and single-statement forms.
pub open spec fn if_stmt(toks: Seq<TokenView>, k: int, c: nat) -> Result<(StmtView, int), Seq<char>>
    decreases toks.len() - k, 7int,
{
    match expr_bp(toks, k, 0) {
        Err(e) => Err(e),
        Ok((cond, m)) => if !(k < m <= toks.len()) {
            Err(seq![])
        } else if takes(toks, m, TokenKind::LBrace) {
            if_brace(toks, m + 1, c, cond)
        } else if !at_kind(toks, m, TokenKind::Then) {
            Err(expected(toks, m, TokenKind::Then))
        } else {
            let n = skip_terms(toks, m + 1);
            if !(m < n <= toks.len()) {
                Err(seq![])
            } else if takes(toks, n, TokenKind::Begin) {
                if_block(toks, n + 1, c, cond)
            } else {
                if_simple(toks, n, c, cond)
            }
        },
    }
}

/// IF cond { ... } [ELSE ...], after the `{`.
pub open spec fn if_brace(toks: Seq<TokenView>, m: int, c: nat, cond: ExprView) -> Result<(StmtView, int), Seq<char>>
    decreases toks.len() - m, 7int,
{
    match body(toks, m, c, Closer::Brace, "unterminated IF { ... }"@, true) {
        Err(e) => Err(e),
        Ok((tb, n)) => if m <= n <= toks.len() {
            match brace_else(toks, n, c) {
                Err(e) => Err(e),
                Ok((eb, e)) => Ok(
                    (StmtView::If { cond, then_branch: Box::new(StmtView::Block(tb)), else_branch: eb }, e),
                ),
            }
        } else {
            Err(seq![])
        },
    }
}

/// IF cond THEN BEGIN ... [ELSE ...] END, after BEGIN.
pub open spec fn if_block(toks: Seq<TokenView>, n: int, c: nat, cond: ExprView) -> Result<(StmtView, int), Seq<char>>
    decreases toks.len() - n, 7int,
{
    match body(toks, n, c, Closer::ElseOrEnd, "unterminated IF THEN BEGIN ..."@, true) {
        Err(e) => Err(e),
        Ok((tb, p)) => if !(n <= p <= toks.len()) {
            Err(seq![])
        } else if takes(toks, p, TokenKind::Else) {
            let q = skip_terms(toks, p + 1);
            if !(p < q <= toks.len()) {
                Err(seq![])
            } else if takes(toks, q, TokenKind::Begin) {
                match body(toks, q + 1, c, Closer::BeginEnd, "unterminated ELSE BEGIN/END"@, true) {
                    Err(e) => Err(e),
                    Ok((eb, r)) => Ok(
                        (
                            StmtView::If {
                                cond,
                                then_branch: Box::new(StmtView::Block(tb)),
                                else_branch: Some(Box::new(StmtView::Block(eb))),
                            },
                            r,
                        ),
                    ),
                }
            } else {
                match stmt(toks, q, c) {
                    Err(e) => Err(e),
                    Ok((s, r)) => match end_any(toks, skip_terms(toks, r)) {
                        Err(e) => Err(e),
                        Ok(e) => Ok(
                            (
                                StmtView::If {
                                    cond,
                                    then_branch: Box::new(StmtView::Block(tb)),
                                    else_branch: Some(Box::new(s)),
                                },
                                e,
                            ),
                        ),
                    },
                }
            }
        } else {
            match end_any(toks, skip_terms(toks, p)) {
                Err(e) => Err(e),
                Ok(e) => Ok((StmtView::If { cond, then_branch: Box::new(StmtView::Block(tb)), else_branch: None }, e)),
            }
        },
    }
}

/// IF cond THEN statement [ELSE statement], from the first statement.
pub open spec fn if_simple(toks: Seq<TokenView>, n: int, c: nat, cond: ExprView) -> Result<(StmtView, int), Seq<char>>
    decreases toks.len() - n, 7int,
{
    match lined(toks, n, stmt(toks, n, c)) {
        Err(e) => Err(e),
        Ok((ts, p)) => if !(n < p <= toks.len()) {
            Err(seq![])
        } else if takes(toks, p, TokenKind::Else) {
            match lined(toks, p + 1, stmt(toks, p + 1, c)) {
                Err(e) => Err(e),
                Ok((es, q)) => Ok((StmtView::If { cond, then_branch: Box::new(ts), else_branch: Some(Box::new(es)) }, q)),
            }
        } else {
            Ok((StmtView::If { cond, then_branch: Box::new(ts), else_branch: None }, p))
        },
    }
}

/// The optional ELSE after the brace form of IF.
pub open spec fn brace_else(toks: Seq<TokenView>, n: int, c: nat) -> Result<(Option<Box<StmtView>>, int), Seq<char>>
    decreases toks.len() - n, 4int,
{
    if takes(toks, n, TokenKind::Else) {
        let q = skip_terms(toks, n + 1);
        proof {
            lemma_skip_terms(toks, n + 1);
        }
        if at_kind(toks, q, TokenKind::If) {
            match stmt(toks, q, c) {
                Err(e) => Err(e),
                Ok((s, r)) => Ok((Some(Box::new(s)), r)),
            }
        } else if takes(toks, q, TokenKind::LBrace) {
            match block(body(toks, q + 1, c, Closer::Brace, "unterminated ELSE { ... }"@, true)) {
                Err(e) => Err(e),
                Ok((s, r)) => Ok((Some(Box::new(s)), r)),
            }
        } else if takes(toks, q, TokenKind::Begin) {
            match block(body(toks, q + 1, c, Closer::BeginEnd, "unterminated ELSE BEGIN/END"@, true)) {
                Err(e) => Err(e),
                Ok((s, r)) => Ok((Some(Box::new(s)), r)),
            }
        } else {
            match stmt(toks, q, c) {
                Err(e) => Err(e),
                Ok((s, r)) => Ok((Some(Box::new(s)), r)),
            }
        }
    } else {
        Ok((None, n))
    }
}

/// WHILE cond BEGIN ... END or WHILE cond { ... }.
pub open spec fn while_stmt(toks: Seq<TokenView>, k: int, c: nat) -> Result<(StmtView, int), Seq<char>>
    decreases toks.len() - k, 7int,
{
    match expr_bp(toks, k, 0) {
        Err(e) => Err(e),
        Ok((cond, m)) => if !(k < m <= toks.len()) {
            Err(seq![])
        } else {
            let b = if takes(toks, m, TokenKind::Begin) {
                block(body(toks, m + 1, c, Closer::BeginEnd, "unterminated WHILE BEGIN/END"@, true))
            } else if takes(toks, m, TokenKind::LBrace) {
                block(body(toks, m + 1, c, Closer::Brace, "unterminated WHILE { ... }"@, true))
            } else {
                Err("Expected 'BEGIN' or '{' after WHILE condition"@)
            };
            match b {
                Err(e) => Err(e),
                Ok((b, n)) => Ok((StmtView::While { cond, body: Box::new(b) }, n)),
            }
        },
    }
}

/// The body of FOR or FOR EACH: BEGIN ... END, `{ ... }` or one statement.
pub open spec fn loop_body(toks: Seq<TokenView>, n: int, c: nat, each: bool) -> Result<(StmtView, int), Seq<char>>
    decreases toks.len() - n, 7int,
{
    if takes(toks, n, TokenKind::Begin) {
        block(
            body(
                toks,
                n + 1,
                c,
                Closer::BareEnd,
                if each { "unterminated FOR EACH BEGIN/END"@ } else { "unterminated FOR BEGIN/END"@ },
                true,
            ),
        )
    } else if takes(toks, n, TokenKind::LBrace) {
        block(
            body(
                toks,
                n + 1,
                c,
                Closer::Brace,
                if each { "unterminated FOR EACH { ... }"@ } else { "unterminated FOR { ... }"@ },
                true,
            ),
        )
    } else {
        lined(toks, n, stmt(toks, n, c))
    }
}

/// NEXT, an optional name, and an optional separator.
pub open spec fn next_clause(toks: Seq<TokenView>, p: int) -> Result<int, Seq<char>> {
    let q = skip_terms(toks, p);
    if !at_kind(toks, q, TokenKind::Next) {
        Err(expected(toks, q, TokenKind::Next))
    } else {
        Ok(opt_terminate(toks, if at_kind(toks, q + 1, TokenKind::Ident) { q + 2 } else { q + 1 }))
    }
}

/// FOR EACH var IN expr ... NEXT, or FOR var = start TO end [STEP step] ... NEXT.
pub open spec fn for_stmt(toks: Seq<TokenView>, k: int, c: nat) -> Result<(StmtView, int), Seq<char>>
    decreases toks.len() - k, 7int,
{
    if takes(toks, k, TokenKind::Each) {
        match ident(toks, k + 1) {
            Err(e) => Err(e),
            Ok((var, m)) => if !at_kind(toks, m, TokenKind::In) {
                Err(expected(toks, m, TokenKind::In))
            } else {
                match expr_bp(toks, m + 1, 0) {
                    Err(e) => Err(e),
                    Ok((enumerable, n)) => if !(k < n <= toks.len()) {
                        Err(seq![])
                    } else {
                        match loop_body(toks, n, c, true) {
                            Err(e) => Err(e),
                            Ok((b, p)) => match next_clause(toks, p) {
                                Err(e) => Err(e),
                                Ok(e) => Ok((StmtView::ForEach { var, enumerable, body: Box::new(b) }, e)),
                            },
                        }
                    },
                }
            },
        }
    } else {
        match ident(toks, k) {
            Err(e) => Err(e),
            Ok((var, m)) => if !at_kind(toks, m, TokenKind::Assign) {
                Err(expected(toks, m, TokenKind::Assign))
            } else {
                match expr_bp(toks, m + 1, 0) {
                    Err(e) => Err(e),
                    Ok((start, n)) => if !at_kind(toks, n, TokenKind::To) {
                        Err(expected(toks, n, TokenKind::To))
                    } else {
                        match expr_bp(toks, n + 1, 0) {
                            Err(e) => Err(e),
                            Ok((end, p)) => {
                                let st = if takes(toks, p, TokenKind::Step) {
                                    match expr_bp(toks, p + 1, 0) {
                                        Err(e) => Err(e),
                                        Ok((s, q)) => Ok((Some(s), q)),
                                    }
                                } else {
                                    Ok((None, p))
                                };
                                match st {
                                    Err(e) => Err(e),
                                    Ok((step, q)) => if !(k < q <= toks.len()) {
                                        Err(seq![])
                                    } else {
                                        match loop_body(toks, q, c, false) {
                                            Err(e) => Err(e),
                                            Ok((b, r)) => match next_clause(toks, r) {
                                                Err(e) => Err(e),
                                                Ok(e) => Ok(
                                                    (StmtView::For { var, start, end, step, body: Box::new(b) }, e),
                                                ),
                                            },
                                        }
                                    },
                                }
                            },
                        }
                    },
                }
            },
        }
    }
}

/// WITH target ... END WITH.
pub open spec fn with_stmt(toks: Seq<TokenView>, k: int, c: nat) -> Result<(StmtView, int), Seq<char>>
    decreases toks.len() - k, 7int,
{
    match expr_bp(toks, k, 0) {
        Err(e) => Err(e),
        Ok((target, m)) => if !(k < m <= toks.len()) {
            Err(seq![])
        } else {
            match body(toks, m, c, Closer::EndWith, "Expected 'END WITH' to terminate WITH block."@, false) {
                Err(e) => Err(e),
                Ok((b, n)) => Ok((StmtView::With { target, body: b }, n)),
            }
        },
    }
}

pub open spec fn try_msg() -> Seq<char> {
    "Expected 'END TRY' to terminate TRY block."@
}

/// The CATCH and FINALLY sections of a TRY from `i`, at most one of each, in any
/// order: the catch variable, the catch body and the finally body.
pub open spec fn try_sections(toks: Seq<TokenView>, i: int, c: nat, saw_catch: bool, saw_finally: bool) -> Result<
    ((Option<Seq<char>>, Option<Seq<StmtView>>, Option<Seq<StmtView>>), int),
    Seq<char>,
>
    decreases toks.len() - i, 4int,
{
    let j = skip_terms(toks, i);
    proof {
        lemma_skip_terms(toks, i);
    }
    if !(0 <= i <= toks.len()) {
        Err(seq![])
    } else if takes(toks, j, TokenKind::Catch) {
        if saw_catch {
            Err("Only one CATCH block is allowed per TRY."@)
        } else {
            let v = if at_kind(toks, j + 1, TokenKind::Ident) {
                if ends_with_char(toks[j + 1].lexeme, '$') {
                    Ok((Some(toks[j + 1].lexeme), j + 2))
                } else {
                    Err("CATCH variable must be a string (use '$' suffix)."@)
                }
            } else {
                Ok((None, j + 1))
            };
            match v {
                Err(e) => Err(e),
                Ok((var, k)) => match body(toks, k, c + 1, Closer::FinallyOrEnd, try_msg(), false) {
                    Err(e) => Err(e),
                    Ok((cb, m)) => if j < m <= toks.len() {
                        match try_sections(toks, m, c, true, saw_finally) {
                            Err(e) => Err(e),
                            Ok(((_, _, fb), e)) => Ok(((var, Some(cb), fb), e)),
                        }
                    } else {
                        Err(seq![])
                    },
                },
            }
        }
    } else if takes(toks, j, TokenKind::Finally) {
        if saw_finally {
            Err("Only one FINALLY block is allowed per TRY."@)
        } else {
            match body(toks, j + 1, c, Closer::CatchOrEnd, try_msg(), false) {
                Err(e) => Err(e),
                Ok((fb, m)) => if j < m <= toks.len() {
                    match try_sections(toks, m, c, saw_catch, true) {
                        Err(e) => Err(e),
                        Ok(((var, cb, _), e)) => Ok(((var, cb, Some(fb)), e)),
                    }
                } else {
                    Err(seq![])
                },
            }
        }
    } else {
        Ok(((None, None, None), j))
    }
}

/// TRY ... [CATCH [err$] ...] [FINALLY ...] END TRY.
pub open spec fn try_stmt(toks: Seq<TokenView>, k: int, c: nat) -> Result<(StmtView, int), Seq<char>>
    decreases toks.len() - k, 7int,
{
    match body(toks, k, c, Closer::TrySections, try_msg(), false) {
        Err(e) => Err(e),
        Ok((tb, m)) => if !(k <= m <= toks.len()) {
            Err(seq![])
        } else {
            match try_sections(toks, m, c, false, false) {
                Err(e) => Err(e),
                Ok(((var, cb, fb), n)) => if cb is None && fb is None {
                    Err("TRY must contain a CATCH or FINALLY block."@)
                } else if !at_kind(toks, n, TokenKind::End) {
                    Err(expected(toks, n, TokenKind::End))
                } else {
                    let p = skip_terms(toks, n + 1);
                    if !takes(toks, p, TokenKind::Try) {
                        Err(try_msg())
                    } else {
                        Ok(
                            (
                                StmtView::Try { try_body: tb, catch_var: var, catch_body: cb, finally_body: fb },
                                p + 1,
                            ),
                        )
                    }
                },
            }
        },
    }
}

/// The patterns of a CASE arm, separated by commas.
pub open spec fn case_patterns(toks: Seq<TokenView>, i: int) -> Result<(Seq<CasePatternView>, int), Seq<char>>
    decreases toks.len() - i,
{
    let one = if takes(toks, i, TokenKind::Is) {
        match compare_op_at(toks, i + 1) {
            None => Err("Use 'CASE IS <op> <expr>' with one comparator operator."@),
            Some(op) => match expr_bp(toks, i + 2, 0) {
                Err(e) => Err(e),
                Ok((rhs, k)) => Ok((CasePatternView::Compare { op, rhs }, k)),
            },
        }
    } else {
        match expr_bp(toks, i, 0) {
            Err(e) => Err(e),
            Ok((lo, k)) => if takes(toks, k, TokenKind::To) {
                match expr_bp(toks, k + 1, 0) {
                    Err(e) => Err(e),
                    Ok((hi, m)) => Ok((CasePatternView::Range { lo, hi }, m)),
                }
            } else {
                Ok((CasePatternView::Value(lo), k))
            },
        }
    };
    match one {
        Err(e) => Err(e),
        Ok((p, k)) => if i < k <= toks.len() {
            if takes(toks, k, TokenKind::Comma) {
                match case_patterns(toks, k + 1) {
                    Err(e) => Err(e),
                    Ok((rest, m)) => Ok((seq![p] + rest, m)),
                }
            } else {
                Ok((seq![p], k))
            }
        } else {
            Err(seq![])
        },
    }
}

pub open spec fn select_msg(brace: bool) -> Seq<char> {
    if brace {
        "Expected '}' to terminate SELECT CASE body."@
    } else {
        "Expected 'END' or 'END SELECT' to terminate SELECT CASE block."@
    }
}

/// The arms of a SELECT CASE from `i` (in braces or up to END [SELECT]), and its
/// CASE ELSE body.
pub open spec fn select_arms(toks: Seq<TokenView>, i: int, c: nat, brace: bool, saw_else: bool) -> Result<
    ((Seq<CaseArmView>, Option<Seq<StmtView>>), int),
    Seq<char>,
>
    decreases toks.len() - i, 7int,
{
    let j = skip_terms(toks, i);
    proof {
        lemma_skip_terms(toks, i);
    }
    if !(0 <= i <= toks.len()) {
        Err(seq![])
    } else if brace && at_kind(toks, j, TokenKind::RBrace) {
        Ok(((seq![], None), j + 1))
    } else if !brace && at_kind(toks, j, TokenKind::End) {
        Ok(((seq![], None), if at_kind(toks, j + 1, TokenKind::Select) { j + 2 } else { j + 1 }))
    } else if at_kind(toks, j, TokenKind::Eof) {
        Err(select_msg(brace))
    } else if takes(toks, j, TokenKind::Case) {
        select_case(toks, j + 1, c, brace, saw_else)
    } else if brace {
        Err("Expected 'CASE' or '}' inside SELECT CASE."@)
    } else {
        Err(select_msg(false))
    }
}

/// One CASE arm after CASE: its patterns, then its body.
pub open spec fn case_arm(toks: Seq<TokenView>, i: int, c: nat, brace: bool) -> Result<(CaseArmView, int), Seq<char>>
    decreases toks.len() - i, 7int,
{
    match case_patterns(toks, i) {
        Err(e) => Err(e),
        Ok((pats, k)) => if i < k <= toks.len() {
            match body(toks, k, c, if brace { Closer::CaseOrBrace } else { Closer::EndOrCase }, select_msg(brace), false) {
                Err(e) => Err(e),
                Ok((b, m)) => Ok((CaseArmView { patterns: pats, body: b }, m)),
            }
        } else {
            Err(seq![])
        },
    }
}

/// What follows CASE: the CASE ELSE body or one arm, then the other arms.
pub open spec fn select_case(toks: Seq<TokenView>, k: int, c: nat, brace: bool, saw_else: bool) -> Result<
    ((Seq<CaseArmView>, Option<Seq<StmtView>>), int),
    Seq<char>,
>
    decreases toks.len() - k, 8int,
{
    if takes(toks, k, TokenKind::Else) {
        if saw_else {
            Err("Only one CASE ELSE is allowed."@)
        } else {
            match body(
                toks,
                k + 1,
                c,
                if brace { Closer::CaseOrBrace } else { Closer::EndOrCase },
                select_msg(brace),
                false,
            ) {
                Err(e) => Err(e),
                Ok((b, m)) => if k < m <= toks.len() {
                    match select_arms(toks, m, c, brace, true) {
                        Err(e) => Err(e),
                        Ok(((arms, _), e)) => Ok(((arms, Some(b)), e)),
                    }
                } else {
                    Err(seq![])
                },
            }
        }
    } else {
        match case_arm(toks, k, c, brace) {
            Err(e) => Err(e),
            Ok((arm, m)) => if k < m <= toks.len() {
                match select_arms(toks, m, c, brace, saw_else) {
                    Err(e) => Err(e),
                    Ok(((arms, eb), e)) => Ok(((seq![arm] + arms, eb), e)),
                }
            } else {
                Err(seq![])
            },
        }
    }
}

/// SELECT CASE selector, then its arms in braces or up to END [SELECT].
pub open spec fn select_stmt(toks: Seq<TokenView>, k: int, c: nat) -> Result<(StmtView, int), Seq<char>>
    decreases toks.len() - k, 7int,
{
    if !at_kind(toks, k, TokenKind::Case) {
        Err(expected(toks, k, TokenKind::Case))
    } else {
        match expr_bp(toks, k + 1, 0) {
            Err(e) => Err(e),
            Ok((selector, m)) => {
                let m1 = skip_terms(toks, m);
                if !(k < m <= m1 <= toks.len()) {
                    Err(seq![])
                } else {
                    let arms = if takes(toks, m1, TokenKind::LBrace) {
                        select_arms(toks, m1 + 1, c, true, false)
                    } else {
                        select_arms(toks, m1, c, false, false)
                    };
                    match arms {
                        Err(e) => Err(e),
                        Ok(((arms, else_body), e)) => Ok((StmtView::SelectCase { selector, arms, else_body }, e)),
                    }
                }
            },
        }
    }
}

/// Identifiers separated by commas.
pub open spec fn param_items(toks: Seq<TokenView>, i: int) -> Result<(Seq<Seq<char>>, int), Seq<char>>
    decreases toks.len() - i,
{
    match ident(toks, i) {
        Err(e) => Err(e),
        Ok((n, k)) => if takes(toks, k, TokenKind::Comma) && i < k < toks.len() {
            match param_items(toks, k + 1) {
                Err(e) => Err(e),
                Ok((rest, m)) => Ok((seq![n] + rest, m)),
            }
        } else {
            Ok((seq![n], k))
        },
    }
}

/// The parameters of a routine after its `(`, through the `)`.
pub open spec fn params(toks: Seq<TokenView>, i: int) -> Result<(Seq<Seq<char>>, int), Seq<char>> {
    if at_kind(toks, i, TokenKind::RParen) {
        Ok((seq![], i + 1))
    } else {
        match param_items(toks, i) {
            Err(e) => Err(e),
            Ok((ps, k)) => if at_kind(toks, k, TokenKind::RParen) {
                Ok((ps, k + 1))
            } else {
                Err(expected(toks, k, TokenKind::RParen))
            },
        }
    }
}

/// FUNC or SUB name(params), then a body in braces, BEGIN ... END, or up to END [FUNC].
pub open spec fn func_stmt(toks: Seq<TokenView>, k: int, c: nat, kind: FuncKind) -> Result<(StmtView, int), Seq<char>>
    decreases toks.len() - k, 7int,
{
    match ident(toks, k) {
        Err(e) => Err(e),
        Ok((name, m)) => if !at_kind(toks, m, TokenKind::LParen) {
            Err(expected(toks, m, TokenKind::LParen))
        } else {
            match params(toks, m + 1) {
                Err(e) => Err(e),
                Ok((ps, n)) => {
                    let n1 = skip_terms(toks, n);
                    if !(k < n <= n1 <= toks.len()) {
                        Err(seq![])
                    } else {
                        let b = if takes(toks, n1, TokenKind::LBrace) {
                            body(toks, n1 + 1, c, Closer::Brace, "unterminated function body: expected '}'"@, true)
                        } else if takes(toks, n1, TokenKind::Begin) {
                            body(toks, n1 + 1, c, Closer::BeginEnd, "unterminated function body: expected 'END'"@, true)
                        } else {
                            body(toks, n1, c, Closer::FuncEnd, "unterminated function body"@, true)
                        };
                        match b {
                            Err(e) => Err(e),
                            Ok((b, e)) => Ok((StmtView::Func { kind, name, params: ps, body: b }, e)),
                        }
                    }
                },
            }
        },
    }
}

/// One field of a TYPE after its DIM: a name and a kind, from AS or from the name's
/// suffix; then any separators.
pub open spec fn struct_field(toks: Seq<TokenView>, i: int) -> Result<(FieldView, int), Seq<char>> {
    match ident(toks, i) {
        Err(e) => Err(e),
        Ok((fname, k)) => if takes(toks, k, TokenKind::LParen) {
            Err(error_at(toks, k + 1, "array fields in TYPE not supported yet"@))
        } else {
            let kind = if takes(toks, k, TokenKind::As) {
                if at_kind(toks, k + 1, TokenKind::Ident) {
                    if eq_ignore_case(toks[k + 1].lexeme, "STRING"@) {
                        if takes(toks, k + 2, TokenKind::Star) {
                            if at_kind(toks, k + 3, TokenKind::Number) {
                                Ok((FieldKindView::FixedString(count_at(toks, k + 3)), k + 4))
                            } else {
                                Err(expected(toks, k + 3, TokenKind::Number))
                            }
                        } else {
                            Ok((FieldKindView::VarString, k + 2))
                        }
                    } else {
                        Ok((FieldKindView::Struct(toks[k + 1].lexeme), k + 2))
                    }
                } else if takes(toks, k + 1, TokenKind::Type) {
                    match ident(toks, k + 2) {
                        Err(e) => Err(e),
                        Ok((t, m)) => Ok((FieldKindView::Struct(t), m)),
                    }
                } else {
                    Err(error_at(toks, k + 1, "expected type after AS"@))
                }
            } else if ends_with_char(fname, '%') {
                Ok((FieldKindView::Int32, k))
            } else if ends_with_char(fname, '$') {
                Ok((FieldKindView::VarString, k))
            } else {
                Ok((FieldKindView::Float64, k))
            };
            match kind {
                Err(e) => Err(e),
                Ok((kd, m)) => Ok((FieldView { name: fname, kind: kd }, skip_terms(toks, m))),
            }
        },
    }
}

/// The fields of a TYPE from `i`, up to `}` or END TYPE.
pub open spec fn type_fields(toks: Seq<TokenView>, i: int, brace: bool) -> Result<(Seq<FieldView>, int), Seq<char>>
    decreases toks.len() - i,
{
    let j = skip_terms(toks, i);
    proof {
        lemma_skip_terms(toks, i);
    }
    if !(0 <= i <= toks.len()) {
        Err(seq![])
    } else if brace && at_kind(toks, j, TokenKind::RBrace) {
        Ok((seq![], j + 1))
    } else if !brace && at_kind(toks, j, TokenKind::End) {
        if takes(toks, j + 1, TokenKind::Type) {
            Ok((seq![], j + 2))
        } else {
            Err(error_at(toks, j + 1, "expected 'END TYPE'"@))
        }
    } else if at_kind(toks, j, TokenKind::Eof) {
        Err(error_at(toks, j, if brace { "unterminated TYPE { ... }"@ } else { "unterminated TYPE ... END TYPE"@ }))
    } else if !takes(toks, j, TokenKind::Dim) {
        Err(error_at(toks, j, "expected DIM in TYPE body"@))
    } else {
        match struct_field(toks, j + 1) {
            Err(e) => Err(e),
            Ok((f, k)) => if j < k <= toks.len() {
                match type_fields(toks, k, brace) {
                    Err(e) => Err(e),
                    Ok((rest, m)) => Ok((seq![f] + rest, m)),
                }
            } else {
                Err(seq![])
            },
        }
    }
}

/// TYPE name { DIM ... } or TYPE name DIM ... END TYPE, and an optional separator.
pub open spec fn type_stmt(toks: Seq<TokenView>, k: int) -> Result<(StmtView, int), Seq<char>> {
    match ident(toks, k) {
        Err(e) => Err(e),
        Ok((name, m)) => {
            let fs = if takes(toks, m, TokenKind::LBrace) {
                type_fields(toks, m + 1, true)
            } else {
                type_fields(toks, m, false)
            };
            match fs {
                Err(e) => Err(e),
                Ok((fields, n)) => Ok((StmtView::TypeDef { name, fields }, opt_terminate(toks, n))),
            }
        },
    }
}

/// DIM name$[N], after the `[`.
pub open spec fn dim_bracket(toks: Seq<TokenView>, n: int, name: Seq<char>) -> Result<(StmtView, int), Seq<char>> {
    if !at_kind(toks, n, TokenKind::Number) {
        Err(expected(toks, n, TokenKind::Number))
    } else if !at_kind(toks, n + 1, TokenKind::RBracket) {
        Err(expected(toks, n + 1, TokenKind::RBracket))
    } else {
        finish(toks, n + 2, StmtView::DimFixedStr { name, len: count_at(toks, n) })
    }
}

/// DIM name(dims) [AS Type], after the `(`.
pub open spec fn dim_paren(toks: Seq<TokenView>, n: int, name: Seq<char>) -> Result<(StmtView, int), Seq<char>> {
    match call_args(toks, n) {
        Err(e) => Err(e),
        Ok((dims, p)) => if takes(toks, p, TokenKind::As) {
            match ident(toks, p + 1) {
                Err(e) => Err(e),
                Ok((t, q)) => finish(toks, q, StmtView::DimObjectArray { name, dims, type_label: Some(t) }),
            }
        } else if ends_with_char(name, '@') {
            finish(toks, p, StmtView::DimObjectArray { name, dims, type_label: None })
        } else {
            finish(toks, p, StmtView::Dim { name, dims })
        },
    }
}

/// DIM name AS CLASS(f), AS STRING * N, AS TYPE T, or AS T [(args)], after AS.
pub open spec fn dim_as(toks: Seq<TokenView>, n: int, name: Seq<char>) -> Result<(StmtView, int), Seq<char>> {
    if takes(toks, n, TokenKind::Class) {
        if !at_kind(toks, n + 1, TokenKind::LParen) {
            Err(expected(toks, n + 1, TokenKind::LParen))
        } else {
            match expr_bp(toks, n + 2, 0) {
                Err(e) => Err(e),
                Ok((f, p)) => if !at_kind(toks, p, TokenKind::RParen) {
                    Err(expected(toks, p, TokenKind::RParen))
                } else {
                    finish(
                        toks,
                        p + 1,
                        StmtView::Let { name, indices: None, init: ExprView::NewClass { filename: Box::new(f) } },
                    )
                },
            }
        }
    } else if at_kind(toks, n, TokenKind::Ident) && eq_ignore_case(toks[n].lexeme, "STRING"@) {
        if takes(toks, n + 1, TokenKind::Star) {
            if !at_kind(toks, n + 2, TokenKind::Number) {
                Err(expected(toks, n + 2, TokenKind::Number))
            } else {
                finish(toks, n + 3, StmtView::DimFixedStr { name, len: count_at(toks, n + 2) })
            }
        } else {
            Err(error_at(toks, n + 1, "expected '*' and length after STRING"@))
        }
    } else if takes(toks, n, TokenKind::Type) {
        match ident(toks, n + 1) {
            Err(e) => Err(e),
            Ok((t, p)) => finish(toks, p, StmtView::DimObject { name, type_label: t, args: seq![] }),
        }
    } else {
        match ident(toks, n) {
            Err(e) => Err(e),
            Ok((t, p)) => if takes(toks, p, TokenKind::LParen) {
                match call_args(toks, p + 1) {
                    Err(e) => Err(e),
                    Ok((args, q)) => finish(toks, q, StmtView::DimObject { name, type_label: t, args }),
                }
            } else {
                finish(toks, p, StmtView::DimObject { name, type_label: t, args: seq![] })
            },
        }
    }
}

/// DIM name = expr, after the `=`: a list for a number or string array becomes the
/// DIM of the array and an assignment per item.
pub open spec fn dim_assign(toks: Seq<TokenView>, n: int, name: Seq<char>) -> Result<(StmtView, int), Seq<char>> {
    match expr_bp(toks, n, 0) {
        Err(e) => Err(e),
        Ok((init, p)) => match terminate(toks, p) {
            Err(e) => Err(e),
            Ok(e) => match init {
                ExprView::List(items) => if ends_with_char(name, '%') || ends_with_char(name, '$') {
                    Ok((StmtView::Block(dim_list(name, items)), e))
                } else {
                    Ok((StmtView::Let { name, indices: None, init: ExprView::List(items) }, e))
                },
                other => Ok((StmtView::Let { name, indices: None, init: other }, e)),
            },
        },
    }
}

/// The forms of DIM.
pub open spec fn dim_stmt(toks: Seq<TokenView>, k: int) -> Result<(StmtView, int), Seq<char>> {
    match ident(toks, k) {
        Err(e) => Err(e),
        Ok((name, m)) => if ends_with_char(name, '$') && takes(toks, m, TokenKind::LBracket) {
            dim_bracket(toks, m + 1, name)
        } else if takes(toks, m, TokenKind::LParen) {
            dim_paren(toks, m + 1, name)
        } else if takes(toks, m, TokenKind::As) {
            dim_as(toks, m + 1, name)
        } else if takes(toks, m, TokenKind::Assign) {
            dim_assign(toks, m + 1, name)
        } else {
            Err(error_at(toks, m, "expected '(' or AS after DIM name"@))
        }
    }
}

/// What a source text parses to: the statements of its tokens, or the first error of
/// the lexer or the parser.
pub open spec fn parsed(src: Seq<char>) -> Result<Seq<StmtView>, Seq<char>> {
    match tokens_of(src) {
        Err(m) => Err(m),
        Ok(ts) => program(ts),
    }
}

/// A program: its statements up to the end of input, each after a line marker.
pub open spec fn program(toks: Seq<TokenView>) -> Result<Seq<StmtView>, Seq<char>> {
    match body(toks, 0, 0, Closer::Input, ""@, false) {
        Ok((b, _)) => Ok(b),
        Err(e) => Err(e),
    }
}

} // verus!

verus! {

broadcast use Parser::lemma_pos_nonneg, Parser::lemma_wf_pos;

// ---------------------------------------------------------------------
// The statement parser

/// What a parse of a statement gives back, against its statement.
pub open spec fn stmt_result(s: Result<(StmtView, int), Seq<char>>, r: Result<Stmt, BasilError>, end: int) -> bool {
    match s {
        Ok((v, j)) => r matches Ok(x) && stmt_view(x) == v && end == j,
        Err(m) => r matches Err(x) && x.0@ == m,
    }
}

/// Whether the last character of `s` is `c`.
fn str_ends_with(s: &str, c: char) -> (b: bool)
    ensures
        b == ends_with_char(s@, c),
{
    let v = chars_of(s);
    v.len() > 0 && v[v.len() - 1] == c
}

/// The count a numeral stands for: its whole part, at most `usize::MAX`.
fn numeral_count_of(s: &str) -> (n: usize)
    ensures
        n == numeral_count(s@),
{
    let v = chars_of(s);
    let ghost t = s@;
    let mut k: usize = 0;
    let mut acc: usize = 0;
    while k < v.len() && '0' <= v[k] && v[k] <= '9'
        invariant
            v@ == t,
            k <= v.len(),
            forall|q: int| 0 <= q < k ==> '0' <= #[trigger] t[q] <= '9',
            acc == (if digits_value(t.take(k as int)) > usize::MAX { usize::MAX as nat } else { digits_value(
                t.take(k as int),
            ) }),
        decreases v.len() - k,
    {
        let d: usize = ((v[k] as u32) - 48) as usize;
        let ghost before = digits_value(t.take(k as int));
        assert(t.take(k + 1).drop_last() =~= t.take(k as int));
        assert(digits_value(t.take(k + 1)) == before * 10 + d);
        if acc > (usize::MAX - d) / 10 {
            acc = usize::MAX;
        } else {
            acc = acc * 10 + d;
        }
        k = k + 1;
    }
    proof {
        lemma_leading_digits(t, k as int);
    }
    acc
}

/// The run of digits that ends at `k` (not a digit, or the end) is the leading run.
proof fn lemma_leading_digits(t: Seq<char>, k: int)
    requires
        0 <= k <= t.len(),
        forall|q: int| 0 <= q < k ==> '0' <= #[trigger] t[q] <= '9',
        k == t.len() || !('0' <= t[k] <= '9'),
    ensures
        leading_digits(t) == k,
    decreases k,
{
    if k > 0 {
        let u = t.drop_first();
        assert forall|q: int| 0 <= q < k - 1 implies '0' <= #[trigger] u[q] <= '9' by {
            assert(u[q] == t[q + 1]);
        }
        if k - 1 < u.len() {
            assert(u[k - 1] == t[k]);
        }
        lemma_leading_digits(u, k - 1);
    }
}

pub open spec fn prepend_body(pre: Seq<StmtView>, r: Result<(Seq<StmtView>, int), Seq<char>>) -> Result<
    (Seq<StmtView>, int),
    Seq<char>,
> {
    match r {
        Ok((b, k)) => Ok((pre + b, k)),
        Err(e) => Err(e),
    }
}

impl Parser {
    fn skip_terms_here(&mut self)
        requires
            old(self).wf(),
        ensures
            final(self).wf(),
            final(self).toks() == old(self).toks(),
            final(self).pos() == skip_terms(old(self).toks(), old(self).pos()),
    {
        let ghost t = self.toks();
        let ghost p0 = self.pos();
        loop
            invariant
                self.wf(),
                self.toks() == t,
                t == old(self).toks(),
                p0 == old(self).pos(),
                p0 <= self.pos(),
                skip_terms(t, p0) == skip_terms(t, self.pos()),
            decreases t.len() - self.pos(),
        {
            if !self.match_k(TokenKind::Semicolon) {
                return;
            }
        }
    }

    /// The end of a statement: `;` or `:` (taken), or the end of input.
    fn terminate_stmt(&mut self) -> (r: Result<(), BasilError>)
        requires
            old(self).wf(),
        ensures
            final(self).wf(),
            final(self).toks() == old(self).toks(),
            match terminate(old(self).toks(), old(self).pos()) {
                Ok(e) => r is Ok && final(self).pos() == e,
                Err(m) => r matches Err(x) && x.0@ == m,
            },
    {
        if self.match_k(TokenKind::Semicolon) {
            return Ok(());
        }
        if self.check(TokenKind::Eof) {
            return Ok(());
        }
        Err(self.error_here("expected Semicolon or Colon"))
    }

    fn opt_terminate_here(&mut self)
        requires
            old(self).wf(),
        ensures
            final(self).wf(),
            final(self).toks() == old(self).toks(),
            final(self).pos() == opt_terminate(old(self).toks(), old(self).pos()),
    {
        let _ = self.match_k(TokenKind::Semicolon);
    }

    /// `s`, once the statement ends.
    fn finish_with(&mut self, s: Stmt) -> (r: Result<Stmt, BasilError>)
        requires
            old(self).wf(),
        ensures
            final(self).wf(),
            final(self).toks() == old(self).toks(),
            stmt_result(finish(old(self).toks(), old(self).pos(), stmt_view(s)), r, final(self).pos()),
            r is Ok ==> old(self).pos() <= final(self).pos(),
    {
        match self.terminate_stmt() {
            Ok(()) => Ok(s),
            Err(e) => Err(e),
        }
    }

    fn end_suffix_here(&mut self)
        requires
            old(self).wf(),
        ensures
            final(self).wf(),
            final(self).toks() == old(self).toks(),
            final(self).pos() == end_suffix(old(self).toks(), old(self).pos()),
    {
        match self.peek_kind() {
            Some(TokenKind::If) | Some(TokenKind::Func) | Some(TokenKind::While) => self.next(),
            Some(TokenKind::Ident) => {
                let l = self.lexeme_here();
                if eq_ignore_case_str(l.as_str(), "BLOCK") {
                    self.next();
                }
            },
            _ => {},
        }
    }

    /// END and its optional suffix word.
    fn end_any_here(&mut self) -> (r: Result<(), BasilError>)
        requires
            old(self).wf(),
        ensures
            final(self).wf(),
            final(self).toks() == old(self).toks(),
            match end_any(old(self).toks(), old(self).pos()) {
                Ok(e) => r is Ok && final(self).pos() == e,
                Err(m) => r matches Err(x) && x.0@ == m,
            },
    {
        if self.check(TokenKind::End) {
            self.next();
            self.end_suffix_here();
            Ok(())
        } else {
            Err(self.expected_here(TokenKind::End))
        }
    }

    fn expect_ident(&mut self) -> (r: Result<String, BasilError>)
        requires
            old(self).wf(),
        ensures
            final(self).wf(),
            final(self).toks() == old(self).toks(),
            match ident(old(self).toks(), old(self).pos()) {
                Ok((n, j)) => r matches Ok(s) && s@ == n && final(self).pos() == j,
                Err(m) => r matches Err(e) && e.0@ == m,
            },
    {
        if self.check(TokenKind::Ident) {
            let n = self.lexeme_here();
            self.next();
            Ok(n)
        } else {
            Err(self.error_here("expected identifier"))
        }
    }

    /// The count written by the number token here.
    fn count_here(&self) -> (n: usize)
        requires
            self.wf(),
            self.pos() < self.toks().len(),
        ensures
            n == count_at(self.toks(), self.pos()),
    {
        let o = self.numeral_here();
        match o {
            Some(t) => {
                let n = numeral_count_of(t.as_str());
                proof {
                    if let Some(LitView::Num(x)) = self.toks()[self.pos()].literal {
                        assert(x == t@);
                    }
                }
                n
            },
            None => 0,
        }
    }

    /// Whether a body closes here, taking the closing tokens.
    fn closes_here(&mut self, cl: Closer) -> (r: Option<Result<(), BasilError>>)
        requires
            old(self).wf(),
        ensures
            final(self).wf(),
            final(self).toks() == old(self).toks(),
            match closes(old(self).toks(), old(self).pos(), cl) {
                Some(Ok(k)) => r matches Some(Ok(_)) && final(self).pos() == k,
                Some(Err(m)) => r matches Some(Err(e)) && e.0@ == m,
                None => r is None && final(self).pos() == old(self).pos(),
            },
    {
        match cl {
            Closer::Brace => if self.check(TokenKind::RBrace) {
                self.next();
                Some(Ok(()))
            } else {
                None
            },
            Closer::BeginEnd => if self.check(TokenKind::End) {
                self.next();
                self.end_suffix_here();
                Some(Ok(()))
            } else {
                None
            },
            Closer::BareEnd => if self.check(TokenKind::End) {
                self.next();
                Some(Ok(()))
            } else {
                None
            },
            Closer::EndWith => if self.check(TokenKind::End) {
                self.next();
                if self.check(TokenKind::With) {
                    self.next();
                    Some(Ok(()))
                } else {
                    Some(Err(BasilError(string_of("Expected 'END WITH' to terminate WITH block."))))
                }
            } else {
                None
            },
            Closer::FuncEnd => if self.check(TokenKind::End) {
                self.next();
                if self.check(TokenKind::Func) {
                    self.next();
                }
                Some(Ok(()))
            } else {
                None
            },
            Closer::ElseOrEnd => if self.check(TokenKind::Else) || self.check(TokenKind::End) {
                Some(Ok(()))
            } else {
                None
            },
            Closer::EndOrCase => if self.check(TokenKind::End) || self.check(TokenKind::Case) {
                Some(Ok(()))
            } else {
                None
            },
            Closer::CaseOrBrace => if self.check(TokenKind::RBrace) || self.check(TokenKind::Case) {
                Some(Ok(()))
            } else {
                None
            },
            Closer::TrySections => if self.check(TokenKind::Catch) || self.check(TokenKind::Finally) || self.check(
                TokenKind::End,
            ) {
                Some(Ok(()))
            } else {
                None
            },
            Closer::FinallyOrEnd => if self.check(TokenKind::Finally) || self.check(TokenKind::End) {
                Some(Ok(()))
            } else {
                None
            },
            Closer::CatchOrEnd => if self.check(TokenKind::Catch) || self.check(TokenKind::End) {
                Some(Ok(()))
            } else {
                None
            },
            Closer::Input => if self.check(TokenKind::Eof) {
                Some(Ok(()))
            } else {
                None
            },
        }
    }
}

} // verus!

verus! {

fn is_zero_arg_command(u: &str) -> (b: bool)
    ensures
        b == zero_arg_command(u@),
{
    str_eq(u, "CLS") || str_eq(u, "CLEAR") || str_eq(u, "HOME") || str_eq(u, "COLOR_RESET") || str_eq(
        u,
        "ATTR_RESET",
    ) || str_eq(u, "CURSOR_SAVE") || str_eq(u, "CURSOR_RESTORE") || str_eq(u, "CURSOR_HIDE") || str_eq(
        u,
        "CURSOR_SHOW",
    )
}

fn count_expr(n: u64) -> (e: Expr)
    ensures
        expr_view(e) == count_number(n as nat),
{
    Expr::Number(decimal_string(n))
}

/// The statements of `DIM name = [items]` for an array of numbers or strings.
fn dim_list_stmts(name: &String, items: Vec<Expr>) -> (r: Vec<Stmt>)
    ensures
        stmts_view(r@) == dim_list(name@, exprs_view(items@)),
{
    let ghost all = items@;
    proof {
        crate::ast::lemma_exprs_view_index(all);
    }
    let n = items.len();
    let mut items = items;
    let mut out: Vec<Stmt> = Vec::new();
    let mut dims: Vec<Expr> = Vec::new();
    dims.push(count_expr(n as u64));
    proof {
        lemma_exprs_view_push(Seq::<Expr>::empty(), dims@[0]);
        assert(Seq::<Expr>::empty().push(dims@[0]) =~= dims@);
    }
    out.push(Stmt::Dim { name: name.clone(), dims });
    proof {
        crate::ast::lemma_stmts_view_push(Seq::<Stmt>::empty(), out@[0]);
        assert(Seq::<Stmt>::empty().push(out@[0]) =~= out@);
    }
    let ghost want = dim_list(name@, exprs_view(all));
    let mut k: usize = 0;
    while k < n
        invariant
            k <= n,
            n == all.len(),
            items@ == all.skip(k as int),
            exprs_view(all).len() == all.len(),
            forall|q: int| 0 <= q < all.len() ==> #[trigger] exprs_view(all)[q] == expr_view(all[q]),
            want == dim_list(name@, exprs_view(all)),
            stmts_view(out@) == want.take(k + 1),
        decreases n - k,
    {
        let it = items.remove(0);
        assert(it == all[k as int]);
        let mut idx: Vec<Expr> = Vec::new();
        idx.push(count_expr(k as u64 + 1));
        proof {
            lemma_exprs_view_push(Seq::<Expr>::empty(), idx@[0]);
            assert(Seq::<Expr>::empty().push(idx@[0]) =~= idx@);
        }
        let st = Stmt::Let { name: name.clone(), indices: Some(idx), init: it };
        let ghost before = out@;
        out.push(st);
        proof {
            crate::ast::lemma_stmts_view_push(before, st);
            assert(want[k + 1] == stmt_view(st));
            assert(want.take(k + 2) =~= want.take(k + 1).push(want[k + 1]));
            assert(items@ =~= all.skip(k + 1));
        }
        k = k + 1;
    }
    assert(want.take(n + 1) =~= want);
    out
}

impl Parser {
    /// LABEL name, or a label in its colon form.
    fn parse_label(&mut self) -> (r: Result<Stmt, BasilError>)
        requires
            old(self).wf(),
            old(self).pos() < old(self).toks().len(),
        ensures
            final(self).wf(),
            final(self).toks() == old(self).toks(),
            stmt_result(label_stmt(old(self).toks(), old(self).pos()), r, final(self).pos()),
            r is Ok ==> old(self).pos() < final(self).pos(),
    {
        let own = self.lexeme_here();
        self.next();
        if self.check(TokenKind::Ident) {
            let n = self.lexeme_here();
            self.next();
            self.finish_with(Stmt::Label(n))
        } else {
            self.finish_with(Stmt::Label(own))
        }
    }

    /// GOTO name or GOSUB name, after the keyword.
    fn parse_jump(&mut self, gosub: bool) -> (r: Result<Stmt, BasilError>)
        requires
            old(self).wf(),
        ensures
            final(self).wf(),
            final(self).toks() == old(self).toks(),
            match ident(old(self).toks(), old(self).pos()) {
                Err(e) => r matches Err(x) && x.0@ == e,
                Ok((name, k)) => stmt_result(
                    finish(old(self).toks(), k, if gosub { StmtView::Gosub(name) } else { StmtView::Goto(name) }),
                    r,
                    final(self).pos(),
                ),
            },
            r is Ok ==> old(self).pos() <= final(self).pos(),
    {
        let name = match self.expect_ident() {
            Ok(n) => n,
            Err(e) => return Err(e),
        };
        if gosub {
            self.finish_with(Stmt::Gosub(name))
        } else {
            self.finish_with(Stmt::Goto(name))
        }
    }

    fn parse_setenv(&mut self, export: bool) -> (r: Result<Stmt, BasilError>)
        requires
            old(self).wf(),
        ensures
            final(self).wf(),
            final(self).toks() == old(self).toks(),
            stmt_result(setenv_stmt(old(self).toks(), old(self).pos(), export), r, final(self).pos()),
            r is Ok ==> old(self).pos() <= final(self).pos(),
    {
        let name = match self.expect_ident() {
            Ok(n) => n,
            Err(e) => return Err(e),
        };
        match self.expect(TokenKind::Assign) {
            Ok(()) => {},
            Err(e) => return Err(e),
        }
        let value = match self.parse_expr_bp(0) {
            Ok(v) => v,
            Err(e) => return Err(e),
        };
        self.finish_with(Stmt::SetEnv { name, value, export })
    }

    /// One expression statement keyword (SHELL, DESCRIBE) and its expression.
    fn parse_expr_then(&mut self, describe: bool) -> (r: Result<Stmt, BasilError>)
        requires
            old(self).wf(),
        ensures
            final(self).wf(),
            final(self).toks() == old(self).toks(),
            match expr_bp(old(self).toks(), old(self).pos(), 0) {
                Err(e) => r matches Err(x) && x.0@ == e,
                Ok((v, k)) => stmt_result(
                    finish(
                        old(self).toks(),
                        k,
                        if describe { StmtView::Describe { target: v } } else { StmtView::Shell { cmd: v } },
                    ),
                    r,
                    final(self).pos(),
                ),
            },
            r is Ok ==> old(self).pos() <= final(self).pos(),
    {
        let v = match self.parse_expr_bp(0) {
            Ok(v) => v,
            Err(e) => return Err(e),
        };
        if describe {
            self.finish_with(Stmt::Describe { target: v })
        } else {
            self.finish_with(Stmt::Shell { cmd: v })
        }
    }

    fn parse_opt_operand(&mut self) -> (r: Result<Option<Expr>, BasilError>)
        requires
            old(self).wf(),
        ensures
            final(self).wf(),
            final(self).toks() == old(self).toks(),
            match opt_operand(old(self).toks(), old(self).pos()) {
                Ok((e, m)) => r matches Ok(x) && opt_expr_view(x) == e && final(self).pos() == m,
                Err(msg) => r matches Err(x) && x.0@ == msg,
            },
            r is Ok ==> old(self).pos() <= final(self).pos(),
    {
        if self.check(TokenKind::Semicolon) || self.check(TokenKind::Eof) {
            Ok(None)
        } else {
            match self.parse_expr_bp(0) {
                Ok(e) => Ok(Some(e)),
                Err(e) => Err(e),
            }
        }
    }

    fn parse_exit(&mut self) -> (r: Result<Stmt, BasilError>)
        requires
            old(self).wf(),
        ensures
            final(self).wf(),
            final(self).toks() == old(self).toks(),
            match opt_operand(old(self).toks(), old(self).pos()) {
                Err(e) => r matches Err(x) && x.0@ == e,
                Ok((e, k)) => stmt_result(finish(old(self).toks(), k, StmtView::Exit(e)), r, final(self).pos()),
            },
            r is Ok ==> old(self).pos() <= final(self).pos(),
    {
        let e = match self.parse_opt_operand() {
            Ok(e) => e,
            Err(e) => return Err(e),
        };
        self.finish_with(Stmt::Exit(e))
    }

    fn parse_raise(&mut self, c: usize) -> (r: Result<Stmt, BasilError>)
        requires
            old(self).wf(),
        ensures
            final(self).wf(),
            final(self).toks() == old(self).toks(),
            stmt_result(raise_stmt(old(self).toks(), old(self).pos(), c as nat), r, final(self).pos()),
            r is Ok ==> old(self).pos() <= final(self).pos(),
    {
        let e = match self.parse_opt_operand() {
            Ok(e) => e,
            Err(e) => return Err(e),
        };
        if e.is_none() && c == 0 {
            return Err(BasilError(string_of("RAISE without an expression is only valid inside CATCH.")));
        }
        self.finish_with(Stmt::Raise(e))
    }

    fn parse_print_rest(&mut self, acc: Expr) -> (r: Result<Expr, BasilError>)
        requires
            old(self).wf(),
        ensures
            final(self).wf(),
            final(self).toks() == old(self).toks(),
            expr_result(print_rest(old(self).toks(), old(self).pos(), expr_view(acc)), r, final(self).pos()),
            r is Ok ==> old(self).pos() <= final(self).pos(),
        decreases old(self).toks().len() - old(self).pos(),
    {
        if self.match_k(TokenKind::Comma) {
            let next = match self.parse_expr_bp(0) {
                Ok(e) => e,
                Err(e) => return Err(e),
            };
            let ghost av = expr_view(acc);
            let tstr = Expr::Str(string_of("\t"));
            assert(expr_view(tstr) == ExprView::Str("\t"@));
            let tab = Expr::Binary { op: BinOp::Add, lhs: Box::new(acc), rhs: Box::new(tstr) };
            assert(expr_view(tab) == ExprView::Binary {
                op: BinOp::Add,
                lhs: Box::new(av),
                rhs: Box::new(ExprView::Str("\t"@)),
            });
            self.parse_print_rest(Expr::Binary { op: BinOp::Add, lhs: Box::new(tab), rhs: Box::new(next) })
        } else {
            Ok(acc)
        }
    }

    fn parse_print(&mut self, newline: bool) -> (r: Result<Stmt, BasilError>)
        requires
            old(self).wf(),
        ensures
            final(self).wf(),
            final(self).toks() == old(self).toks(),
            stmt_result(print_stmt(old(self).toks(), old(self).pos(), newline), r, final(self).pos()),
            r is Ok ==> old(self).pos() <= final(self).pos(),
    {
        let first = match self.parse_expr_bp(0) {
            Ok(e) => e,
            Err(e) => return Err(e),
        };
        let e = match self.parse_print_rest(first) {
            Ok(e) => e,
            Err(e) => return Err(e),
        };
        let ghost ev = expr_view(e);
        let e = if newline {
            let nl = Expr::Str(string_of("\n"));
            assert(expr_view(nl) == ExprView::Str("\n"@));
            Expr::Binary { op: BinOp::Add, lhs: Box::new(e), rhs: Box::new(nl) }
        } else {
            e
        };
        self.finish_with(Stmt::Print { expr: e })
    }

    fn parse_exec(&mut self) -> (r: Result<Stmt, BasilError>)
        requires
            old(self).wf(),
        ensures
            final(self).wf(),
            final(self).toks() == old(self).toks(),
            stmt_result(exec_stmt(old(self).toks(), old(self).pos()), r, final(self).pos()),
            r is Ok ==> old(self).pos() <= final(self).pos(),
    {
        match self.expect(TokenKind::LParen) {
            Ok(()) => {},
            Err(e) => return Err(e),
        }
        let code = match self.parse_expr_bp(0) {
            Ok(e) => e,
            Err(e) => return Err(e),
        };
        match self.expect(TokenKind::RParen) {
            Ok(()) => {},
            Err(e) => return Err(e),
        }
        self.finish_with(Stmt::Exec { code })
    }

    fn parse_return(&mut self) -> (r: Result<Stmt, BasilError>)
        requires
            old(self).wf(),
        ensures
            final(self).wf(),
            final(self).toks() == old(self).toks(),
            stmt_result(return_stmt(old(self).toks(), old(self).pos()), r, final(self).pos()),
            r is Ok ==> old(self).pos() <= final(self).pos(),
    {
        if self.check(TokenKind::To) {
            self.next();
            let label = match self.expect_ident() {
                Ok(n) => n,
                Err(e) => return Err(e),
            };
            return self.finish_with(Stmt::ReturnFromGosub(Some(label)));
        }
        if self.check(TokenKind::Semicolon) || self.check(TokenKind::Eof) {
            return self.finish_with(Stmt::ReturnFromGosub(None));
        }
        let e = match self.parse_expr_bp(0) {
            Ok(e) => e,
            Err(e) => return Err(e),
        };
        self.finish_with(Stmt::Return(Some(e)))
    }

    /// `= value` and the end of the statement.
    fn parse_assigned(&mut self) -> (r: Result<Expr, BasilError>)
        requires
            old(self).wf(),
        ensures
            final(self).wf(),
            final(self).toks() == old(self).toks(),
            match assigned(old(self).toks(), old(self).pos()) {
                Ok((v, e)) => r matches Ok(x) && expr_view(x) == v && final(self).pos() == e,
                Err(m) => r matches Err(x) && x.0@ == m,
            },
            r is Ok ==> old(self).pos() < final(self).pos(),
    {
        match self.expect(TokenKind::Assign) {
            Ok(()) => {},
            Err(e) => return Err(e),
        }
        let v = match self.parse_expr_bp(0) {
            Ok(e) => e,
            Err(e) => return Err(e),
        };
        match self.terminate_stmt() {
            Ok(()) => Ok(v),
            Err(e) => Err(e),
        }
    }

    fn parse_let(&mut self) -> (r: Result<Stmt, BasilError>)
        requires
            old(self).wf(),
        ensures
            final(self).wf(),
            final(self).toks() == old(self).toks(),
            stmt_result(let_stmt(old(self).toks(), old(self).pos()), r, final(self).pos()),
            r is Ok ==> old(self).pos() <= final(self).pos(),
    {
        let k = self.mark();
        if self.check(TokenKind::Ident) {
            let obj = self.lexeme_here();
            self.next();
            if self.match_k(TokenKind::Dot) {
                return self.parse_let_member(obj);
            }
            self.reset(k);
        }
        self.parse_let_target()
    }

    /// LET obj.Prop = expr, after the dot.
    fn parse_let_member(&mut self, obj: String) -> (r: Result<Stmt, BasilError>)
        requires
            old(self).wf(),
        ensures
            final(self).wf(),
            final(self).toks() == old(self).toks(),
            match ident(old(self).toks(), old(self).pos()) {
                Err(e) => r matches Err(x) && x.0@ == e,
                Ok((prop, m)) => match assigned(old(self).toks(), m) {
                    Err(e) => r matches Err(x) && x.0@ == e,
                    Ok((value, e)) => r matches Ok(x) && stmt_view(x) == StmtView::SetProp {
                        target: ExprView::Var(obj@),
                        prop,
                        value,
                    } && final(self).pos() == e,
                },
            },
            r is Ok ==> old(self).pos() <= final(self).pos(),
    {
        let prop = match self.expect_ident() {
            Ok(n) => n,
            Err(e) => return Err(e),
        };
        let value = match self.parse_assigned() {
            Ok(v) => v,
            Err(e) => return Err(e),
        };
        Ok(Stmt::SetProp { target: Expr::Var(obj), prop, value })
    }

    /// LET name[idx] = expr, LET name(indices).Prop = expr or LET name[(indices)] = expr.
    #[verifier::rlimit(50)]
    #[verifier::spinoff_prover]
    fn parse_let_target(&mut self) -> (r: Result<Stmt, BasilError>)
        requires
            old(self).wf(),
        ensures
            final(self).wf(),
            final(self).toks() == old(self).toks(),
            match ident(old(self).toks(), old(self).pos()) {
                Err(e) => r matches Err(x) && x.0@ == e,
                Ok((name, m)) => {
                    let t = old(self).toks();
                    if takes(t, m, TokenKind::LBracket) {
                        match expr_bp(t, m + 1, 0) {
                            Err(e) => r matches Err(x) && x.0@ == e,
                            Ok((index, n)) => if !at_kind(t, n, TokenKind::RBracket) {
                                r matches Err(x) && x.0@ == expected(t, n, TokenKind::RBracket)
                            } else {
                                match assigned(t, n + 1) {
                                    Err(e) => r matches Err(x) && x.0@ == e,
                                    Ok((value, e)) => r matches Ok(x) && stmt_view(x) == StmtView::SetIndexSquare {
                                        target: ExprView::Var(name),
                                        index,
                                        value,
                                    } && final(self).pos() == e,
                                }
                            },
                        }
                    } else if takes(t, m, TokenKind::LParen) {
                        match call_args(t, m + 1) {
                            Err(e) => r matches Err(x) && x.0@ == e,
                            Ok((idxs, n)) => if takes(t, n, TokenKind::Dot) {
                                match member_name(t, n + 1) {
                                    Err(e) => r matches Err(x) && x.0@ == e,
                                    Ok((prop, p)) => match assigned(t, p) {
                                        Err(e) => r matches Err(x) && x.0@ == e,
                                        Ok((value, e)) => r matches Ok(x) && stmt_view(x) == StmtView::SetProp {
                                            target: ExprView::Call { callee: Box::new(ExprView::Var(name)), args: idxs },
                                            prop,
                                            value,
                                        } && final(self).pos() == e,
                                    },
                                }
                            } else {
                                match assigned(t, n) {
                                    Err(e) => r matches Err(x) && x.0@ == e,
                                    Ok((init, e)) => r matches Ok(x) && stmt_view(x) == StmtView::Let {
                                        name,
                                        indices: Some(idxs),
                                        init,
                                    } && final(self).pos() == e,
                                }
                            },
                        }
                    } else {
                        match assigned(t, m) {
                            Err(e) => r matches Err(x) && x.0@ == e,
                            Ok((init, e)) => r matches Ok(x) && stmt_view(x) == StmtView::Let {
                                name,
                                indices: None,
                                init,
                            } && final(self).pos() == e,
                        }
                    }
                },
            },
            r is Ok ==> old(self).pos() <= final(self).pos(),
    {
        let name = match self.expect_ident() {
            Ok(n) => n,
            Err(e) => return Err(e),
        };
        if self.match_k(TokenKind::LBracket) {
            let index = match self.parse_expr_bp(0) {
                Ok(e) => e,
                Err(e) => return Err(e),
            };
            match self.expect(TokenKind::RBracket) {
                Ok(()) => {},
                Err(e) => return Err(e),
            }
            let value = match self.parse_assigned() {
                Ok(v) => v,
                Err(e) => return Err(e),
            };
            return Ok(Stmt::SetIndexSquare { target: Expr::Var(name), index, value });
        }
        if self.match_k(TokenKind::LParen) {
            let idxs = match self.parse_call_args() {
                Ok(a) => a,
                Err(e) => return Err(e),
            };
            if self.match_k(TokenKind::Dot) {
                let prop = match self.expect_member_name() {
                    Ok(n) => n,
                    Err(e) => return Err(e),
                };
                let value = match self.parse_assigned() {
                    Ok(v) => v,
                    Err(e) => return Err(e),
                };
                let ghost nv = name@;
                let callee = Expr::Var(name);
                assert(expr_view(callee) == ExprView::Var(nv));
                return Ok(Stmt::SetProp { target: Expr::Call { callee: Box::new(callee), args: idxs }, prop, value });
            }
            let init = match self.parse_assigned() {
                Ok(v) => v,
                Err(e) => return Err(e),
            };
            return Ok(Stmt::Let { name, indices: Some(idxs), init });
        }
        let init = match self.parse_assigned() {
            Ok(v) => v,
            Err(e) => return Err(e),
        };
        Ok(Stmt::Let { name, indices: None, init })
    }

    fn parse_sleep(&mut self) -> (r: Result<Stmt, BasilError>)
        requires
            old(self).wf(),
        ensures
            final(self).wf(),
            final(self).toks() == old(self).toks(),
            stmt_result(sleep_stmt(old(self).toks(), old(self).pos()), r, final(self).pos()),
            r is Ok ==> old(self).pos() <= final(self).pos(),
    {
        let arg = if self.match_k(TokenKind::LParen) {
            let e = match self.parse_expr_bp(0) {
                Ok(e) => e,
                Err(e) => return Err(e),
            };
            match self.expect(TokenKind::RParen) {
                Ok(()) => {},
                Err(e) => return Err(e),
            }
            e
        } else {
            match self.parse_expr_bp(0) {
                Ok(e) => e,
                Err(e) => return Err(e),
            }
        };
        let mut args: Vec<Expr> = Vec::new();
        args.push(arg);
        proof {
            lemma_exprs_view_push(Seq::<Expr>::empty(), args@[0]);
            assert(Seq::<Expr>::empty().push(args@[0]) =~= args@);
        }
        let callee = Expr::Var(string_of("SLEEP"));
        assert(expr_view(callee) == ExprView::Var("SLEEP"@));
        self.finish_with(Stmt::ExprStmt(Expr::Call { callee: Box::new(callee), args }))
    }

    /// An expression statement, or an assignment to a member or an index.
    fn parse_expr_stmt(&mut self) -> (r: Result<Stmt, BasilError>)
        requires
            old(self).wf(),
        ensures
            final(self).wf(),
            final(self).toks() == old(self).toks(),
            stmt_result(expr_stmt(old(self).toks(), old(self).pos()), r, final(self).pos()),
            r is Ok ==> old(self).pos() < final(self).pos(),
    {
        let j = self.mark();
        let probe = match self.parse_prefix() {
            Ok(l) => self.parse_postfix(l),
            Err(e) => Err(e),
        };
        match probe {
            Ok(lhs) => {
                if self.check(TokenKind::Assign) {
                    match lhs {
                        Expr::MemberGet { target, name } => {
                            self.next();
                            let value = match self.parse_expr_bp(0) {
                                Ok(e) => e,
                                Err(e) => return Err(e),
                            };
                            return self.finish_with(Stmt::SetProp { target: *target, prop: name, value });
                        },
                        Expr::IndexSquare { target, index } => {
                            self.next();
                            let value = match self.parse_expr_bp(0) {
                                Ok(e) => e,
                                Err(e) => return Err(e),
                            };
                            return self.finish_with(Stmt::SetIndexSquare { target: *target, index: *index, value });
                        },
                        _ => {
                            return Err(
                                BasilError(string_of("Use LET for assignment; '=' in expressions tests equality.")),
                            );
                        },
                    }
                }
                self.reset(j);
            },
            Err(_) => {
                self.reset(j);
            },
        }
        let e = match self.parse_expr_bp(0) {
            Ok(e) => e,
            Err(e) => return Err(e),
        };
        self.finish_with(Stmt::ExprStmt(e))
    }

    /// A statement that starts with an identifier.
    fn parse_ident_stmt(&mut self) -> (r: Result<Stmt, BasilError>)
        requires
            old(self).wf(),
            old(self).pos() < old(self).toks().len(),
        ensures
            final(self).wf(),
            final(self).toks() == old(self).toks(),
            stmt_result(ident_stmt(old(self).toks(), old(self).pos()), r, final(self).pos()),
            r is Ok ==> old(self).pos() < final(self).pos(),
    {
        let name = self.lexeme_here();
        if eq_ignore_case_str(name.as_str(), "SLEEP") {
            self.next();
            return self.parse_sleep();
        }
        let upper = ascii_upper(name.as_str());
        if is_zero_arg_command(upper.as_str()) {
            self.next();
            if self.match_k(TokenKind::LParen) {
                match self.expect(TokenKind::RParen) {
                    Ok(()) => {},
                    Err(e) => return Err(e),
                }
            }
            let args: Vec<Expr> = Vec::new();
            assert(exprs_view(args@) =~= Seq::<ExprView>::empty());
            let ghost nv = name@;
            let callee = Expr::Var(name);
            assert(expr_view(callee) == ExprView::Var(nv));
            return self.finish_with(Stmt::ExprStmt(Expr::Call { callee: Box::new(callee), args }));
        }
        self.parse_expr_stmt()
    }
}

} // verus!

verus! {

impl Parser {
    fn compare_op_here(&self) -> (o: Option<BinOp>)
        requires
            self.wf(),
        ensures
            o == compare_op_at(self.toks(), self.pos()),
    {
        match self.peek_kind() {
            Some(TokenKind::EqEq) => Some(BinOp::Eq),
            Some(TokenKind::Assign) => Some(BinOp::Eq),
            Some(TokenKind::BangEq) => Some(BinOp::Ne),
            Some(TokenKind::Lt) => Some(BinOp::Lt),
            Some(TokenKind::LtEq) => Some(BinOp::Le),
            Some(TokenKind::Gt) => Some(BinOp::Gt),
            Some(TokenKind::GtEq) => Some(BinOp::Ge),
            _ => None,
        }
    }

    /// The patterns of a CASE arm, appended to `out`.
    fn parse_case_patterns(&mut self, out: &mut Vec<CasePattern>) -> (r: Result<(), BasilError>)
        requires
            old(self).wf(),
        ensures
            final(self).wf(),
            final(self).toks() == old(self).toks(),
            match case_patterns(old(self).toks(), old(self).pos()) {
                Ok((ps, k)) => r is Ok && patterns_view(final(out)@) == patterns_view(old(out)@) + ps
                    && final(self).pos() == k,
                Err(m) => r matches Err(e) && e.0@ == m,
            },
            r is Ok ==> old(self).pos() < final(self).pos(),
        decreases old(self).toks().len() - old(self).pos(),
    {
        let ghost t = self.toks();
        let p = if self.match_k(TokenKind::Is) {
            let op = match self.compare_op_here() {
                Some(op) => op,
                None => {
                    return Err(BasilError(string_of("Use 'CASE IS <op> <expr>' with one comparator operator.")));
                },
            };
            self.next();
            match self.parse_expr_bp(0) {
                Ok(rhs) => CasePattern::Compare { op, rhs },
                Err(e) => return Err(e),
            }
        } else {
            let lo = match self.parse_expr_bp(0) {
                Ok(e) => e,
                Err(e) => return Err(e),
            };
            if self.match_k(TokenKind::To) {
                match self.parse_expr_bp(0) {
                    Ok(hi) => CasePattern::Range { lo, hi },
                    Err(e) => return Err(e),
                }
            } else {
                CasePattern::Value(lo)
            }
        };
        let ghost pv = pattern_view(p);
        let ghost before = out@;
        out.push(p);
        assert(patterns_view(out@) =~= patterns_view(before).push(pv));
        if self.check(TokenKind::Comma) {
            let ghost k = self.pos();
            self.next();
            let r = self.parse_case_patterns(out);
            proof {
                if let Ok((rest, m)) = case_patterns(t, k + 1) {
                    assert(patterns_view(before).push(pv) + rest =~= patterns_view(before) + (seq![pv] + rest));
                }
            }
            r
        } else {
            assert(patterns_view(before) + seq![pv] =~= patterns_view(before).push(pv));
            Ok(())
        }
    }

    fn parse_param_items(&mut self, out: &mut Vec<String>) -> (r: Result<(), BasilError>)
        requires
            old(self).wf(),
        ensures
            final(self).wf(),
            final(self).toks() == old(self).toks(),
            match param_items(old(self).toks(), old(self).pos()) {
                Ok((ps, k)) => r is Ok && strings_view(final(out)@) == strings_view(old(out)@) + ps
                    && final(self).pos() == k,
                Err(m) => r matches Err(e) && e.0@ == m,
            },
            r is Ok ==> old(self).pos() < final(self).pos(),
        decreases old(self).toks().len() - old(self).pos(),
    {
        let ghost t = self.toks();
        let n = match self.expect_ident() {
            Ok(n) => n,
            Err(e) => return Err(e),
        };
        let ghost nv = n@;
        let ghost before = out@;
        out.push(n);
        assert(strings_view(out@) =~= strings_view(before).push(nv));
        if self.check(TokenKind::Comma) {
            let ghost k = self.pos();
            self.next();
            let r = self.parse_param_items(out);
            proof {
                if let Ok((rest, m)) = param_items(t, k + 1) {
                    assert(strings_view(before).push(nv) + rest =~= strings_view(before) + (seq![nv] + rest));
                }
            }
            r
        } else {
            assert(strings_view(before) + seq![nv] =~= strings_view(before).push(nv));
            Ok(())
        }
    }

    /// The parameters of a routine after its `(`, through the `)`.
    fn parse_params(&mut self) -> (r: Result<Vec<String>, BasilError>)
        requires
            old(self).wf(),
        ensures
            final(self).wf(),
            final(self).toks() == old(self).toks(),
            match params(old(self).toks(), old(self).pos()) {
                Ok((ps, k)) => r matches Ok(v) && strings_view(v@) == ps && final(self).pos() == k,
                Err(m) => r matches Err(e) && e.0@ == m,
            },
            r is Ok ==> old(self).pos() < final(self).pos(),
    {
        let mut v: Vec<String> = Vec::new();
        if self.check(TokenKind::RParen) {
            self.next();
            assert(strings_view(v@) =~= Seq::<Seq<char>>::empty());
            return Ok(v);
        }
        let ghost t = self.toks();
        let ghost p = self.pos();
        match self.parse_param_items(&mut v) {
            Ok(()) => {},
            Err(e) => return Err(e),
        }
        assert(strings_view(Seq::<String>::empty()) + param_items(t, p)->Ok_0.0 =~= param_items(t, p)->Ok_0.0);
        match self.expect(TokenKind::RParen) {
            Ok(()) => Ok(v),
            Err(e) => Err(e),
        }
    }

    /// One field of a TYPE, after its DIM.
    fn parse_struct_field(&mut self) -> (r: Result<StructField, BasilError>)
        requires
            old(self).wf(),
        ensures
            final(self).wf(),
            final(self).toks() == old(self).toks(),
            match struct_field(old(self).toks(), old(self).pos()) {
                Ok((f, k)) => r matches Ok(x) && field_view(x) == f && final(self).pos() == k,
                Err(m) => r matches Err(e) && e.0@ == m,
            },
            r is Ok ==> old(self).pos() < final(self).pos(),
    {
        let fname = match self.expect_ident() {
            Ok(n) => n,
            Err(e) => return Err(e),
        };
        if self.match_k(TokenKind::LParen) {
            return Err(self.error_here("array fields in TYPE not supported yet"));
        }
        let kind = if self.match_k(TokenKind::As) {
            if self.check(TokenKind::Ident) {
                let l = self.lexeme_here();
                self.next();
                if eq_ignore_case_str(l.as_str(), "STRING") {
                    if self.match_k(TokenKind::Star) {
                        if !self.check(TokenKind::Number) {
                            return Err(self.expected_here(TokenKind::Number));
                        }
                        let n = self.count_here();
                        self.next();
                        StructFieldKind::FixedString(n)
                    } else {
                        StructFieldKind::VarString
                    }
                } else {
                    StructFieldKind::Struct(l)
                }
            } else if self.match_k(TokenKind::Type) {
                match self.expect_ident() {
                    Ok(t) => StructFieldKind::Struct(t),
                    Err(e) => return Err(e),
                }
            } else {
                return Err(self.error_here("expected type after AS"));
            }
        } else if str_ends_with(fname.as_str(), '%') {
            StructFieldKind::Int32
        } else if str_ends_with(fname.as_str(), '$') {
            StructFieldKind::VarString
        } else {
            StructFieldKind::Float64
        };
        proof {
            lemma_skip_terms(self.toks(), self.pos());
        }
        self.skip_terms_here();
        Ok(StructField { name: fname, kind })
    }

    /// The fields of a TYPE, up to `}` or END TYPE, appended to `out`.
    fn parse_type_fields(&mut self, brace: bool, out: &mut Vec<StructField>) -> (r: Result<(), BasilError>)
        requires
            old(self).wf(),
        ensures
            final(self).wf(),
            final(self).toks() == old(self).toks(),
            match type_fields(old(self).toks(), old(self).pos(), brace) {
                Ok((fs, k)) => r is Ok && fields_view(final(out)@) == fields_view(old(out)@) + fs
                    && final(self).pos() == k,
                Err(m) => r matches Err(e) && e.0@ == m,
            },
            r is Ok ==> old(self).pos() <= final(self).pos(),
        decreases old(self).toks().len() - old(self).pos(),
    {
        let ghost t = self.toks();
        proof {
            lemma_skip_terms(self.toks(), self.pos());
        }
        self.skip_terms_here();
        if brace && self.check(TokenKind::RBrace) {
            self.next();
            assert(fields_view(out@) + Seq::<FieldView>::empty() =~= fields_view(out@));
            return Ok(());
        }
        if !brace && self.check(TokenKind::End) {
            self.next();
            if self.match_k(TokenKind::Type) {
                assert(fields_view(out@) + Seq::<FieldView>::empty() =~= fields_view(out@));
                return Ok(());
            } else {
                return Err(self.error_here("expected 'END TYPE'"));
            }
        }
        if self.check(TokenKind::Eof) {
            if brace {
                return Err(self.error_here("unterminated TYPE { ... }"));
            } else {
                return Err(self.error_here("unterminated TYPE ... END TYPE"));
            }
        }
        if !self.match_k(TokenKind::Dim) {
            return Err(self.error_here("expected DIM in TYPE body"));
        }
        let f = match self.parse_struct_field() {
            Ok(f) => f,
            Err(e) => return Err(e),
        };
        let ghost fv = field_view(f);
        let ghost before = out@;
        let ghost k = self.pos();
        out.push(f);
        assert(fields_view(out@) =~= fields_view(before).push(fv));
        let r = self.parse_type_fields(brace, out);
        proof {
            if let Ok((rest, m)) = type_fields(t, k, brace) {
                assert(fields_view(before).push(fv) + rest =~= fields_view(before) + (seq![fv] + rest));
            }
        }
        r
    }

    fn parse_type(&mut self) -> (r: Result<Stmt, BasilError>)
        requires
            old(self).wf(),
        ensures
            final(self).wf(),
            final(self).toks() == old(self).toks(),
            stmt_result(type_stmt(old(self).toks(), old(self).pos()), r, final(self).pos()),
            r is Ok ==> old(self).pos() <= final(self).pos(),
    {
        let name = match self.expect_ident() {
            Ok(n) => n,
            Err(e) => return Err(e),
        };
        let ghost t = self.toks();
        let brace = self.match_k(TokenKind::LBrace);
        let ghost p = self.pos();
        let mut fields: Vec<StructField> = Vec::new();
        match self.parse_type_fields(brace, &mut fields) {
            Ok(()) => {},
            Err(e) => return Err(e),
        }
        assert(fields_view(Seq::<StructField>::empty()) + type_fields(t, p, brace)->Ok_0.0 =~= type_fields(
            t,
            p,
            brace,
        )->Ok_0.0);
        proof {
            lemma_skip_terms(t, p);
        }
        self.opt_terminate_here();
        Ok(Stmt::TypeDef { name, fields })
    }
}

} // verus!

verus! {

impl Parser {
    fn parse_dim_bracket(&mut self, name: String) -> (r: Result<Stmt, BasilError>)
        requires
            old(self).wf(),
        ensures
            final(self).wf(),
            final(self).toks() == old(self).toks(),
            stmt_result(dim_bracket(old(self).toks(), old(self).pos(), name@), r, final(self).pos()),
            r is Ok ==> old(self).pos() <= final(self).pos(),
    {
        if !self.check(TokenKind::Number) {
            return Err(self.expected_here(TokenKind::Number));
        }
        let n = self.count_here();
        self.next();
        if !self.check(TokenKind::RBracket) {
            return Err(self.expected_here(TokenKind::RBracket));
        }
        self.next();
        self.finish_with(Stmt::DimFixedStr { name, len: n })
    }

    fn parse_dim_paren(&mut self, name: String) -> (r: Result<Stmt, BasilError>)
        requires
            old(self).wf(),
        ensures
            final(self).wf(),
            final(self).toks() == old(self).toks(),
            stmt_result(dim_paren(old(self).toks(), old(self).pos(), name@), r, final(self).pos()),
            r is Ok ==> old(self).pos() <= final(self).pos(),
    {
        let dims = match self.parse_call_args() {
            Ok(a) => a,
            Err(e) => return Err(e),
        };
        if self.match_k(TokenKind::As) {
            let t = match self.expect_ident() {
                Ok(t) => t,
                Err(e) => return Err(e),
            };
            return self.finish_with(Stmt::DimObjectArray { name, dims, type_label: Some(t) });
        }
        if str_ends_with(name.as_str(), '@') {
            self.finish_with(Stmt::DimObjectArray { name, dims, type_label: None })
        } else {
            self.finish_with(Stmt::Dim { name, dims })
        }
    }

    #[verifier::rlimit(30)]
    fn parse_dim_as(&mut self, name: String) -> (r: Result<Stmt, BasilError>)
        requires
            old(self).wf(),
        ensures
            final(self).wf(),
            final(self).toks() == old(self).toks(),
            stmt_result(dim_as(old(self).toks(), old(self).pos(), name@), r, final(self).pos()),
            r is Ok ==> old(self).pos() <= final(self).pos(),
    {
        if self.match_k(TokenKind::Class) {
            match self.expect(TokenKind::LParen) {
                Ok(()) => {},
                Err(e) => return Err(e),
            }
            let f = match self.parse_expr_bp(0) {
                Ok(e) => e,
                Err(e) => return Err(e),
            };
            match self.expect(TokenKind::RParen) {
                Ok(()) => {},
                Err(e) => return Err(e),
            }
            let ghost fv = expr_view(f);
            let init = Expr::NewClass { filename: Box::new(f) };
            assert(expr_view(init) == ExprView::NewClass { filename: Box::new(fv) });
            return self.finish_with(Stmt::Let { name, indices: None, init });
        }
        if self.check(TokenKind::Ident) {
            let l = self.lexeme_here();
            if eq_ignore_case_str(l.as_str(), "STRING") {
                self.next();
                if self.match_k(TokenKind::Star) {
                    if !self.check(TokenKind::Number) {
                        return Err(self.expected_here(TokenKind::Number));
                    }
                    let n = self.count_here();
                    self.next();
                    return self.finish_with(Stmt::DimFixedStr { name, len: n });
                }
                return Err(self.error_here("expected '*' and length after STRING"));
            }
        }
        if self.match_k(TokenKind::Type) {
            let t = match self.expect_ident() {
                Ok(t) => t,
                Err(e) => return Err(e),
            };
            let args: Vec<Expr> = Vec::new();
            assert(exprs_view(args@) =~= Seq::<ExprView>::empty());
            return self.finish_with(Stmt::DimObject { name, type_label: t, args });
        }
        let t = match self.expect_ident() {
            Ok(t) => t,
            Err(e) => return Err(e),
        };
        if self.match_k(TokenKind::LParen) {
            let args = match self.parse_call_args() {
                Ok(a) => a,
                Err(e) => return Err(e),
            };
            return self.finish_with(Stmt::DimObject { name, type_label: t, args });
        }
        let args: Vec<Expr> = Vec::new();
        assert(exprs_view(args@) =~= Seq::<ExprView>::empty());
        self.finish_with(Stmt::DimObject { name, type_label: t, args })
    }

    fn parse_dim_assign(&mut self, name: String) -> (r: Result<Stmt, BasilError>)
        requires
            old(self).wf(),
        ensures
            final(self).wf(),
            final(self).toks() == old(self).toks(),
            stmt_result(dim_assign(old(self).toks(), old(self).pos(), name@), r, final(self).pos()),
            r is Ok ==> old(self).pos() <= final(self).pos(),
    {
        let init = match self.parse_expr_bp(0) {
            Ok(e) => e,
            Err(e) => return Err(e),
        };
        match self.terminate_stmt() {
            Ok(()) => {},
            Err(e) => return Err(e),
        }
        match init {
            Expr::List(items) => {
                if str_ends_with(name.as_str(), '%') || str_ends_with(name.as_str(), '$') {
                    let stmts = dim_list_stmts(&name, items);
                    Ok(Stmt::Block(stmts))
                } else {
                    Ok(Stmt::Let { name, indices: None, init: Expr::List(items) })
                }
            },
            other => Ok(Stmt::Let { name, indices: None, init: other }),
        }
    }

    fn parse_dim(&mut self) -> (r: Result<Stmt, BasilError>)
        requires
            old(self).wf(),
        ensures
            final(self).wf(),
            final(self).toks() == old(self).toks(),
            stmt_result(dim_stmt(old(self).toks(), old(self).pos()), r, final(self).pos()),
            r is Ok ==> old(self).pos() <= final(self).pos(),
    {
        let name = match self.expect_ident() {
            Ok(n) => n,
            Err(e) => return Err(e),
        };
        if str_ends_with(name.as_str(), '$') && self.match_k(TokenKind::LBracket) {
            return self.parse_dim_bracket(name);
        }
        if self.match_k(TokenKind::LParen) {
            return self.parse_dim_paren(name);
        }
        if self.match_k(TokenKind::As) {
            return self.parse_dim_as(name);
        }
        if self.match_k(TokenKind::Assign) {
            return self.parse_dim_assign(name);
        }
        Err(self.error_here("expected '(' or AS after DIM name"))
    }
}

} // verus!

verus! {

proof fn lemma_prepend_empty(r: Result<(Seq<StmtView>, int), Seq<char>>)
    ensures
        prepend_body(seq![], r) == r,
{
    if let Ok((b, k)) = r {
        assert(Seq::<StmtView>::empty() + b =~= b);
    }
}

proof fn lemma_prepend_step(acc: Seq<StmtView>, x: Seq<StmtView>, r: Result<(Seq<StmtView>, int), Seq<char>>)
    ensures
        prepend_body(acc, prepend_body(x, r)) == prepend_body(acc + x, r),
{
    if let Ok((b, k)) = r {
        assert(acc + (x + b) =~= (acc + x) + b);
    }
}

/// One statement of a body: what is left of the body after it.
proof fn lemma_body_step(
    t: Seq<TokenView>,
    p: int,
    c: nat,
    cl: Closer,
    msg: Seq<char>,
    with_line: bool,
    j: int,
    sv: StmtView,
    k: int,
)
    requires
        0 <= p <= t.len(),
        skip_terms(t, p) == j,
        closes(t, j, cl) is None,
        !at_kind(t, j, TokenKind::Eof),
        stmt(t, j, c) == Ok::<(StmtView, int), Seq<char>>((sv, k)),
        j < k <= t.len(),
    ensures
        body(t, p, c, cl, msg, with_line) == prepend_body(
            seq![StmtView::Line(line_of(t, j)), sv],
            body(t, k, c, cl, msg, with_line),
        ),
{
}

/// A body that closes at once.
proof fn lemma_body_close(t: Seq<TokenView>, p: int, c: nat, cl: Closer, msg: Seq<char>, with_line: bool, j: int)
    requires
        0 <= p <= t.len(),
        skip_terms(t, p) == j,
        closes(t, j, cl) is Some,
    ensures
        body(t, p, c, cl, msg, with_line) == match closes(t, j, cl) {
            Some(Ok(k)) => Ok((Seq::<StmtView>::empty(), k)),
            Some(Err(e)) => Err(e),
            None => Err(seq![]),
        },
{
    assert(seq![] =~= Seq::<StmtView>::empty());
}

pub open spec fn opt_body_view(o: Option<Vec<Stmt>>) -> Option<Seq<StmtView>> {
    match o {
        Some(v) => Some(stmts_view(v@)),
        None => None,
    }
}

pub open spec fn opt_box_view(o: Option<Box<Stmt>>) -> Option<Box<StmtView>> {
    match o {
        Some(b) => Some(Box::new(stmt_view(*b))),
        None => None,
    }
}

/// A statement as a block, after the marker of its line.
fn lined_block(line: u32, s: Stmt) -> (b: Stmt)
    ensures
        stmt_view(b) == StmtView::Block(seq![StmtView::Line(line), stmt_view(s)]),
{
    let ghost sv = stmt_view(s);
    let mut v: Vec<Stmt> = Vec::new();
    let ln = Stmt::Line(line);
    proof {
        lemma_stmts_view_push(Seq::<Stmt>::empty(), ln);
    }
    v.push(ln);
    let ghost mid = v@;
    proof {
        lemma_stmts_view_push(mid, s);
        assert(stmts_view(Seq::<Stmt>::empty()) =~= Seq::<StmtView>::empty());
    }
    v.push(s);
    assert(stmts_view(v@) =~= seq![StmtView::Line(line), sv]);
    Stmt::Block(v)
}

impl Parser {
    /// The statements of a body up to its closer, each after a line marker,
    /// appended to `out`.
    fn parse_body(&mut self, c: usize, cl: Closer, msg: &str, with_line: bool, out: &mut Vec<Stmt>) -> (r: Result<
        (),
        BasilError,
    >)
        requires
            old(self).wf(),
            c as int <= old(self).pos(),
        ensures
            final(self).wf(),
            final(self).toks() == old(self).toks(),
            match body(old(self).toks(), old(self).pos(), c as nat, cl, msg@, with_line) {
                Ok((b, k)) => r is Ok && stmts_view(final(out)@) == stmts_view(old(out)@) + b && final(self).pos() == k,
                Err(m) => r matches Err(e) && e.0@ == m,
            },
            r is Ok ==> old(self).pos() <= final(self).pos(),
        decreases old(self).toks().len() - old(self).pos(), 6int,
    {
        let ghost t = self.toks();
        let ghost i0 = self.pos();
        let ghost out0 = out@;
        let ghost mut acc: Seq<StmtView> = Seq::empty();
        proof {
            lemma_prepend_empty(body(t, i0, c as nat, cl, msg@, with_line));
            assert(stmts_view(out0) + acc =~= stmts_view(out0));
        }
        loop
            invariant
                self.wf(),
                self.toks() == t,
                t == old(self).toks(),
                i0 == old(self).pos(),
                out0 == old(out)@,
                i0 <= self.pos() <= t.len(),
                c as int <= i0,
                stmts_view(out@) == stmts_view(out0) + acc,
                body(t, i0, c as nat, cl, msg@, with_line) == prepend_body(
                    acc,
                    body(t, self.pos(), c as nat, cl, msg@, with_line),
                ),
            decreases t.len() - self.pos(),
        {
            let ghost p = self.pos();
            proof {
                lemma_skip_terms(t, p);
            }
            self.skip_terms_here();
            let ghost j0 = self.pos();
            let cr = self.closes_here(cl);
            if cr.is_some() {
                proof {
                    lemma_body_close(t, p, c as nat, cl, msg@, with_line, j0);
                }
            }
            match cr {
                Some(Ok(_)) => {
                    assert(acc + Seq::<StmtView>::empty() =~= acc);
                    return Ok(());
                },
                Some(Err(e)) => return Err(e),
                None => {},
            }
            if self.check(TokenKind::Eof) {
                if with_line {
                    return Err(self.error_here(msg));
                } else {
                    return Err(BasilError(string_of(msg)));
                }
            }
            let line = self.peek_line();
            let ghost j = self.pos();
            let s = match self.parse_stmt(c) {
                Ok(s) => s,
                Err(e) => return Err(e),
            };
            let ghost sv = stmt_view(s);
            let ghost k = self.pos();
            let ghost before = out@;
            let ln = Stmt::Line(line);
            proof {
                lemma_stmts_view_push(before, ln);
            }
            out.push(ln);
            let ghost mid = out@;
            proof {
                lemma_stmts_view_push(mid, s);
            }
            out.push(s);
            proof {
                let x = seq![StmtView::Line(line), sv];
                lemma_body_step(t, p, c as nat, cl, msg@, with_line, j, sv, k);
                lemma_prepend_step(acc, x, body(t, k, c as nat, cl, msg@, with_line));
                assert(stmts_view(out@) =~= stmts_view(out0) + (acc + x));
                acc = acc + x;
            }
        }
    }

    /// A body as a block statement.
    fn parse_block(&mut self, c: usize, cl: Closer, msg: &str) -> (r: Result<Stmt, BasilError>)
        requires
            old(self).wf(),
            c as int <= old(self).pos(),
        ensures
            final(self).wf(),
            final(self).toks() == old(self).toks(),
            stmt_result(block(body(old(self).toks(), old(self).pos(), c as nat, cl, msg@, true)), r, final(self).pos()),
            r is Ok ==> old(self).pos() <= final(self).pos(),
        decreases old(self).toks().len() - old(self).pos(), 7int,
    {
        let ghost t = self.toks();
        let ghost p = self.pos();
        let mut out: Vec<Stmt> = Vec::new();
        match self.parse_body(c, cl, msg, true, &mut out) {
            Ok(()) => {},
            Err(e) => return Err(e),
        }
        assert(stmts_view(Seq::<Stmt>::empty()) + body(t, p, c as nat, cl, msg@, true)->Ok_0.0 =~= body(
            t,
            p,
            c as nat,
            cl,
            msg@,
            true,
        )->Ok_0.0);
        Ok(Stmt::Block(out))
    }

    /// The statement at the parser's position, after any separators; `c` counts the
    /// CATCH blocks around it.
    #[verifier::rlimit(50)]
    #[verifier::spinoff_prover]
    fn parse_stmt(&mut self, c: usize) -> (r: Result<Stmt, BasilError>)
        requires
            old(self).wf(),
            c as int <= old(self).pos(),
        ensures
            final(self).wf(),
            final(self).toks() == old(self).toks(),
            stmt_result(stmt(old(self).toks(), old(self).pos(), c as nat), r, final(self).pos()),
            r is Ok ==> old(self).pos() < final(self).pos(),
        decreases old(self).toks().len() - old(self).pos(), 5int,
    {
        proof {
            lemma_skip_terms(self.toks(), self.pos());
        }
        self.skip_terms_here();
        match self.peek_kind() {
            Some(TokenKind::Select) => {
                self.next();
                self.parse_select(c)
            },
            Some(TokenKind::With) => {
                self.next();
                self.parse_with(c)
            },
            Some(TokenKind::Try) => {
                self.next();
                self.parse_try(c)
            },
            Some(TokenKind::Func) => {
                let kw = self.lexeme_here();
                let kind = if eq_ignore_case_str(kw.as_str(), "SUB") {
                    FuncKind::Sub
                } else {
                    FuncKind::Func
                };
                self.next();
                self.parse_func(c, kind)
            },
            Some(TokenKind::Label) => self.parse_label(),
            Some(TokenKind::Goto) => {
                self.next();
                self.parse_jump(false)
            },
            Some(TokenKind::Gosub) => {
                self.next();
                self.parse_jump(true)
            },
            Some(TokenKind::Setenv) => {
                self.next();
                self.parse_setenv(false)
            },
            Some(TokenKind::Exportenv) => {
                self.next();
                self.parse_setenv(true)
            },
            Some(TokenKind::Shell) => {
                self.next();
                self.parse_expr_then(false)
            },
            Some(TokenKind::Exit) => {
                self.next();
                self.parse_exit()
            },
            Some(TokenKind::Stop) => {
                self.next();
                self.finish_with(Stmt::Stop)
            },
            Some(TokenKind::Raise) => {
                self.next();
                self.parse_raise(c)
            },
            Some(TokenKind::Let) => {
                self.next();
                self.parse_let()
            },
            Some(TokenKind::Print) => {
                self.next();
                self.parse_print(false)
            },
            Some(TokenKind::Println) => {
                self.next();
                self.parse_print(true)
            },
            Some(TokenKind::Describe) => {
                self.next();
                self.parse_expr_then(true)
            },
            Some(TokenKind::Exec) => {
                self.next();
                self.parse_exec()
            },
            Some(TokenKind::Return) => {
                self.next();
                self.parse_return()
            },
            Some(TokenKind::If) => {
                self.next();
                self.parse_if(c)
            },
            Some(TokenKind::While) => {
                self.next();
                self.parse_while(c)
            },
            Some(TokenKind::Break) => {
                self.next();
                self.finish_with(Stmt::Break)
            },
            Some(TokenKind::Continue) => {
                self.next();
                self.finish_with(Stmt::Continue)
            },
            Some(TokenKind::LBrace) => {
                self.next();
                self.parse_block(c, Closer::Brace, "unterminated brace block")
            },
            Some(TokenKind::Begin) => {
                self.next();
                self.parse_block(c, Closer::BeginEnd, "unterminated BEGIN/END")
            },
            Some(TokenKind::Type) => {
                self.next();
                self.parse_type()
            },
            Some(TokenKind::For) => {
                self.next();
                self.parse_for(c)
            },
            Some(TokenKind::Dim) => {
                self.next();
                self.parse_dim()
            },
            Some(TokenKind::Ident) => self.parse_ident_stmt(),
            _ => self.parse_expr_stmt(),
        }
    }

    /// The optional ELSE after the brace form of IF.
    #[verifier::rlimit(60)]
    #[verifier::spinoff_prover]
    fn parse_brace_else(&mut self, c: usize) -> (r: Result<Option<Box<Stmt>>, BasilError>)
        requires
            old(self).wf(),
            c as int <= old(self).pos(),
        ensures
            final(self).wf(),
            final(self).toks() == old(self).toks(),
            match brace_else(old(self).toks(), old(self).pos(), c as nat) {
                Ok((eb, e)) => r matches Ok(x) && opt_box_view(x) == eb && final(self).pos() == e,
                Err(m) => r matches Err(x) && x.0@ == m,
            },
            r is Ok ==> old(self).pos() <= final(self).pos(),
        decreases old(self).toks().len() - old(self).pos(), 4int,
    {
        if !self.match_k(TokenKind::Else) {
            return Ok(None);
        }
        proof {
            lemma_skip_terms(self.toks(), self.pos());
        }
        self.skip_terms_here();
        let s = if self.check(TokenKind::If) {
            self.parse_stmt(c)
        } else if self.match_k(TokenKind::LBrace) {
            self.parse_block(c, Closer::Brace, "unterminated ELSE { ... }")
        } else if self.match_k(TokenKind::Begin) {
            self.parse_block(c, Closer::BeginEnd, "unterminated ELSE BEGIN/END")
        } else {
            self.parse_stmt(c)
        };
        match s {
            Ok(s) => Ok(Some(Box::new(s))),
            Err(e) => Err(e),
        }
    }

    /// IF in its brace, block and single-statement forms, after the keyword.
    #[verifier::rlimit(60)]
    #[verifier::spinoff_prover]
    fn parse_if(&mut self, c: usize) -> (r: Result<Stmt, BasilError>)
        requires
            old(self).wf(),
            c as int <= old(self).pos(),
        ensures
            final(self).wf(),
            final(self).toks() == old(self).toks(),
            stmt_result(if_stmt(old(self).toks(), old(self).pos(), c as nat), r, final(self).pos()),
            r is Ok ==> old(self).pos() <= final(self).pos(),
        decreases old(self).toks().len() - old(self).pos(), 8int,
    {
        let cond = match self.parse_expr_bp(0) {
            Ok(e) => e,
            Err(e) => return Err(e),
        };
        if self.match_k(TokenKind::LBrace) {
            return self.parse_if_brace(c, cond);
        }
        match self.expect(TokenKind::Then) {
            Ok(()) => {},
            Err(e) => return Err(e),
        }
        proof {
            lemma_skip_terms(self.toks(), self.pos());
        }
        self.skip_terms_here();
        if self.match_k(TokenKind::Begin) {
            self.parse_if_block(c, cond)
        } else {
            self.parse_if_simple(c, cond)
        }
    }

    #[verifier::rlimit(60)]
    #[verifier::spinoff_prover]
    fn parse_if_brace(&mut self, c: usize, cond: Expr) -> (r: Result<Stmt, BasilError>)
        requires
            old(self).wf(),
            c as int <= old(self).pos(),
        ensures
            final(self).wf(),
            final(self).toks() == old(self).toks(),
            stmt_result(if_brace(old(self).toks(), old(self).pos(), c as nat, expr_view(cond)), r, final(self).pos()),
            r is Ok ==> old(self).pos() <= final(self).pos(),
        decreases old(self).toks().len() - old(self).pos(), 8int,
    {
        let tb = match self.parse_block(c, Closer::Brace, "unterminated IF { ... }") {
            Ok(b) => b,
            Err(e) => return Err(e),
        };
        let eb = match self.parse_brace_else(c) {
            Ok(b) => b,
            Err(e) => return Err(e),
        };
        Ok(Stmt::If { cond, then_branch: Box::new(tb), else_branch: eb })
    }

    #[verifier::rlimit(60)]
    fn parse_if_block(&mut self, c: usize, cond: Expr) -> (r: Result<Stmt, BasilError>)
        requires
            old(self).wf(),
            c as int <= old(self).pos(),
        ensures
            final(self).wf(),
            final(self).toks() == old(self).toks(),
            stmt_result(if_block(old(self).toks(), old(self).pos(), c as nat, expr_view(cond)), r, final(self).pos()),
            r is Ok ==> old(self).pos() <= final(self).pos(),
        decreases old(self).toks().len() - old(self).pos(), 8int,
    {
        let tb = match self.parse_block(c, Closer::ElseOrEnd, "unterminated IF THEN BEGIN ...") {
            Ok(b) => b,
            Err(e) => return Err(e),
        };
        if self.match_k(TokenKind::Else) {
            proof {
                lemma_skip_terms(self.toks(), self.pos());
            }
            self.skip_terms_here();
            if self.match_k(TokenKind::Begin) {
                let eb = match self.parse_block(c, Closer::BeginEnd, "unterminated ELSE BEGIN/END") {
                    Ok(b) => b,
                    Err(e) => return Err(e),
                };
                return Ok(Stmt::If { cond, then_branch: Box::new(tb), else_branch: Some(Box::new(eb)) });
            }
            let s = match self.parse_stmt(c) {
                Ok(s) => s,
                Err(e) => return Err(e),
            };
            proof {
                lemma_skip_terms(self.toks(), self.pos());
            }
            self.skip_terms_here();
            match self.end_any_here() {
                Ok(()) => {},
                Err(e) => return Err(e),
            }
            return Ok(Stmt::If { cond, then_branch: Box::new(tb), else_branch: Some(Box::new(s)) });
        }
        proof {
            lemma_skip_terms(self.toks(), self.pos());
        }
        self.skip_terms_here();
        match self.end_any_here() {
            Ok(()) => {},
            Err(e) => return Err(e),
        }
        Ok(Stmt::If { cond, then_branch: Box::new(tb), else_branch: None })
    }

    #[verifier::rlimit(60)]
    #[verifier::spinoff_prover]
    fn parse_if_simple(&mut self, c: usize, cond: Expr) -> (r: Result<Stmt, BasilError>)
        requires
            old(self).wf(),
            c as int <= old(self).pos(),
        ensures
            final(self).wf(),
            final(self).toks() == old(self).toks(),
            stmt_result(if_simple(old(self).toks(), old(self).pos(), c as nat, expr_view(cond)), r, final(self).pos()),
            r is Ok ==> old(self).pos() <= final(self).pos(),
        decreases old(self).toks().len() - old(self).pos(), 8int,
    {
        let tl = self.peek_line();
        let ts = match self.parse_stmt(c) {
            Ok(s) => s,
            Err(e) => return Err(e),
        };
        let then_s = lined_block(tl, ts);
        if self.match_k(TokenKind::Else) {
            let el = self.peek_line();
            let es = match self.parse_stmt(c) {
                Ok(s) => s,
                Err(e) => return Err(e),
            };
            return Ok(Stmt::If { cond, then_branch: Box::new(then_s), else_branch: Some(Box::new(lined_block(el, es))) });
        }
        Ok(Stmt::If { cond, then_branch: Box::new(then_s), else_branch: None })
    }

    /// WHILE cond BEGIN ... END or WHILE cond { ... }, after the keyword.
    #[verifier::rlimit(60)]
    #[verifier::spinoff_prover]
    fn parse_while(&mut self, c: usize) -> (r: Result<Stmt, BasilError>)
        requires
            old(self).wf(),
            c as int <= old(self).pos(),
        ensures
            final(self).wf(),
            final(self).toks() == old(self).toks(),
            stmt_result(while_stmt(old(self).toks(), old(self).pos(), c as nat), r, final(self).pos()),
            r is Ok ==> old(self).pos() <= final(self).pos(),
        decreases old(self).toks().len() - old(self).pos(), 8int,
    {
        let cond = match self.parse_expr_bp(0) {
            Ok(e) => e,
            Err(e) => return Err(e),
        };
        let b = if self.match_k(TokenKind::Begin) {
            self.parse_block(c, Closer::BeginEnd, "unterminated WHILE BEGIN/END")
        } else if self.match_k(TokenKind::LBrace) {
            self.parse_block(c, Closer::Brace, "unterminated WHILE { ... }")
        } else {
            Err(BasilError(string_of("Expected 'BEGIN' or '{' after WHILE condition")))
        };
        match b {
            Ok(b) => Ok(Stmt::While { cond, body: Box::new(b) }),
            Err(e) => Err(e),
        }
    }

    /// The body of FOR or FOR EACH.
    #[verifier::rlimit(60)]
    #[verifier::spinoff_prover]
    fn parse_loop_body(&mut self, c: usize, each: bool) -> (r: Result<Stmt, BasilError>)
        requires
            old(self).wf(),
            c as int <= old(self).pos(),
        ensures
            final(self).wf(),
            final(self).toks() == old(self).toks(),
            stmt_result(loop_body(old(self).toks(), old(self).pos(), c as nat, each), r, final(self).pos()),
            r is Ok ==> old(self).pos() <= final(self).pos(),
        decreases old(self).toks().len() - old(self).pos(), 8int,
    {
        if self.match_k(TokenKind::Begin) {
            if each {
                self.parse_block(c, Closer::BareEnd, "unterminated FOR EACH BEGIN/END")
            } else {
                self.parse_block(c, Closer::BareEnd, "unterminated FOR BEGIN/END")
            }
        } else if self.match_k(TokenKind::LBrace) {
            if each {
                self.parse_block(c, Closer::Brace, "unterminated FOR EACH { ... }")
            } else {
                self.parse_block(c, Closer::Brace, "unterminated FOR { ... }")
            }
        } else {
            let l = self.peek_line();
            match self.parse_stmt(c) {
                Ok(s) => Ok(lined_block(l, s)),
                Err(e) => Err(e),
            }
        }
    }

    /// NEXT, an optional name, and an optional separator.
    fn next_clause_here(&mut self) -> (r: Result<(), BasilError>)
        requires
            old(self).wf(),
        ensures
            final(self).wf(),
            final(self).toks() == old(self).toks(),
            match next_clause(old(self).toks(), old(self).pos()) {
                Ok(e) => r is Ok && final(self).pos() == e,
                Err(m) => r matches Err(x) && x.0@ == m,
            },
            r is Ok ==> old(self).pos() <= final(self).pos(),
    {
        proof {
            lemma_skip_terms(self.toks(), self.pos());
        }
        self.skip_terms_here();
        match self.expect(TokenKind::Next) {
            Ok(()) => {},
            Err(e) => return Err(e),
        }
        if self.check(TokenKind::Ident) {
            self.next();
        }
        self.opt_terminate_here();
        Ok(())
    }

    /// FOR EACH var IN expr ... NEXT, or FOR var = start TO end [STEP step] ... NEXT.
    #[verifier::rlimit(60)]
    #[verifier::spinoff_prover]
    fn parse_for(&mut self, c: usize) -> (r: Result<Stmt, BasilError>)
        requires
            old(self).wf(),
            c as int <= old(self).pos(),
        ensures
            final(self).wf(),
            final(self).toks() == old(self).toks(),
            stmt_result(for_stmt(old(self).toks(), old(self).pos(), c as nat), r, final(self).pos()),
            r is Ok ==> old(self).pos() <= final(self).pos(),
        decreases old(self).toks().len() - old(self).pos(), 8int,
    {
        if self.match_k(TokenKind::Each) {
            let var = match self.expect_ident() {
                Ok(n) => n,
                Err(e) => return Err(e),
            };
            match self.expect(TokenKind::In) {
                Ok(()) => {},
                Err(e) => return Err(e),
            }
            let enumerable = match self.parse_expr_bp(0) {
                Ok(e) => e,
                Err(e) => return Err(e),
            };
            let b = match self.parse_loop_body(c, true) {
                Ok(b) => b,
                Err(e) => return Err(e),
            };
            match self.next_clause_here() {
                Ok(()) => {},
                Err(e) => return Err(e),
            }
            return Ok(Stmt::ForEach { var, enumerable, body: Box::new(b) });
        }
        let var = match self.expect_ident() {
            Ok(n) => n,
            Err(e) => return Err(e),
        };
        match self.expect(TokenKind::Assign) {
            Ok(()) => {},
            Err(e) => return Err(e),
        }
        let start = match self.parse_expr_bp(0) {
            Ok(e) => e,
            Err(e) => return Err(e),
        };
        match self.expect(TokenKind::To) {
            Ok(()) => {},
            Err(e) => return Err(e),
        }
        let end = match self.parse_expr_bp(0) {
            Ok(e) => e,
            Err(e) => return Err(e),
        };
        let step = if self.match_k(TokenKind::Step) {
            match self.parse_expr_bp(0) {
                Ok(e) => Some(e),
                Err(e) => return Err(e),
            }
        } else {
            None
        };
        let b = match self.parse_loop_body(c, false) {
            Ok(b) => b,
            Err(e) => return Err(e),
        };
        match self.next_clause_here() {
            Ok(()) => {},
            Err(e) => return Err(e),
        }
        Ok(Stmt::For { var, start, end, step, body: Box::new(b) })
    }

    /// WITH target ... END WITH, after the keyword.
    #[verifier::rlimit(60)]
    #[verifier::spinoff_prover]
    fn parse_with(&mut self, c: usize) -> (r: Result<Stmt, BasilError>)
        requires
            old(self).wf(),
            c as int <= old(self).pos(),
        ensures
            final(self).wf(),
            final(self).toks() == old(self).toks(),
            stmt_result(with_stmt(old(self).toks(), old(self).pos(), c as nat), r, final(self).pos()),
            r is Ok ==> old(self).pos() <= final(self).pos(),
        decreases old(self).toks().len() - old(self).pos(), 8int,
    {
        let target = match self.parse_expr_bp(0) {
            Ok(e) => e,
            Err(e) => return Err(e),
        };
        let ghost t = self.toks();
        let ghost m = self.pos();
        let mut b: Vec<Stmt> = Vec::new();
        match self.parse_body(c, Closer::EndWith, "Expected 'END WITH' to terminate WITH block.", false, &mut b) {
            Ok(()) => {},
            Err(e) => return Err(e),
        }
        assert(stmts_view(Seq::<Stmt>::empty()) + body(
            t,
            m,
            c as nat,
            Closer::EndWith,
            "Expected 'END WITH' to terminate WITH block."@,
            false,
        )->Ok_0.0 =~= body(t, m, c as nat, Closer::EndWith, "Expected 'END WITH' to terminate WITH block."@, false)->Ok_0.0);
        Ok(Stmt::With { target, body: b })
    }

    /// The CATCH and FINALLY sections of a TRY.
    fn parse_try_sections(&mut self, c: usize, saw_catch: bool, saw_finally: bool) -> (r: Result<
        (Option<String>, Option<Vec<Stmt>>, Option<Vec<Stmt>>),
        BasilError,
    >)
        requires
            old(self).wf(),
            c as int <= old(self).pos(),
        ensures
            final(self).wf(),
            final(self).toks() == old(self).toks(),
            match try_sections(old(self).toks(), old(self).pos(), c as nat, saw_catch, saw_finally) {
                Ok(((v, cb, fb), e)) => r matches Ok((rv, rcb, rfb)) && opt_string_view(rv) == v && opt_body_view(rcb)
                    == cb && opt_body_view(rfb) == fb && final(self).pos() == e,
                Err(m) => r matches Err(x) && x.0@ == m,
            },
            r is Ok ==> old(self).pos() <= final(self).pos(),
        decreases old(self).toks().len() - old(self).pos(), 4int,
    {
        let ghost t = self.toks();
        proof {
            lemma_skip_terms(self.toks(), self.pos());
        }
        self.skip_terms_here();
        let ghost j = self.pos();
        if self.match_k(TokenKind::Catch) {
            if saw_catch {
                return Err(BasilError(string_of("Only one CATCH block is allowed per TRY.")));
            }
            let var = if self.check(TokenKind::Ident) {
                let n = self.lexeme_here();
                self.next();
                if !str_ends_with(n.as_str(), '$') {
                    return Err(BasilError(string_of("CATCH variable must be a string (use '$' suffix).")));
                }
                Some(n)
            } else {
                None
            };
            let ghost k = self.pos();
            let here = self.mark();
            let mut cb: Vec<Stmt> = Vec::new();
            match self.parse_body(c + 1, Closer::FinallyOrEnd, "Expected 'END TRY' to terminate TRY block.", false, &mut cb) {
                Ok(()) => {},
                Err(e) => return Err(e),
            }
            assert(stmts_view(Seq::<Stmt>::empty()) + body(t, k, (c + 1) as nat, Closer::FinallyOrEnd, try_msg(), false)->Ok_0.0
                =~= body(t, k, (c + 1) as nat, Closer::FinallyOrEnd, try_msg(), false)->Ok_0.0);
            let rest = self.parse_try_sections(c, true, saw_finally);
            return match rest {
                Ok((_, _, fb)) => Ok((var, Some(cb), fb)),
                Err(e) => Err(e),
            };
        }
        if self.match_k(TokenKind::Finally) {
            if saw_finally {
                return Err(BasilError(string_of("Only one FINALLY block is allowed per TRY.")));
            }
            let ghost k = self.pos();
            let mut fb: Vec<Stmt> = Vec::new();
            match self.parse_body(c, Closer::CatchOrEnd, "Expected 'END TRY' to terminate TRY block.", false, &mut fb) {
                Ok(()) => {},
                Err(e) => return Err(e),
            }
            assert(stmts_view(Seq::<Stmt>::empty()) + body(t, k, c as nat, Closer::CatchOrEnd, try_msg(), false)->Ok_0.0
                =~= body(t, k, c as nat, Closer::CatchOrEnd, try_msg(), false)->Ok_0.0);
            let rest = self.parse_try_sections(c, saw_catch, true);
            return match rest {
                Ok((var, cb, _)) => Ok((var, cb, Some(fb))),
                Err(e) => Err(e),
            };
        }
        Ok((None, None, None))
    }

    /// TRY ... [CATCH [err$] ...] [FINALLY ...] END TRY, after the keyword.
    #[verifier::rlimit(60)]
    #[verifier::spinoff_prover]
    fn parse_try(&mut self, c: usize) -> (r: Result<Stmt, BasilError>)
        requires
            old(self).wf(),
            c as int <= old(self).pos(),
        ensures
            final(self).wf(),
            final(self).toks() == old(self).toks(),
            stmt_result(try_stmt(old(self).toks(), old(self).pos(), c as nat), r, final(self).pos()),
            r is Ok ==> old(self).pos() <= final(self).pos(),
        decreases old(self).toks().len() - old(self).pos(), 8int,
    {
        let ghost t = self.toks();
        let ghost k = self.pos();
        let mut tb: Vec<Stmt> = Vec::new();
        match self.parse_body(c, Closer::TrySections, "Expected 'END TRY' to terminate TRY block.", false, &mut tb) {
            Ok(()) => {},
            Err(e) => return Err(e),
        }
        assert(stmts_view(Seq::<Stmt>::empty()) + body(t, k, c as nat, Closer::TrySections, try_msg(), false)->Ok_0.0
            =~= body(t, k, c as nat, Closer::TrySections, try_msg(), false)->Ok_0.0);
        let (var, cb, fb) = match self.parse_try_sections(c, false, false) {
            Ok(x) => x,
            Err(e) => return Err(e),
        };
        if cb.is_none() && fb.is_none() {
            return Err(BasilError(string_of("TRY must contain a CATCH or FINALLY block.")));
        }
        if !self.check(TokenKind::End) {
            return Err(self.expected_here(TokenKind::End));
        }
        self.next();
        proof {
            lemma_skip_terms(self.toks(), self.pos());
        }
        self.skip_terms_here();
        if !self.match_k(TokenKind::Try) {
            return Err(BasilError(string_of("Expected 'END TRY' to terminate TRY block.")));
        }
        Ok(Stmt::Try { try_body: tb, catch_var: var, catch_body: cb, finally_body: fb })
    }

    /// The arms of a SELECT CASE, appended to `out`, and its CASE ELSE body.
    #[verifier::rlimit(100)]
    fn parse_select_arms(&mut self, c: usize, brace: bool, saw_else: bool, out: &mut Vec<CaseArm>) -> (r: Result<
        Option<Vec<Stmt>>,
        BasilError,
    >)
        requires
            old(self).wf(),
            c as int <= old(self).pos(),
        ensures
            final(self).wf(),
            final(self).toks() == old(self).toks(),
            match select_arms(old(self).toks(), old(self).pos(), c as nat, brace, saw_else) {
                Ok(((arms, eb), e)) => r matches Ok(x) && arms_view(final(out)@) == arms_view(old(out)@) + arms
                    && opt_body_view(x) == eb && final(self).pos() == e,
                Err(m) => r matches Err(x) && x.0@ == m,
            },
            r is Ok ==> old(self).pos() <= final(self).pos(),
        decreases old(self).toks().len() - old(self).pos(), 8int,
    {
        let ghost t = self.toks();
        let ghost out0 = out@;
        proof {
            lemma_skip_terms(self.toks(), self.pos());
        }
        self.skip_terms_here();
        let ghost j = self.pos();
        if brace && self.check(TokenKind::RBrace) {
            self.next();
            assert(arms_view(out@) + Seq::<CaseArmView>::empty() =~= arms_view(out@));
            return Ok(None);
        }
        if !brace && self.check(TokenKind::End) {
            self.next();
            if self.check(TokenKind::Select) {
                self.next();
            }
            assert(arms_view(out@) + Seq::<CaseArmView>::empty() =~= arms_view(out@));
            return Ok(None);
        }
        let msg = if brace {
            "Expected '}' to terminate SELECT CASE body."
        } else {
            "Expected 'END' or 'END SELECT' to terminate SELECT CASE block."
        };
        if self.check(TokenKind::Eof) {
            return Err(BasilError(string_of(msg)));
        }
        if self.match_k(TokenKind::Case) {
            return self.parse_select_case(c, brace, saw_else, out);
        }
        if brace {
            Err(BasilError(string_of("Expected 'CASE' or '}' inside SELECT CASE.")))
        } else {
            Err(BasilError(string_of(msg)))
        }
    }

    /// What follows CASE: the CASE ELSE body or one arm, then the other arms.
    #[verifier::rlimit(60)]
    #[verifier::spinoff_prover]
    fn parse_select_case(&mut self, c: usize, brace: bool, saw_else: bool, out: &mut Vec<CaseArm>) -> (r: Result<
        Option<Vec<Stmt>>,
        BasilError,
    >)
        requires
            old(self).wf(),
            c as int <= old(self).pos(),
        ensures
            final(self).wf(),
            final(self).toks() == old(self).toks(),
            match select_case(old(self).toks(), old(self).pos(), c as nat, brace, saw_else) {
                Ok(((arms, eb), e)) => r matches Ok(x) && arms_view(final(out)@) == arms_view(old(out)@) + arms
                    && opt_body_view(x) == eb && final(self).pos() == e,
                Err(m) => r matches Err(x) && x.0@ == m,
            },
            r is Ok ==> old(self).pos() <= final(self).pos(),
        decreases old(self).toks().len() - old(self).pos(), 9int,
    {
        let ghost t = self.toks();
        if self.match_k(TokenKind::Else) {
            if saw_else {
                return Err(BasilError(string_of("Only one CASE ELSE is allowed.")));
            }
            let msg = if brace {
                "Expected '}' to terminate SELECT CASE body."
            } else {
                "Expected 'END' or 'END SELECT' to terminate SELECT CASE block."
            };
            let stop = if brace {
                Closer::CaseOrBrace
            } else {
                Closer::EndOrCase
            };
            let ghost k = self.pos();
            let mut b: Vec<Stmt> = Vec::new();
            match self.parse_body(c, stop, msg, false, &mut b) {
                Ok(()) => {},
                Err(e) => return Err(e),
            }
            assert(stmts_view(Seq::<Stmt>::empty()) + body(t, k, c as nat, stop, msg@, false)->Ok_0.0 =~= body(
                t,
                k,
                c as nat,
                stop,
                msg@,
                false,
            )->Ok_0.0);
            return match self.parse_select_arms(c, brace, true, out) {
                Ok(_) => Ok(Some(b)),
                Err(e) => Err(e),
            };
        }
        let arm = match self.parse_case_arm(c, brace) {
            Ok(a) => a,
            Err(e) => return Err(e),
        };
        let ghost av = CaseArmView { patterns: patterns_view(arm.patterns@), body: stmts_view(arm.body@) };
        let ghost before = out@;
        proof {
            lemma_arms_view_push(before, arm);
        }
        out.push(arm);
        let ghost m = self.pos();
        let r = self.parse_select_arms(c, brace, saw_else, out);
        proof {
            if let Ok(((rest, eb), e)) = select_arms(t, m, c as nat, brace, saw_else) {
                assert(arms_view(before).push(av) + rest =~= arms_view(before) + (seq![av] + rest));
            }
        }
        r
    }

    /// One CASE arm after CASE.
    #[verifier::rlimit(60)]
    #[verifier::spinoff_prover]
    fn parse_case_arm(&mut self, c: usize, brace: bool) -> (r: Result<CaseArm, BasilError>)
        requires
            old(self).wf(),
            c as int <= old(self).pos(),
        ensures
            final(self).wf(),
            final(self).toks() == old(self).toks(),
            match case_arm(old(self).toks(), old(self).pos(), c as nat, brace) {
                Ok((a, e)) => r matches Ok(x) && CaseArmView {
                    patterns: patterns_view(x.patterns@),
                    body: stmts_view(x.body@),
                } == a && final(self).pos() == e,
                Err(m) => r matches Err(x) && x.0@ == m,
            },
            r is Ok ==> old(self).pos() < final(self).pos(),
        decreases old(self).toks().len() - old(self).pos(), 8int,
    {
        let ghost t = self.toks();
        let ghost pk = self.pos();
        let mut pats: Vec<CasePattern> = Vec::new();
        match self.parse_case_patterns(&mut pats) {
            Ok(()) => {},
            Err(e) => return Err(e),
        }
        assert(patterns_view(Seq::<CasePattern>::empty()) + case_patterns(t, pk)->Ok_0.0 =~= case_patterns(
            t,
            pk,
        )->Ok_0.0);
        let ghost k = self.pos();
        let msg = if brace {
            "Expected '}' to terminate SELECT CASE body."
        } else {
            "Expected 'END' or 'END SELECT' to terminate SELECT CASE block."
        };
        let stop = if brace {
            Closer::CaseOrBrace
        } else {
            Closer::EndOrCase
        };
        let mut b: Vec<Stmt> = Vec::new();
        match self.parse_body(c, stop, msg, false, &mut b) {
            Ok(()) => {},
            Err(e) => return Err(e),
        }
        assert(stmts_view(Seq::<Stmt>::empty()) + body(t, k, c as nat, stop, msg@, false)->Ok_0.0 =~= body(
            t,
            k,
            c as nat,
            stop,
            msg@,
            false,
        )->Ok_0.0);
        Ok(CaseArm { patterns: pats, body: b })
    }

    /// SELECT CASE selector and its arms, after SELECT.
    #[verifier::rlimit(60)]
    #[verifier::spinoff_prover]
    fn parse_select(&mut self, c: usize) -> (r: Result<Stmt, BasilError>)
        requires
            old(self).wf(),
            c as int <= old(self).pos(),
        ensures
            final(self).wf(),
            final(self).toks() == old(self).toks(),
            stmt_result(select_stmt(old(self).toks(), old(self).pos(), c as nat), r, final(self).pos()),
            r is Ok ==> old(self).pos() <= final(self).pos(),
        decreases old(self).toks().len() - old(self).pos(), 8int,
    {
        match self.expect(TokenKind::Case) {
            Ok(()) => {},
            Err(e) => return Err(e),
        }
        let selector = match self.parse_expr_bp(0) {
            Ok(e) => e,
            Err(e) => return Err(e),
        };
        proof {
            lemma_skip_terms(self.toks(), self.pos());
        }
        self.skip_terms_here();
        let brace = self.match_k(TokenKind::LBrace);
        let ghost t = self.toks();
        let ghost p = self.pos();
        let mut arms: Vec<CaseArm> = Vec::new();
        let else_body = match self.parse_select_arms(c, brace, false, &mut arms) {
            Ok(eb) => eb,
            Err(e) => return Err(e),
        };
        assert(arms_view(Seq::<CaseArm>::empty()) + select_arms(t, p, c as nat, brace, false)->Ok_0.0.0 =~= select_arms(
            t,
            p,
            c as nat,
            brace,
            false,
        )->Ok_0.0.0);
        Ok(Stmt::SelectCase { selector, arms, else_body })
    }

    /// FUNC or SUB name(params) and its body, after the keyword.
    #[verifier::rlimit(60)]
    #[verifier::spinoff_prover]
    fn parse_func(&mut self, c: usize, kind: FuncKind) -> (r: Result<Stmt, BasilError>)
        requires
            old(self).wf(),
            c as int <= old(self).pos(),
        ensures
            final(self).wf(),
            final(self).toks() == old(self).toks(),
            stmt_result(func_stmt(old(self).toks(), old(self).pos(), c as nat, kind), r, final(self).pos()),
            r is Ok ==> old(self).pos() <= final(self).pos(),
        decreases old(self).toks().len() - old(self).pos(), 8int,
    {
        let name = match self.expect_ident() {
            Ok(n) => n,
            Err(e) => return Err(e),
        };
        match self.expect(TokenKind::LParen) {
            Ok(()) => {},
            Err(e) => return Err(e),
        }
        let ps = match self.parse_params() {
            Ok(ps) => ps,
            Err(e) => return Err(e),
        };
        proof {
            lemma_skip_terms(self.toks(), self.pos());
        }
        self.skip_terms_here();
        let ghost t = self.toks();
        let (cl, msg) = if self.match_k(TokenKind::LBrace) {
            (Closer::Brace, "unterminated function body: expected '}'")
        } else if self.match_k(TokenKind::Begin) {
            (Closer::BeginEnd, "unterminated function body: expected 'END'")
        } else {
            (Closer::FuncEnd, "unterminated function body")
        };
        let ghost k = self.pos();
        let mut b: Vec<Stmt> = Vec::new();
        let r = self.parse_body(c, cl, msg, true, &mut b);
        assert(stmts_view(Seq::<Stmt>::empty()) + body(t, k, c as nat, cl, msg@, true)->Ok_0.0 =~= body(
            t,
            k,
            c as nat,
            cl,
            msg@,
            true,
        )->Ok_0.0);
        match r {
            Ok(()) => Ok(Stmt::Func { kind, name, params: ps, body: b }),
            Err(e) => Err(e),
        }
    }

    /// The statements of a program from the parser's position up to the end of
    /// input, each after the marker of its line.
    pub fn parse_program(&mut self) -> (r: Result<Vec<Stmt>, BasilError>)
        requires
            old(self).wf(),
        ensures
            final(self).wf(),
            final(self).toks() == old(self).toks(),
            match body(old(self).toks(), old(self).pos(), 0, Closer::Input, ""@, false) {
                Ok((b, _)) => r matches Ok(v) && stmts_view(v@) == b,
                Err(m) => r matches Err(e) && e.0@ == m,
            },
    {
        let ghost t = self.toks();
        let ghost p = self.pos();
        let mut out: Vec<Stmt> = Vec::new();
        match self.parse_body(0, Closer::Input, "", false, &mut out) {
            Ok(()) => {},
            Err(e) => return Err(e),
        }
        assert(stmts_view(Seq::<Stmt>::empty()) + body(t, p, 0, Closer::Input, ""@, false)->Ok_0.0 =~= body(
            t,
            p,
            0,
            Closer::Input,
            ""@,
            false,
        )->Ok_0.0);
        Ok(out)
    }
}

/// Parses a Basil program: its tokens, then its statements, each after the marker of
/// its line. A `str` holds at most `isize::MAX` bytes.
pub fn parse(src: &str) -> (r: Result<Vec<Stmt>, BasilError>)
    requires
        byte_len(src@) <= isize::MAX,
    ensures
        match parsed(src@) {
            Ok(ss) => r matches Ok(v) && stmts_view(v@) == ss,
            Err(m) => r matches Err(e) && e.0@ == m,
        },
{
    let mut lx = Lexer::new(src);
    let tokens = match lx.tokenize() {
        Ok(ts) => ts,
        Err(e) => return Err(e),
    };
    let mut p = Parser::new(tokens);
    p.parse_program()
}

} // verus!

verus! {

/// The statements of a body come in pairs: a line marker, then the statement.
pub open spec fn marked_pairs(ss: Seq<StmtView>) -> bool {
    &&& ss.len() % 2 == 0
    &&& forall|k: int| 0 <= k < ss.len() && k % 2 == 0 ==> #[trigger] ss[k] is Line
}

#[verifier::spinoff_prover]
#[verifier::rlimit(60)]
proof fn lemma_body_marked(toks: Seq<TokenView>, i: int, c: nat, cl: Closer, msg: Seq<char>, with_line: bool)
    requires
        0 <= i <= toks.len(),
    ensures
        body(toks, i, c, cl, msg, with_line) matches Ok((ss, _)) ==> marked_pairs(ss),
    decreases toks.len() - i,
{
    let j = skip_terms(toks, i);
    lemma_skip_terms(toks, i);
    if closes(toks, j, cl) is None && !at_kind(toks, j, TokenKind::Eof) {
        if let Ok((s, k)) = stmt(toks, j, c) {
            if j < k <= toks.len() {
                lemma_body_marked(toks, k, c, cl, msg, with_line);
                if let Ok((rest, m)) = body(toks, k, c, cl, msg, with_line) {
                    let ss = seq![StmtView::Line(line_of(toks, j)), s] + rest;
                    assert forall|q: int| 0 <= q < ss.len() && q % 2 == 0 implies #[trigger] ss[q] is Line by {
                        if q >= 2 {
                            assert(ss[q] == rest[q - 2]);
                        }
                    }
                }
            }
        }
    } else {
        assert(marked_pairs(Seq::<StmtView>::empty()));
    }
}

/// In a program that parses, each statement comes right after the marker of its
/// line: the statements come in pairs, a `Line` marker first.
pub proof fn law_statements_follow_line_markers(src: Seq<char>)
    ensures
        parsed(src) matches Ok(ss) ==> marked_pairs(ss),
{
    if let Ok(ts) = tokens_of(src) {
        lemma_body_marked(ts, 0, 0, Closer::Input, ""@, false);
    }
}

} // verus!
