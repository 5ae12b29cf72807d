use vstd::prelude::*;

use crate::ast::{entries_view, expr_view, exprs_view, BinOp, Expr, ExprView};
use crate::common::BasilError;
use crate::compiler::source_meaning;
use crate::lexer::{tokens_view, LitView, Literal, Token, TokenKind, TokenView};
use crate::text::{decimal, push_decimal, push_str, string_of};

verus! {

// ---------------------------------------------------------------------
// Tokens as the parser sees them

/// The name under which a token kind is printed.
pub open spec fn kind_name(k: TokenKind) -> Seq<char> {
    match k {
        TokenKind::LParen => "LParen"@,
        TokenKind::RParen => "RParen"@,
        TokenKind::LBrace => "LBrace"@,
        TokenKind::RBrace => "RBrace"@,
        TokenKind::LBracket => "LBracket"@,
        TokenKind::RBracket => "RBracket"@,
        TokenKind::Comma => "Comma"@,
        TokenKind::Semicolon => "Semicolon"@,
        TokenKind::Colon => "Colon"@,
        TokenKind::Plus => "Plus"@,
        TokenKind::Minus => "Minus"@,
        TokenKind::Star => "Star"@,
        TokenKind::Slash => "Slash"@,
        TokenKind::Dot => "Dot"@,
        TokenKind::Mod => "Mod"@,
        TokenKind::Lt => "Lt"@,
        TokenKind::Gt => "Gt"@,
        TokenKind::Assign => "Assign"@,
        TokenKind::EqEq => "EqEq"@,
        TokenKind::BangEq => "BangEq"@,
        TokenKind::LtEq => "LtEq"@,
        TokenKind::GtEq => "GtEq"@,
        TokenKind::Ident => "Ident"@,
        TokenKind::Number => "Number"@,
        TokenKind::String => "String"@,
        TokenKind::Func => "Func"@,
        TokenKind::Return => "Return"@,
        TokenKind::If => "If"@,
        TokenKind::Then => "Then"@,
        TokenKind::Else => "Else"@,
        TokenKind::While => "While"@,
        TokenKind::Do => "Do"@,
        TokenKind::Begin => "Begin"@,
        TokenKind::End => "End"@,
        TokenKind::With => "With"@,
        TokenKind::Break => "Break"@,
        TokenKind::Continue => "Continue"@,
        TokenKind::Let => "Let"@,
        TokenKind::Print => "Print"@,
        TokenKind::Println => "Println"@,
        TokenKind::True => "True"@,
        TokenKind::False => "False"@,
        TokenKind::Null => "Null"@,
        TokenKind::And => "And"@,
        TokenKind::Or => "Or"@,
        TokenKind::Not => "Not"@,
        TokenKind::Author => "Author"@,
        TokenKind::For => "For"@,
        TokenKind::To => "To"@,
        TokenKind::Step => "Step"@,
        TokenKind::Next => "Next"@,
        TokenKind::Each => "Each"@,
        TokenKind::In => "In"@,
        TokenKind::Foreach => "Foreach"@,
        TokenKind::Endfor => "Endfor"@,
        TokenKind::Dim => "Dim"@,
        TokenKind::As => "As"@,
        TokenKind::Describe => "Describe"@,
        TokenKind::New => "New"@,
        TokenKind::Class => "Class"@,
        TokenKind::Type => "Type"@,
        TokenKind::Select => "Select"@,
        TokenKind::Case => "Case"@,
        TokenKind::Is => "Is"@,
        TokenKind::Try => "Try"@,
        TokenKind::Catch => "Catch"@,
        TokenKind::Finally => "Finally"@,
        TokenKind::Raise => "Raise"@,
        TokenKind::Setenv => "Setenv"@,
        TokenKind::Exportenv => "Exportenv"@,
        TokenKind::Shell => "Shell"@,
        TokenKind::Exit => "Exit"@,
        TokenKind::Stop => "Stop"@,
        TokenKind::Label => "Label"@,
        TokenKind::Goto => "Goto"@,
        TokenKind::Gosub => "Gosub"@,
        TokenKind::Exec => "Exec"@,
        TokenKind::Eval => "Eval"@,
        TokenKind::Eof => "Eof"@,
    }
}

fn kind_text(k: TokenKind) -> (s: &'static str)
    ensures
        s@ == kind_name(k),
{
    match k {
        TokenKind::LParen => "LParen",
        TokenKind::RParen => "RParen",
        TokenKind::LBrace => "LBrace",
        TokenKind::RBrace => "RBrace",
        TokenKind::LBracket => "LBracket",
        TokenKind::RBracket => "RBracket",
        TokenKind::Comma => "Comma",
        TokenKind::Semicolon => "Semicolon",
        TokenKind::Colon => "Colon",
        TokenKind::Plus => "Plus",
        TokenKind::Minus => "Minus",
        TokenKind::Star => "Star",
        TokenKind::Slash => "Slash",
        TokenKind::Dot => "Dot",
        TokenKind::Mod => "Mod",
        TokenKind::Lt => "Lt",
        TokenKind::Gt => "Gt",
        TokenKind::Assign => "Assign",
        TokenKind::EqEq => "EqEq",
        TokenKind::BangEq => "BangEq",
        TokenKind::LtEq => "LtEq",
        TokenKind::GtEq => "GtEq",
        TokenKind::Ident => "Ident",
        TokenKind::Number => "Number",
        TokenKind::String => "String",
        TokenKind::Func => "Func",
        TokenKind::Return => "Return",
        TokenKind::If => "If",
        TokenKind::Then => "Then",
        TokenKind::Else => "Else",
        TokenKind::While => "While",
        TokenKind::Do => "Do",
        TokenKind::Begin => "Begin",
        TokenKind::End => "End",
        TokenKind::With => "With",
        TokenKind::Break => "Break",
        TokenKind::Continue => "Continue",
        TokenKind::Let => "Let",
        TokenKind::Print => "Print",
        TokenKind::Println => "Println",
        TokenKind::True => "True",
        TokenKind::False => "False",
        TokenKind::Null => "Null",
        TokenKind::And => "And",
        TokenKind::Or => "Or",
        TokenKind::Not => "Not",
        TokenKind::Author => "Author",
        TokenKind::For => "For",
        TokenKind::To => "To",
        TokenKind::Step => "Step",
        TokenKind::Next => "Next",
        TokenKind::Each => "Each",
        TokenKind::In => "In",
        TokenKind::Foreach => "Foreach",
        TokenKind::Endfor => "Endfor",
        TokenKind::Dim => "Dim",
        TokenKind::As => "As",
        TokenKind::Describe => "Describe",
        TokenKind::New => "New",
        TokenKind::Class => "Class",
        TokenKind::Type => "Type",
        TokenKind::Select => "Select",
        TokenKind::Case => "Case",
        TokenKind::Is => "Is",
        TokenKind::Try => "Try",
        TokenKind::Catch => "Catch",
        TokenKind::Finally => "Finally",
        TokenKind::Raise => "Raise",
        TokenKind::Setenv => "Setenv",
        TokenKind::Exportenv => "Exportenv",
        TokenKind::Shell => "Shell",
        TokenKind::Exit => "Exit",
        TokenKind::Stop => "Stop",
        TokenKind::Label => "Label",
        TokenKind::Goto => "Goto",
        TokenKind::Gosub => "Gosub",
        TokenKind::Exec => "Exec",
        TokenKind::Eval => "Eval",
        TokenKind::Eof => "Eof",
    }
}

/// How an optional token kind is printed.
pub open spec fn opt_kind_name(o: Option<TokenKind>) -> Seq<char> {
    match o {
        Some(k) => "Some("@ + kind_name(k) + ")"@,
        None => "None"@,
    }
}

pub open spec fn kind_at(toks: Seq<TokenView>, i: int) -> Option<TokenKind> {
    if 0 <= i < toks.len() {
        Some(toks[i].kind)
    } else {
        None
    }
}

pub open spec fn at_kind(toks: Seq<TokenView>, i: int, k: TokenKind) -> bool {
    kind_at(toks, i) == Some(k)
}

/// The line of the token at `i` (0 past the end).
pub open spec fn line_of(toks: Seq<TokenView>, i: int) -> u32 {
    if 0 <= i < toks.len() {
        toks[i].line
    } else {
        0
    }
}

/// A parse error reported at the token at `i`.
pub open spec fn error_at(toks: Seq<TokenView>, i: int, what: Seq<char>) -> Seq<char> {
    "parse error at line "@ + decimal(line_of(toks, i) as nat) + ": "@ + what
}

pub open spec fn expected(toks: Seq<TokenView>, i: int, k: TokenKind) -> Seq<char> {
    error_at(toks, i, "expected "@ + kind_name(k))
}

/// The token at `i` is taken for kind `k`; a `:` is taken for a `;`.
pub open spec fn takes(toks: Seq<TokenView>, i: int, k: TokenKind) -> bool {
    at_kind(toks, i, k) || (k == TokenKind::Semicolon && at_kind(toks, i, TokenKind::Colon))
}

/// Where the run of `;` tokens from `i` ends.
pub open spec fn skip_semis(toks: Seq<TokenView>, i: int) -> int
    decreases toks.len() - i,
{
    if 0 <= i < toks.len() && toks[i].kind == TokenKind::Semicolon {
        skip_semis(toks, i + 1)
    } else {
        i
    }
}

/// The binary operator at `i` with its left and right binding powers.
pub open spec fn binop_at(toks: Seq<TokenView>, i: int) -> Option<(BinOp, int, int)> {
    match kind_at(toks, i) {
        Some(TokenKind::Or) => Some((BinOp::Or, 20, 21)),
        Some(TokenKind::And) => Some((BinOp::And, 30, 31)),
        Some(TokenKind::EqEq) => Some((BinOp::Eq, 40, 41)),
        Some(TokenKind::Assign) => Some((BinOp::Eq, 40, 41)),
        Some(TokenKind::BangEq) => Some((BinOp::Ne, 40, 41)),
        Some(TokenKind::Lt) => Some((BinOp::Lt, 50, 51)),
        Some(TokenKind::LtEq) => Some((BinOp::Le, 50, 51)),
        Some(TokenKind::Gt) => Some((BinOp::Gt, 50, 51)),
        Some(TokenKind::GtEq) => Some((BinOp::Ge, 50, 51)),
        Some(TokenKind::Plus) => Some((BinOp::Add, 60, 61)),
        Some(TokenKind::Minus) => Some((BinOp::Sub, 60, 61)),
        Some(TokenKind::Star) => Some((BinOp::Mul, 70, 71)),
        Some(TokenKind::Slash) => Some((BinOp::Div, 70, 71)),
        Some(TokenKind::Mod) => Some((BinOp::Mod, 70, 71)),
        _ => None,
    }
}

/// The kinds that may name a member after `.`: identifiers and most keywords.
pub open spec fn member_name_kind(k: TokenKind) -> bool {
    ||| k == TokenKind::Ident
    ||| k == TokenKind::Func
    ||| k == TokenKind::Return
    ||| k == TokenKind::If
    ||| k == TokenKind::Then
    ||| k == TokenKind::Else
    ||| k == TokenKind::While
    ||| k == TokenKind::Do
    ||| k == TokenKind::Begin
    ||| k == TokenKind::End
    ||| k == TokenKind::With
    ||| k == TokenKind::Break
    ||| k == TokenKind::Continue
    ||| k == TokenKind::Let
    ||| k == TokenKind::Print
    ||| k == TokenKind::Println
    ||| k == TokenKind::True
    ||| k == TokenKind::False
    ||| k == TokenKind::Null
    ||| k == TokenKind::And
    ||| k == TokenKind::Or
    ||| k == TokenKind::Not
    ||| k == TokenKind::Author
    ||| k == TokenKind::For
    ||| k == TokenKind::To
    ||| k == TokenKind::Step
    ||| k == TokenKind::Next
    ||| k == TokenKind::Each
    ||| k == TokenKind::In
    ||| k == TokenKind::Foreach
    ||| k == TokenKind::Endfor
    ||| k == TokenKind::Dim
    ||| k == TokenKind::As
    ||| k == TokenKind::Describe
    ||| k == TokenKind::New
    ||| k == TokenKind::Class
    ||| k == TokenKind::Setenv
    ||| k == TokenKind::Exportenv
    ||| k == TokenKind::Shell
    ||| k == TokenKind::Exit
    ||| k == TokenKind::Label
    ||| k == TokenKind::Goto
    ||| k == TokenKind::Gosub
    ||| k == TokenKind::Mod
    ||| k == TokenKind::Exec
    ||| k == TokenKind::Eval
}

/// The member name at `i` and the position after it.
pub open spec fn member_name(toks: Seq<TokenView>, i: int) -> Result<(Seq<char>, int), Seq<char>> {
    if 0 <= i < toks.len() && member_name_kind(toks[i].kind) {
        Ok((toks[i].lexeme, i + 1))
    } else {
        Err(error_at(toks, i, "expected identifier"@))
    }
}

// ---------------------------------------------------------------------
// The expression grammar
//
// Each function gives the expression (or list) read from a token position, and the
// position after it. Positions only move forward, so the branches that test this are
// never taken.

/// An expression from `i` whose binary operators bind at least as tightly as `min_bp`:
/// a prefix form, then postfix calls, indexes and members, then binary operators.
pub closed spec fn expr_bp(toks: Seq<TokenView>, i: int, min_bp: int) -> Result<(ExprView, int), Seq<char>>
    decreases toks.len() - i, 5int,
{
    if !(0 <= i <= toks.len()) {
        Err(seq![])
    } else {
        match prefix(toks, i) {
            Err(e) => Err(e),
            Ok((lhs, j)) => if i < j <= toks.len() {
                match postfix(toks, j, lhs) {
                    Err(e) => Err(e),
                    Ok((lhs2, k)) => if j <= k <= toks.len() {
                        infix(toks, k, lhs2, min_bp)
                    } else {
                        Err(seq![])
                    },
                }
            } else {
                Err(seq![])
            },
        }
    }
}

/// Binary operators from `k` that bind at least as tightly as `min_bp`, each taking
/// the expression after it as its right operand (left-associative).
pub closed spec fn infix(toks: Seq<TokenView>, k: int, lhs: ExprView, min_bp: int) -> Result<(ExprView, int), Seq<char>>
    decreases toks.len() - k, 3int,
{
    match binop_at(toks, k) {
        None => Ok((lhs, k)),
        Some((op, lbp, rbp)) => if lbp < min_bp {
            Ok((lhs, k))
        } else {
            match expr_bp(toks, k + 1, rbp) {
                Err(e) => Err(e),
                Ok((rhs, m)) => if k < m <= toks.len() {
                    infix(toks, m, ExprView::Binary { op, lhs: Box::new(lhs), rhs: Box::new(rhs) }, min_bp)
                } else {
                    Err(seq![])
                },
            }
        },
    }
}

/// Calls `(args)`, indexes `[i]` and members `.name` or `.name(args)` after `lhs`.
pub closed spec fn postfix(toks: Seq<TokenView>, j: int, lhs: ExprView) -> Result<(ExprView, int), Seq<char>>
    decreases toks.len() - j, 3int,
{
    if !(0 <= j <= toks.len()) {
        Err(seq![])
    } else if takes(toks, j, TokenKind::LParen) {
        match call_args(toks, j + 1) {
            Err(e) => Err(e),
            Ok((args, k)) => if j < k <= toks.len() {
                postfix(toks, k, ExprView::Call { callee: Box::new(lhs), args })
            } else {
                Err(seq![])
            },
        }
    } else if takes(toks, j, TokenKind::LBracket) {
        match expr_bp(toks, j + 1, 0) {
            Err(e) => Err(e),
            Ok((idx, k)) => if j < k < toks.len() && at_kind(toks, k, TokenKind::RBracket) {
                postfix(toks, k + 1, ExprView::IndexSquare { target: Box::new(lhs), index: Box::new(idx) })
            } else {
                Err(expected(toks, k, TokenKind::RBracket))
            },
        }
    } else if takes(toks, j, TokenKind::Dot) {
        match member_name(toks, j + 1) {
            Err(e) => Err(e),
            Ok((name, k)) => if takes(toks, k, TokenKind::LParen) {
                match call_args(toks, k + 1) {
                    Err(e) => Err(e),
                    Ok((args, m)) => if j < m <= toks.len() {
                        postfix(toks, m, ExprView::MemberCall { target: Box::new(lhs), method: name, args })
                    } else {
                        Err(seq![])
                    },
                }
            } else if j < k <= toks.len() {
                postfix(toks, k, ExprView::MemberGet { target: Box::new(lhs), name })
            } else {
                Err(seq![])
            },
        }
    } else {
        Ok((lhs, j))
    }
}

/// Arguments after `(`: none when `)` follows at once, else expressions separated by
/// commas; then the `)`.
pub closed spec fn call_args(toks: Seq<TokenView>, j: int) -> Result<(Seq<ExprView>, int), Seq<char>>
    decreases toks.len() - j, 7int,
{
    if at_kind(toks, j, TokenKind::RParen) {
        Ok((seq![], j + 1))
    } else {
        match arg_items(toks, j) {
            Err(e) => Err(e),
            Ok((items, k)) => if at_kind(toks, k, TokenKind::RParen) {
                Ok((items, k + 1))
            } else {
                Err(expected(toks, k, TokenKind::RParen))
            },
        }
    }
}

/// Expressions separated by commas, from `j`.
pub closed spec fn arg_items(toks: Seq<TokenView>, j: int) -> Result<(Seq<ExprView>, int), Seq<char>>
    decreases toks.len() - j, 6int,
{
    match expr_bp(toks, j, 0) {
        Err(e) => Err(e),
        Ok((e, k)) => if j < k <= toks.len() {
            if at_kind(toks, k, TokenKind::Comma) {
                match arg_items(toks, k + 1) {
                    Err(m) => Err(m),
                    Ok((rest, m)) => Ok((seq![e] + rest, m)),
                }
            } else {
                Ok((seq![e], k))
            }
        } else {
            Err(seq![])
        },
    }
}

/// The items of a list literal from `j`, each after any `;` tokens, separated by commas.
pub closed spec fn list_items(toks: Seq<TokenView>, j: int) -> Result<(Seq<ExprView>, int), Seq<char>>
    decreases toks.len() - j, 6int,
{
    let j1 = skip_semis(toks, j);
    proof {
        lemma_skip_semis(toks, j);
    }
    match expr_bp(toks, j1, 0) {
        Err(e) => Err(e),
        Ok((e, k)) => if j1 < k <= toks.len() {
            let k1 = skip_semis(toks, k);
            proof {
                lemma_skip_semis(toks, k);
            }
            if at_kind(toks, k1, TokenKind::Comma) {
                match list_items(toks, k1 + 1) {
                    Err(m) => Err(m),
                    Ok((rest, m)) => Ok((seq![e] + rest, m)),
                }
            } else {
                Ok((seq![e], k1))
            }
        } else {
            Err(seq![])
        },
    }
}

/// A list literal whose `[` comes just before `j`.
pub closed spec fn list_literal(toks: Seq<TokenView>, j: int) -> Result<(ExprView, int), Seq<char>>
    decreases toks.len() - j, 7int,
{
    let j1 = skip_semis(toks, j);
    proof {
        lemma_skip_semis(toks, j);
    }
    if at_kind(toks, j1, TokenKind::RBracket) {
        Ok((ExprView::List(seq![]), j1 + 1))
    } else {
        match list_items(toks, j1) {
            Err(e) => Err(e),
            Ok((items, k)) => if at_kind(toks, k, TokenKind::RBracket) {
                Ok((ExprView::List(items), k + 1))
            } else {
                Err(expected(toks, k, TokenKind::RBracket))
            },
        }
    }
}

/// The entries `"key": value` of a dictionary literal from `j`, each after any `;`
/// tokens, separated by commas.
pub closed spec fn dict_items(toks: Seq<TokenView>, j: int) -> Result<(Seq<(Seq<char>, ExprView)>, int), Seq<char>>
    decreases toks.len() - j, 6int,
{
    let j1 = skip_semis(toks, j);
    proof {
        lemma_skip_semis(toks, j);
    }
    if !at_kind(toks, j1, TokenKind::String) {
        Err(expected(toks, j1, TokenKind::String))
    } else {
        match toks[j1].literal {
            Some(LitView::Str(key)) => if !at_kind(toks, j1 + 1, TokenKind::Colon) {
                Err(expected(toks, j1 + 1, TokenKind::Colon))
            } else {
                match expr_bp(toks, j1 + 2, 0) {
                    Err(e) => Err(e),
                    Ok((v, k)) => if j1 < k <= toks.len() {
                        let k1 = skip_semis(toks, k);
                        proof {
                            lemma_skip_semis(toks, k);
                        }
                        if at_kind(toks, k1, TokenKind::Comma) {
                            match dict_items(toks, k1 + 1) {
                                Err(m) => Err(m),
                                Ok((rest, m)) => Ok((seq![(key, v)] + rest, m)),
                            }
                        } else {
                            Ok((seq![(key, v)], k1))
                        }
                    } else {
                        Err(seq![])
                    },
                }
            },
            _ => Err("Dictionary key must be a quoted string literal"@),
        }
    }
}

/// A dictionary literal whose `{` comes just before `j`.
pub closed spec fn dict_literal(toks: Seq<TokenView>, j: int) -> Result<(ExprView, int), Seq<char>>
    decreases toks.len() - j, 7int,
{
    let j1 = skip_semis(toks, j);
    proof {
        lemma_skip_semis(toks, j);
    }
    if at_kind(toks, j1, TokenKind::RBrace) {
        Ok((ExprView::Dict(seq![]), j1 + 1))
    } else {
        match dict_items(toks, j1) {
            Err(e) => Err(e),
            Ok((entries, k)) => if at_kind(toks, k, TokenKind::RBrace) {
                Ok((ExprView::Dict(entries), k + 1))
            } else {
                Err(expected(toks, k, TokenKind::RBrace))
            },
        }
    }
}

/// `(expr)` after the keyword at `i` (CLASS, EVAL).
pub closed spec fn paren_operand(toks: Seq<TokenView>, i: int) -> Result<(ExprView, int), Seq<char>>
    decreases toks.len() - i, 2int,
{
    if !at_kind(toks, i + 1, TokenKind::LParen) {
        Err(expected(toks, i + 1, TokenKind::LParen))
    } else {
        match expr_bp(toks, i + 2, 0) {
            Err(e) => Err(e),
            Ok((e, j)) => if at_kind(toks, j, TokenKind::RParen) {
                Ok((e, j + 1))
            } else {
                Err(expected(toks, j, TokenKind::RParen))
            },
        }
    }
}

/// The prefix form at `i`: a negation or NOT, a member of the WITH receiver, a
/// literal, a variable, NEW, CLASS, EVAL, a list or dictionary, or a parenthesized
/// expression.
pub closed spec fn prefix(toks: Seq<TokenView>, i: int) -> Result<(ExprView, int), Seq<char>>
    decreases toks.len() - i, 4int,
{
    if !(0 <= i <= toks.len()) {
        Err(seq![])
    } else if takes(toks, i, TokenKind::Minus) {
        match expr_bp(toks, i + 1, 80) {
            Err(e) => Err(e),
            Ok((e, j)) => Ok((ExprView::UnaryNeg(Box::new(e)), j)),
        }
    } else if takes(toks, i, TokenKind::Not) {
        match expr_bp(toks, i + 1, 80) {
            Err(e) => Err(e),
            Ok((e, j)) => Ok((ExprView::UnaryNot(Box::new(e)), j)),
        }
    } else {
        match kind_at(toks, i) {
            Some(TokenKind::Dot) => match member_name(toks, i + 1) {
                Err(e) => Err(e),
                Ok((name, j)) => if takes(toks, j, TokenKind::LParen) {
                    match call_args(toks, j + 1) {
                        Err(e) => Err(e),
                        Ok((args, k)) => Ok(
                            (ExprView::MemberCall { target: Box::new(ExprView::ImplicitThis), method: name, args }, k),
                        ),
                    }
                } else {
                    Ok((ExprView::MemberGet { target: Box::new(ExprView::ImplicitThis), name }, j))
                },
            },
            Some(TokenKind::Number) => match toks[i].literal {
                Some(LitView::Num(n)) => Ok((ExprView::Number(n), i + 1)),
                _ => Err(error_at(toks, i, "number literal missing"@)),
            },
            Some(TokenKind::String) => match toks[i].literal {
                Some(LitView::Str(s)) => Ok((ExprView::Str(s), i + 1)),
                _ => Err(error_at(toks, i, "string literal missing"@)),
            },
            Some(TokenKind::True) => Ok((ExprView::Bool(true), i + 1)),
            Some(TokenKind::False) => Ok((ExprView::Bool(false), i + 1)),
            Some(TokenKind::Author) => if takes(toks, i + 1, TokenKind::LParen) {
                if at_kind(toks, i + 2, TokenKind::RParen) {
                    Ok((ExprView::Str("Erik Olson"@), i + 3))
                } else {
                    Err(expected(toks, i + 2, TokenKind::RParen))
                }
            } else {
                Ok((ExprView::Str("Erik Olson"@), i + 1))
            },
            Some(TokenKind::Ident) => Ok((ExprView::Var(toks[i].lexeme), i + 1)),
            Some(TokenKind::New) => if !at_kind(toks, i + 1, TokenKind::Ident) {
                Err(error_at(toks, i + 1, "expected identifier"@))
            } else if !at_kind(toks, i + 2, TokenKind::LParen) {
                Err(expected(toks, i + 2, TokenKind::LParen))
            } else {
                match call_args(toks, i + 3) {
                    Err(e) => Err(e),
                    Ok((args, k)) => Ok((ExprView::NewObject { type_label: toks[i + 1].lexeme, args }, k)),
                }
            },
            Some(TokenKind::Class) => match paren_operand(toks, i) {
                Err(e) => Err(e),
                Ok((e, j)) => Ok((ExprView::NewClass { filename: Box::new(e) }, j)),
            },
            Some(TokenKind::Eval) => match paren_operand(toks, i) {
                Err(e) => Err(e),
                Ok((e, j)) => Ok((ExprView::Eval(Box::new(e)), j)),
            },
            Some(TokenKind::LBracket) => list_literal(toks, i + 1),
            Some(TokenKind::LBrace) => dict_literal(toks, i + 1),
            Some(TokenKind::LParen) => match expr_bp(toks, i + 1, 0) {
                Err(e) => Err(e),
                Ok((e, j)) => if at_kind(toks, j, TokenKind::RParen) {
                    Ok((e, j + 1))
                } else {
                    Err(expected(toks, j, TokenKind::RParen))
                },
            },
            other => Err(error_at(toks, i, "unexpected token in expression: "@ + opt_kind_name(other))),
        }
    }
}

pub proof fn lemma_skip_semis(toks: Seq<TokenView>, i: int)
    ensures
        0 <= i <= toks.len() ==> i <= skip_semis(toks, i) <= toks.len(),
        i <= skip_semis(toks, i),
    decreases toks.len() - i,
{
    if 0 <= i < toks.len() && toks[i].kind == TokenKind::Semicolon {
        lemma_skip_semis(toks, i + 1);
    }
}

} // verus!

verus! {

// ---------------------------------------------------------------------
// The parser

/// What a parse of an expression gives back, against its statement.
pub open spec fn expr_result(s: Result<(ExprView, int), Seq<char>>, r: Result<Expr, BasilError>, end: int) -> bool {
    match s {
        Ok((e, j)) => r matches Ok(x) && expr_view(x) == e && end == j,
        Err(m) => r matches Err(x) && x.0@ == m,
    }
}

/// A Pratt parser over a token list, with its position in it.
pub struct Parser {
    tokens: Vec<Token>,
    i: usize,
}

impl Parser {
    /// The tokens.
    pub closed spec fn toks(&self) -> Seq<TokenView> {
        tokens_view(self.tokens@)
    }

    /// The index of the next token.
    pub closed spec fn pos(&self) -> int {
        self.i as int
    }

    /// A position is never negative.
    pub broadcast proof fn lemma_pos_nonneg(p: &Parser)
        ensures
            0 <= #[trigger] p.pos(),
    {
    }

    /// A well-formed parser is within its tokens.
    pub broadcast proof fn lemma_wf_pos(p: &Parser)
        requires
            #[trigger] p.wf(),
        ensures
            p.pos() <= p.toks().len(),
    {
    }

    pub closed spec fn wf(&self) -> bool {
        self.i <= self.tokens.len()
    }

    /// A parser at the first of `tokens`.
    pub fn new(tokens: Vec<Token>) -> (p: Self)
        ensures
            p.wf(),
            p.toks() == tokens_view(tokens@),
            p.pos() == 0,
    {
        Parser { tokens, i: 0 }
    }

    /// The position, to come back to.
    pub(crate) fn mark(&self) -> (m: usize)
        requires
            self.wf(),
        ensures
            m == self.pos(),
            m <= self.toks().len(),
            self.toks().len() <= usize::MAX,
    {
        self.i
    }

    /// Goes back to a position.
    pub(crate) fn reset(&mut self, m: usize)
        requires
            old(self).wf(),
            m <= old(self).toks().len(),
        ensures
            final(self).wf(),
            final(self).toks() == old(self).toks(),
            final(self).pos() == m,
    {
        self.i = m;
    }

    /// The text of the next token.
    pub(crate) fn lexeme_here(&self) -> (s: String)
        requires
            self.wf(),
            self.pos() < self.toks().len(),
        ensures
            s@ == self.toks()[self.pos()].lexeme,
    {
        self.tokens[self.i].lexeme.clone()
    }

    /// The numeral of the next token, when it holds one.
    pub(crate) fn numeral_here(&self) -> (o: Option<String>)
        requires
            self.wf(),
            self.pos() < self.toks().len(),
        ensures
            match self.toks()[self.pos()].literal {
                Some(LitView::Num(t)) => o matches Some(s) && s@ == t,
                _ => o is None,
            },
    {
        match &self.tokens[self.i].literal {
            Some(Literal::Num(n)) => Some(n.clone()),
            _ => None,
        }
    }

    pub(crate) fn peek_kind(&self) -> (k: Option<TokenKind>)
        requires
            self.wf(),
        ensures
            k == kind_at(self.toks(), self.pos()),
    {
        if self.i < self.tokens.len() {
            Some(self.tokens[self.i].kind)
        } else {
            None
        }
    }

    pub(crate) fn check(&self, k: TokenKind) -> (b: bool)
        requires
            self.wf(),
        ensures
            b == at_kind(self.toks(), self.pos(), k),
    {
        match self.peek_kind() {
            Some(x) => x == k,
            None => false,
        }
    }

    pub(crate) fn peek_line(&self) -> (l: u32)
        requires
            self.wf(),
        ensures
            l == line_of(self.toks(), self.pos()),
    {
        if self.i < self.tokens.len() {
            self.tokens[self.i].line
        } else {
            0
        }
    }

    pub(crate) fn next(&mut self)
        requires
            old(self).wf(),
            old(self).pos() < old(self).toks().len(),
        ensures
            final(self).wf(),
            final(self).toks() == old(self).toks(),
            final(self).pos() == old(self).pos() + 1,
    {
        self.i = self.i + 1;
    }

    /// Takes the next token if it is of kind `k` (a `:` standing for a `;`).
    pub(crate) fn match_k(&mut self, k: TokenKind) -> (b: bool)
        requires
            old(self).wf(),
        ensures
            final(self).wf(),
            final(self).toks() == old(self).toks(),
            b == takes(old(self).toks(), old(self).pos(), k),
            final(self).pos() == old(self).pos() + if b { 1int } else { 0int },
    {
        if self.check(k) {
            self.next();
            true
        } else if k == TokenKind::Semicolon && self.check(TokenKind::Colon) {
            self.next();
            true
        } else {
            false
        }
    }

    pub(crate) fn error_here(&self, what: &str) -> (e: BasilError)
        requires
            self.wf(),
        ensures
            e.0@ == error_at(self.toks(), self.pos(), what@),
    {
        let mut s = string_of("parse error at line ");
        push_decimal(&mut s, self.peek_line() as u64);
        push_str(&mut s, ": ");
        push_str(&mut s, what);
        BasilError(s)
    }

    pub(crate) fn expected_here(&self, k: TokenKind) -> (e: BasilError)
        requires
            self.wf(),
        ensures
            e.0@ == expected(self.toks(), self.pos(), k),
    {
        let mut w = string_of("expected ");
        push_str(&mut w, kind_text(k));
        self.error_here(w.as_str())
    }

    /// Takes a token of kind `k`, or reports that one was expected.
    pub(crate) fn expect(&mut self, k: TokenKind) -> (r: Result<(), BasilError>)
        requires
            old(self).wf(),
        ensures
            final(self).wf(),
            final(self).toks() == old(self).toks(),
            at_kind(old(self).toks(), old(self).pos(), k) ==> (r is Ok && final(self).pos() == old(self).pos()
                + 1),
            !at_kind(old(self).toks(), old(self).pos(), k) ==> (r matches Err(e) && e.0@ == expected(
                old(self).toks(),
                old(self).pos(),
                k,
            )),
    {
        if self.check(k) {
            self.next();
            Ok(())
        } else {
            Err(self.expected_here(k))
        }
    }

    /// Moves past a run of `;` tokens.
    fn skip_semicolons(&mut self)
        requires
            old(self).wf(),
        ensures
            final(self).wf(),
            final(self).toks() == old(self).toks(),
            final(self).pos() == skip_semis(old(self).toks(), old(self).pos()),
    {
        let ghost t0 = self.toks();
        let ghost p0 = self.pos();
        while self.check(TokenKind::Semicolon)
            invariant
                self.wf(),
                self.toks() == t0,
                p0 <= self.pos(),
                skip_semis(t0, p0) == skip_semis(t0, self.pos()),
            decreases t0.len() - self.pos(),
        {
            self.next();
        }
    }

    /// Takes an identifier or a keyword that may name a member.
    pub(crate) fn expect_member_name(&mut self) -> (r: Result<String, BasilError>)
        requires
            old(self).wf(),
        ensures
            final(self).wf(),
            final(self).toks() == old(self).toks(),
            match member_name(old(self).toks(), old(self).pos()) {
                Ok((n, j)) => r matches Ok(s) && s@ == n && final(self).pos() == j,
                Err(m) => r matches Err(e) && e.0@ == m,
            },
    {
        if self.i < self.tokens.len() && is_member_name_kind(self.tokens[self.i].kind) {
            let name = self.tokens[self.i].lexeme.clone();
            self.next();
            Ok(name)
        } else {
            Err(self.error_here("expected identifier"))
        }
    }

    /// Parses an expression whose binary operators bind at least as tightly as
    /// `min_bp`, leaving the parser after it.
    pub fn parse_expr_bp(&mut self, min_bp: u8) -> (r: Result<Expr, BasilError>)
        requires
            old(self).wf(),
        ensures
            final(self).wf(),
            final(self).toks() == old(self).toks(),
            expr_result(expr_bp(old(self).toks(), old(self).pos(), min_bp as int), r, final(self).pos()),
            r is Ok ==> old(self).pos() < final(self).pos(),
        decreases old(self).toks().len() - old(self).pos(), 5int,
    {
        let lhs = match self.parse_prefix() {
            Ok(e) => e,
            Err(e) => return Err(e),
        };
        let lhs = match self.parse_postfix(lhs) {
            Ok(e) => e,
            Err(e) => return Err(e),
        };
        self.parse_infix(lhs, min_bp)
    }

    /// Binary operators after `lhs` that bind at least as tightly as `min_bp`.
    fn parse_infix(&mut self, lhs: Expr, min_bp: u8) -> (r: Result<Expr, BasilError>)
        requires
            old(self).wf(),
        ensures
            final(self).wf(),
            final(self).toks() == old(self).toks(),
            expr_result(infix(old(self).toks(), old(self).pos(), expr_view(lhs), min_bp as int), r, final(self).pos()),
            r is Ok ==> old(self).pos() <= final(self).pos(),
        decreases old(self).toks().len() - old(self).pos(), 3int,
    {
        let (op, lbp, rbp) = match self.peek_binop_bp() {
            Some(t) => t,
            None => return Ok(lhs),
        };
        if lbp < min_bp {
            return Ok(lhs);
        }
        self.next();
        let rhs = match self.parse_expr_bp(rbp) {
            Ok(e) => e,
            Err(e) => return Err(e),
        };
        self.parse_infix(Expr::Binary { op, lhs: Box::new(lhs), rhs: Box::new(rhs) }, min_bp)
    }

    /// Calls, indexes and member accesses after `lhs`.
    pub(crate) fn parse_postfix(&mut self, lhs: Expr) -> (r: Result<Expr, BasilError>)
        requires
            old(self).wf(),
        ensures
            final(self).wf(),
            final(self).toks() == old(self).toks(),
            expr_result(postfix(old(self).toks(), old(self).pos(), expr_view(lhs)), r, final(self).pos()),
            r is Ok ==> old(self).pos() <= final(self).pos(),
        decreases old(self).toks().len() - old(self).pos(), 3int,
    {
        if self.match_k(TokenKind::LParen) {
            let args = match self.parse_call_args() {
                Ok(a) => a,
                Err(e) => return Err(e),
            };
            self.parse_postfix(Expr::Call { callee: Box::new(lhs), args })
        } else if self.match_k(TokenKind::LBracket) {
            let idx = match self.parse_expr_bp(0) {
                Ok(e) => e,
                Err(e) => return Err(e),
            };
            match self.expect(TokenKind::RBracket) {
                Ok(()) => {},
                Err(e) => return Err(e),
            }
            self.parse_postfix(Expr::IndexSquare { target: Box::new(lhs), index: Box::new(idx) })
        } else if self.match_k(TokenKind::Dot) {
            let name = match self.expect_member_name() {
                Ok(n) => n,
                Err(e) => return Err(e),
            };
            if self.match_k(TokenKind::LParen) {
                let args = match self.parse_call_args() {
                    Ok(a) => a,
                    Err(e) => return Err(e),
                };
                self.parse_postfix(Expr::MemberCall { target: Box::new(lhs), method: name, args })
            } else {
                self.parse_postfix(Expr::MemberGet { target: Box::new(lhs), name })
            }
        } else {
            Ok(lhs)
        }
    }

    /// The arguments after a `(`, through the `)`.
    pub(crate) fn parse_call_args(&mut self) -> (r: Result<Vec<Expr>, BasilError>)
        requires
            old(self).wf(),
        ensures
            final(self).wf(),
            final(self).toks() == old(self).toks(),
            match call_args(old(self).toks(), old(self).pos()) {
                Ok((es, j)) => r matches Ok(v) && exprs_view(v@) == es && final(self).pos() == j,
                Err(m) => r matches Err(e) && e.0@ == m,
            },
            r is Ok ==> old(self).pos() < final(self).pos(),
        decreases old(self).toks().len() - old(self).pos(), 7int,
    {
        if self.check(TokenKind::RParen) {
            self.next();
            return Ok(Vec::new());
        }
        let mut args: Vec<Expr> = Vec::new();
        match self.parse_arg_items(&mut args) {
            Ok(()) => {},
            Err(e) => return Err(e),
        }
        assert(exprs_view(Seq::<Expr>::empty()) + arg_items(old(self).toks(), old(self).pos())->Ok_0.0 =~= arg_items(old(self).toks(), old(self).pos())->Ok_0.0);
        match self.expect(TokenKind::RParen) {
            Ok(()) => {},
            Err(e) => return Err(e),
        }
        Ok(args)
    }

    /// Expressions separated by commas, appended to `items`.
    fn parse_arg_items(&mut self, items: &mut Vec<Expr>) -> (r: Result<(), BasilError>)
        requires
            old(self).wf(),
        ensures
            final(self).wf(),
            final(self).toks() == old(self).toks(),
            match arg_items(old(self).toks(), old(self).pos()) {
                Ok((es, j)) => r is Ok && exprs_view(final(items)@) == exprs_view(old(items)@) + es
                    && final(self).pos() == j,
                Err(m) => r matches Err(e) && e.0@ == m,
            },
            r is Ok ==> old(self).pos() < final(self).pos(),
        decreases old(self).toks().len() - old(self).pos(), 6int,
    {
        let ghost t = self.toks();
        let ghost p = self.pos();
        let e = match self.parse_expr_bp(0) {
            Ok(e) => e,
            Err(e) => return Err(e),
        };
        let ghost ev = expr_view(e);
        let ghost before = items@;
        items.push(e);
        proof {
            crate::ast::lemma_exprs_view_push(before, e);
        }
        if self.check(TokenKind::Comma) {
            let ghost k = self.pos();
            self.next();
            let r = self.parse_arg_items(items);
            proof {
                if let Ok((rest, m)) = arg_items(t, k + 1) {
                    assert(exprs_view(before).push(ev) + rest =~= exprs_view(before) + (seq![ev] + rest));
                }
            }
            r
        } else {
            assert(exprs_view(before) + seq![ev] =~= exprs_view(before).push(ev));
            Ok(())
        }
    }

    /// The prefix form at the parser's position.
    #[verifier::rlimit(40)]
    #[verifier::spinoff_prover]
    pub(crate) fn parse_prefix(&mut self) -> (r: Result<Expr, BasilError>)
        requires
            old(self).wf(),
        ensures
            final(self).wf(),
            final(self).toks() == old(self).toks(),
            expr_result(prefix(old(self).toks(), old(self).pos()), r, final(self).pos()),
            r is Ok ==> old(self).pos() < final(self).pos(),
        decreases old(self).toks().len() - old(self).pos(), 4int,
    {
        if self.match_k(TokenKind::Minus) {
            return match self.parse_expr_bp(80) {
                Ok(e) => Ok(Expr::UnaryNeg(Box::new(e))),
                Err(e) => Err(e),
            };
        }
        if self.match_k(TokenKind::Not) {
            return match self.parse_expr_bp(80) {
                Ok(e) => Ok(Expr::UnaryNot(Box::new(e))),
                Err(e) => Err(e),
            };
        }
        let ghost t = self.toks();
        let ghost i = self.pos();
        match self.peek_kind() {
            Some(TokenKind::Dot) => {
                assert(expr_view(Expr::ImplicitThis) == ExprView::ImplicitThis);
                self.next();
                let name = match self.expect_member_name() {
                    Ok(n) => n,
                    Err(e) => return Err(e),
                };
                if self.match_k(TokenKind::LParen) {
                    let args = match self.parse_call_args() {
                        Ok(a) => a,
                        Err(e) => return Err(e),
                    };
                    Ok(Expr::MemberCall { target: Box::new(Expr::ImplicitThis), method: name, args })
                } else {
                    Ok(Expr::MemberGet { target: Box::new(Expr::ImplicitThis), name })
                }
            },
            Some(TokenKind::Number) => {
                let n = match &self.tokens[self.i].literal {
                    Some(Literal::Num(n)) => n.clone(),
                    _ => return Err(self.error_here("number literal missing")),
                };
                self.next();
                Ok(Expr::Number(n))
            },
            Some(TokenKind::String) => {
                let v = match &self.tokens[self.i].literal {
                    Some(Literal::Str(v)) => v.clone(),
                    _ => return Err(self.error_here("string literal missing")),
                };
                self.next();
                Ok(Expr::Str(v))
            },
            Some(TokenKind::True) => {
                self.next();
                Ok(Expr::Bool(true))
            },
            Some(TokenKind::False) => {
                self.next();
                Ok(Expr::Bool(false))
            },
            Some(TokenKind::Author) => {
                self.next();
                if self.match_k(TokenKind::LParen) {
                    match self.expect(TokenKind::RParen) {
                        Ok(()) => {},
                        Err(e) => return Err(e),
                    }
                }
                Ok(Expr::Str(string_of("Erik Olson")))
            },
            Some(TokenKind::Ident) => {
                let name = self.tokens[self.i].lexeme.clone();
                self.next();
                Ok(Expr::Var(name))
            },
            Some(TokenKind::New) => {
                self.next();
                if !self.check(TokenKind::Ident) {
                    return Err(self.error_here("expected identifier"));
                }
                let type_label = self.tokens[self.i].lexeme.clone();
                self.next();
                match self.expect(TokenKind::LParen) {
                    Ok(()) => {},
                    Err(e) => return Err(e),
                }
                match self.parse_call_args() {
                    Ok(args) => Ok(Expr::NewObject { type_label, args }),
                    Err(e) => Err(e),
                }
            },
            Some(TokenKind::Class) => match self.parse_paren_operand() {
                Ok(e) => Ok(Expr::NewClass { filename: Box::new(e) }),
                Err(e) => Err(e),
            },
            Some(TokenKind::Eval) => match self.parse_paren_operand() {
                Ok(e) => Ok(Expr::Eval(Box::new(e))),
                Err(e) => Err(e),
            },
            Some(TokenKind::LBracket) => {
                self.next();
                self.parse_list_literal()
            },
            Some(TokenKind::LBrace) => {
                self.next();
                self.parse_dict_literal()
            },
            Some(TokenKind::LParen) => {
                self.next();
                let e = match self.parse_expr_bp(0) {
                    Ok(e) => e,
                    Err(e) => return Err(e),
                };
                match self.expect(TokenKind::RParen) {
                    Ok(()) => Ok(e),
                    Err(e) => Err(e),
                }
            },
            other => {
                let mut w = string_of("unexpected token in expression: ");
                match other {
                    Some(k) => {
                        push_str(&mut w, "Some(");
                        push_str(&mut w, kind_text(k));
                        push_str(&mut w, ")");
                    },
                    None => push_str(&mut w, "None"),
                }
                assert(w@ =~= "unexpected token in expression: "@ + opt_kind_name(other));
                Err(self.error_here(w.as_str()))
            },
        }
    }

    /// `(expr)` after the keyword at the parser's position.
    fn parse_paren_operand(&mut self) -> (r: Result<Expr, BasilError>)
        requires
            old(self).wf(),
            old(self).pos() < old(self).toks().len(),
        ensures
            final(self).wf(),
            final(self).toks() == old(self).toks(),
            expr_result(paren_operand(old(self).toks(), old(self).pos()), r, final(self).pos()),
            r is Ok ==> old(self).pos() < final(self).pos(),
        decreases old(self).toks().len() - old(self).pos(), 2int,
    {
        self.next();
        match self.expect(TokenKind::LParen) {
            Ok(()) => {},
            Err(e) => return Err(e),
        }
        let e = match self.parse_expr_bp(0) {
            Ok(e) => e,
            Err(e) => return Err(e),
        };
        match self.expect(TokenKind::RParen) {
            Ok(()) => Ok(e),
            Err(e) => Err(e),
        }
    }

    /// A list literal after its `[`.
    fn parse_list_literal(&mut self) -> (r: Result<Expr, BasilError>)
        requires
            old(self).wf(),
        ensures
            final(self).wf(),
            final(self).toks() == old(self).toks(),
            expr_result(list_literal(old(self).toks(), old(self).pos()), r, final(self).pos()),
            r is Ok ==> old(self).pos() < final(self).pos(),
        decreases old(self).toks().len() - old(self).pos(), 7int,
    {
        proof {
            lemma_skip_semis(self.toks(), self.pos());
        }
        self.skip_semicolons();
        if self.check(TokenKind::RBracket) {
            self.next();
            assert(exprs_view(Seq::<Expr>::empty()) =~= Seq::<ExprView>::empty());
            return Ok(Expr::List(Vec::new()));
        }
        let ghost t = self.toks();
        let ghost j1 = self.pos();
        let mut items: Vec<Expr> = Vec::new();
        match self.parse_list_items(&mut items) {
            Ok(()) => {},
            Err(e) => return Err(e),
        }
        assert(exprs_view(Seq::<Expr>::empty()) + list_items(t, j1)->Ok_0.0 =~= list_items(t, j1)->Ok_0.0);
        match self.expect(TokenKind::RBracket) {
            Ok(()) => Ok(Expr::List(items)),
            Err(e) => Err(e),
        }
    }

    /// List items, each after any `;` tokens, appended to `items`.
    fn parse_list_items(&mut self, items: &mut Vec<Expr>) -> (r: Result<(), BasilError>)
        requires
            old(self).wf(),
        ensures
            final(self).wf(),
            final(self).toks() == old(self).toks(),
            match list_items(old(self).toks(), old(self).pos()) {
                Ok((es, j)) => r is Ok && exprs_view(final(items)@) == exprs_view(old(items)@) + es
                    && final(self).pos() == j,
                Err(m) => r matches Err(e) && e.0@ == m,
            },
            r is Ok ==> old(self).pos() < final(self).pos(),
        decreases old(self).toks().len() - old(self).pos(), 6int,
    {
        let ghost t = self.toks();
        proof {
            lemma_skip_semis(self.toks(), self.pos());
        }
        self.skip_semicolons();
        let e = match self.parse_expr_bp(0) {
            Ok(e) => e,
            Err(e) => return Err(e),
        };
        let ghost ev = expr_view(e);
        let ghost before = items@;
        items.push(e);
        proof {
            crate::ast::lemma_exprs_view_push(before, e);
            lemma_skip_semis(self.toks(), self.pos());
        }
        self.skip_semicolons();
        if self.check(TokenKind::Comma) {
            let ghost k = self.pos();
            self.next();
            let r = self.parse_list_items(items);
            proof {
                if let Ok((rest, m)) = list_items(t, k + 1) {
                    assert(exprs_view(before).push(ev) + rest =~= exprs_view(before) + (seq![ev] + rest));
                }
            }
            r
        } else {
            assert(exprs_view(before) + seq![ev] =~= exprs_view(before).push(ev));
            Ok(())
        }
    }

    /// A dictionary literal after its `{`.
    fn parse_dict_literal(&mut self) -> (r: Result<Expr, BasilError>)
        requires
            old(self).wf(),
        ensures
            final(self).wf(),
            final(self).toks() == old(self).toks(),
            expr_result(dict_literal(old(self).toks(), old(self).pos()), r, final(self).pos()),
            r is Ok ==> old(self).pos() < final(self).pos(),
        decreases old(self).toks().len() - old(self).pos(), 7int,
    {
        proof {
            lemma_skip_semis(self.toks(), self.pos());
        }
        self.skip_semicolons();
        if self.check(TokenKind::RBrace) {
            self.next();
            assert(entries_view(Seq::<(String, Expr)>::empty()) =~= Seq::<(Seq<char>, ExprView)>::empty());
            return Ok(Expr::Dict(Vec::new()));
        }
        let ghost t = self.toks();
        let ghost j1 = self.pos();
        let mut entries: Vec<(String, Expr)> = Vec::new();
        match self.parse_dict_items(&mut entries) {
            Ok(()) => {},
            Err(e) => return Err(e),
        }
        assert(entries_view(Seq::<(String, Expr)>::empty()) + dict_items(t, j1)->Ok_0.0 =~= dict_items(t, j1)->Ok_0.0);
        match self.expect(TokenKind::RBrace) {
            Ok(()) => Ok(Expr::Dict(entries)),
            Err(e) => Err(e),
        }
    }

    /// Dictionary entries `"key": value`, each after any `;` tokens, appended to
    /// `entries`.
    fn parse_dict_items(&mut self, entries: &mut Vec<(String, Expr)>) -> (r: Result<(), BasilError>)
        requires
            old(self).wf(),
        ensures
            final(self).wf(),
            final(self).toks() == old(self).toks(),
            match dict_items(old(self).toks(), old(self).pos()) {
                Ok((es, j)) => r is Ok && entries_view(final(entries)@) == entries_view(old(entries)@) + es
                    && final(self).pos() == j,
                Err(m) => r matches Err(e) && e.0@ == m,
            },
            r is Ok ==> old(self).pos() < final(self).pos(),
        decreases old(self).toks().len() - old(self).pos(), 6int,
    {
        let ghost t = self.toks();
        proof {
            lemma_skip_semis(self.toks(), self.pos());
        }
        self.skip_semicolons();
        if !self.check(TokenKind::String) {
            return Err(self.expected_here(TokenKind::String));
        }
        let key = match &self.tokens[self.i].literal {
            Some(Literal::Str(k)) => k.clone(),
            _ => return Err(BasilError(string_of("Dictionary key must be a quoted string literal"))),
        };
        self.next();
        match self.expect(TokenKind::Colon) {
            Ok(()) => {},
            Err(e) => return Err(e),
        }
        let v = match self.parse_expr_bp(0) {
            Ok(e) => e,
            Err(e) => return Err(e),
        };
        let ghost entry = (key@, expr_view(v));
        let ghost before = entries@;
        let pair = (key, v);
        proof {
            crate::ast::lemma_entries_view_push(before, pair);
        }
        entries.push(pair);
        proof {
            lemma_skip_semis(self.toks(), self.pos());
        }
        self.skip_semicolons();
        if self.check(TokenKind::Comma) {
            let ghost k = self.pos();
            self.next();
            let r = self.parse_dict_items(entries);
            proof {
                if let Ok((rest, m)) = dict_items(t, k + 1) {
                    assert(entries_view(before).push(entry) + rest =~= entries_view(before) + (seq![entry] + rest));
                }
            }
            r
        } else {
            assert(entries_view(before) + seq![entry] =~= entries_view(before).push(entry));
            Ok(())
        }
    }

    fn peek_binop_bp(&self) -> (o: Option<(BinOp, u8, u8)>)
        requires
            self.wf(),
        ensures
            match binop_at(self.toks(), self.pos()) {
                Some((op, l, r)) => o matches Some((op2, l2, r2)) && op2 == op && l2 == l && r2 == r,
                None => o is None,
            },
    {
        match self.peek_kind() {
            Some(TokenKind::Or) => Some((BinOp::Or, 20, 21)),
            Some(TokenKind::And) => Some((BinOp::And, 30, 31)),
            Some(TokenKind::EqEq) => Some((BinOp::Eq, 40, 41)),
            Some(TokenKind::Assign) => Some((BinOp::Eq, 40, 41)),
            Some(TokenKind::BangEq) => Some((BinOp::Ne, 40, 41)),
            Some(TokenKind::Lt) => Some((BinOp::Lt, 50, 51)),
            Some(TokenKind::LtEq) => Some((BinOp::Le, 50, 51)),
            Some(TokenKind::Gt) => Some((BinOp::Gt, 50, 51)),
            Some(TokenKind::GtEq) => Some((BinOp::Ge, 50, 51)),
            Some(TokenKind::Plus) => Some((BinOp::Add, 60, 61)),
            Some(TokenKind::Minus) => Some((BinOp::Sub, 60, 61)),
            Some(TokenKind::Star) => Some((BinOp::Mul, 70, 71)),
            Some(TokenKind::Slash) => Some((BinOp::Div, 70, 71)),
            Some(TokenKind::Mod) => Some((BinOp::Mod, 70, 71)),
            _ => None,
        }
    }
}

fn is_member_name_kind(k: TokenKind) -> (b: bool)
    ensures
        b == member_name_kind(k),
{
    match k {
        TokenKind::Ident | TokenKind::Func | TokenKind::Return | TokenKind::If | TokenKind::Then
        | TokenKind::Else | TokenKind::While | TokenKind::Do | TokenKind::Begin | TokenKind::End
        | TokenKind::With | TokenKind::Break | TokenKind::Continue | TokenKind::Let | TokenKind::Print
        | TokenKind::Println | TokenKind::True | TokenKind::False | TokenKind::Null | TokenKind::And
        | TokenKind::Or | TokenKind::Not | TokenKind::Author | TokenKind::For | TokenKind::To
        | TokenKind::Step | TokenKind::Next | TokenKind::Each | TokenKind::In | TokenKind::Foreach
        | TokenKind::Endfor | TokenKind::Dim | TokenKind::As | TokenKind::Describe | TokenKind::New
        | TokenKind::Class | TokenKind::Setenv | TokenKind::Exportenv | TokenKind::Shell
        | TokenKind::Exit | TokenKind::Label | TokenKind::Goto | TokenKind::Gosub | TokenKind::Mod
        | TokenKind::Exec | TokenKind::Eval => true,
        _ => false,
    }
}

pub open spec fn multiplicative(k: Option<TokenKind>) -> bool {
    k == Some(TokenKind::Star) || k == Some(TokenKind::Slash) || k == Some(TokenKind::Mod)
}

pub open spec fn additive(k: Option<TokenKind>) -> bool {
    k == Some(TokenKind::Plus) || k == Some(TokenKind::Minus)
}

pub open spec fn comparing(k: Option<TokenKind>) -> bool {
    k == Some(TokenKind::EqEq) || k == Some(TokenKind::Assign) || k == Some(TokenKind::BangEq) || k == Some(
        TokenKind::Lt,
    ) || k == Some(TokenKind::LtEq) || k == Some(TokenKind::Gt) || k == Some(TokenKind::GtEq)
}

/// Operator precedence, from tightest: `*`, `/` and `MOD` alike; then `+` and
/// `-` alike; then the comparisons; then `AND`; then `OR`. An operator of a
/// tighter level takes its operand away from one of a looser level (its left
/// binding power is above the other's right one, so `a + b MOD c` is
/// `a + (b MOD c)`), and every operator groups from the left.
pub proof fn law_operator_precedence(toks: Seq<TokenView>, i: int, j: int)
    ensures
        binop_at(toks, i) is Some ==> binop_at(toks, i).unwrap().1 < binop_at(toks, i).unwrap().2,
        multiplicative(kind_at(toks, i)) && multiplicative(kind_at(toks, j)) ==> binop_at(toks, i) is Some && binop_at(toks, j) is Some
            && binop_at(toks, i).unwrap().1 == binop_at(toks, j).unwrap().1 && binop_at(toks, i).unwrap().2 == binop_at(toks, j).unwrap().2,
        additive(kind_at(toks, i)) && additive(kind_at(toks, j)) ==> binop_at(toks, i) is Some && binop_at(toks, j) is Some
            && binop_at(toks, i).unwrap().1 == binop_at(toks, j).unwrap().1 && binop_at(toks, i).unwrap().2 == binop_at(toks, j).unwrap().2,
        multiplicative(kind_at(toks, i)) && additive(kind_at(toks, j)) ==> binop_at(toks, i) is Some && binop_at(toks, j) is Some
            && binop_at(toks, i).unwrap().1 > binop_at(toks, j).unwrap().2,
        additive(kind_at(toks, i)) && comparing(kind_at(toks, j)) ==> binop_at(toks, i) is Some && binop_at(toks, j) is Some
            && binop_at(toks, i).unwrap().1 > binop_at(toks, j).unwrap().2,
        comparing(kind_at(toks, i)) && kind_at(toks, j) == Some(TokenKind::And) ==> binop_at(toks, i) is Some && binop_at(toks, j) is Some
            && binop_at(toks, i).unwrap().1 > binop_at(toks, j).unwrap().2,
        kind_at(toks, i) == Some(TokenKind::And) && kind_at(toks, j) == Some(TokenKind::Or) ==> binop_at(toks, i) is Some && binop_at(toks, j) is Some
            && binop_at(toks, i).unwrap().1 > binop_at(toks, j).unwrap().2,
{
}

/// Each operator token stands for the operation its symbol names: on any two
/// numbers, the operator that the parser reads from the token computes the sum,
/// difference, product, quotient, remainder or comparison written (`=` and `==`
/// both compare for equality, `<>`/`!=` for inequality).
pub proof fn law_operator_tokens_mean(toks: Seq<TokenView>, i: int, x: int, y: int)
    ensures
        kind_at(toks, i) == Some(TokenKind::Plus) ==> binop_at(toks, i) is Some && source_meaning(binop_at(toks, i).unwrap().0, x, y) == x + y,
        kind_at(toks, i) == Some(TokenKind::Minus) ==> binop_at(toks, i) is Some && source_meaning(binop_at(toks, i).unwrap().0, x, y) == x - y,
        kind_at(toks, i) == Some(TokenKind::Star) ==> binop_at(toks, i) is Some && source_meaning(binop_at(toks, i).unwrap().0, x, y) == x * y,
        kind_at(toks, i) == Some(TokenKind::Slash) ==> binop_at(toks, i) is Some && source_meaning(binop_at(toks, i).unwrap().0, x, y) == x / y,
        kind_at(toks, i) == Some(TokenKind::Mod) ==> binop_at(toks, i) is Some && source_meaning(binop_at(toks, i).unwrap().0, x, y) == x % y,
        (kind_at(toks, i) == Some(TokenKind::EqEq) || kind_at(toks, i) == Some(TokenKind::Assign)) ==> binop_at(toks, i) is Some
            && source_meaning(binop_at(toks, i).unwrap().0, x, y) == (if x == y { 1int } else { 0int }),
        kind_at(toks, i) == Some(TokenKind::BangEq) ==> binop_at(toks, i) is Some && source_meaning(binop_at(toks, i).unwrap().0, x, y) == (if x != y { 1int } else { 0int }),
        kind_at(toks, i) == Some(TokenKind::Lt) ==> binop_at(toks, i) is Some && source_meaning(binop_at(toks, i).unwrap().0, x, y) == (if x < y { 1int } else { 0int }),
        kind_at(toks, i) == Some(TokenKind::LtEq) ==> binop_at(toks, i) is Some && source_meaning(binop_at(toks, i).unwrap().0, x, y) == (if x <= y { 1int } else { 0int }),
        kind_at(toks, i) == Some(TokenKind::Gt) ==> binop_at(toks, i) is Some && source_meaning(binop_at(toks, i).unwrap().0, x, y) == (if x > y { 1int } else { 0int }),
        kind_at(toks, i) == Some(TokenKind::GtEq) ==> binop_at(toks, i) is Some && source_meaning(binop_at(toks, i).unwrap().0, x, y) == (if x >= y { 1int } else { 0int }),
        kind_at(toks, i) == Some(TokenKind::And) ==> binop_at(toks, i) is Some && source_meaning(binop_at(toks, i).unwrap().0, x, y) == (if x != 0 && y != 0 { 1int } else { 0int }),
        kind_at(toks, i) == Some(TokenKind::Or) ==> binop_at(toks, i) is Some && source_meaning(binop_at(toks, i).unwrap().0, x, y) == (if x != 0 || y != 0 { 1int } else { 0int }),
{
}

} // verus!
