use vstd::prelude::*;

use crate::ast::{stmt_view, stmts_view, Stmt, StmtView};
use crate::lexer::byte_len;
use crate::statements::{parse, parsed};

verus! {

/// How serious a diagnostic is.
#[derive(Debug, Clone, Copy, PartialEq, Eq, Structural)]
pub enum DiagnosticSeverity {
    Error,
    Warning,
    Information,
}

/// A message about a source file, at a line and column.
#[derive(Debug, Clone)]
pub struct Diagnostic {
    pub message: String,
    pub line: usize,
    pub column: usize,
    pub severity: DiagnosticSeverity,
}

/// What a declared symbol is.
#[derive(Debug, Clone, Copy, PartialEq, Eq, Structural)]
pub enum SymbolKind {
    Function,
    Variable,
    Label,
}

/// A symbol that a source file declares.
#[derive(Debug, Clone)]
pub struct SymbolInfo {
    pub name: String,
    pub kind: SymbolKind,
    pub line: usize,
    pub col: usize,
}

/// The errors found in a source file and the symbols it declares.
#[derive(Debug, Clone)]
pub struct CompilerDiagnostics {
    pub errors: Vec<Diagnostic>,
    pub symbols: Vec<SymbolInfo>,
}

impl Default for CompilerDiagnostics {
    fn default() -> (d: Self)
        ensures
            d.errors@.len() == 0,
            d.symbols@.len() == 0,
    {
        CompilerDiagnostics { errors: Vec::new(), symbols: Vec::new() }
    }
}

/// A symbol as a name, a kind, a line and a column.
pub open spec fn symbol_view(s: SymbolInfo) -> (Seq<char>, SymbolKind, usize, usize) {
    (s.name@, s.kind, s.line, s.col)
}

pub open spec fn symbols_view(s: Seq<SymbolInfo>) -> Seq<(Seq<char>, SymbolKind, usize, usize)> {
    s.map_values(|x: SymbolInfo| symbol_view(x))
}

/// The symbol a top-level statement declares, if any: a routine, a LET variable or a
/// label (without a position).
pub open spec fn declared(s: StmtView) -> Seq<(Seq<char>, SymbolKind, usize, usize)> {
    match s {
        StmtView::Func { name, .. } => seq![(name, SymbolKind::Function, 0usize, 0usize)],
        StmtView::Let { name, .. } => seq![(name, SymbolKind::Variable, 0usize, 0usize)],
        StmtView::Label(l) => seq![(l, SymbolKind::Label, 0usize, 0usize)],
        _ => seq![],
    }
}

/// The symbols that the top-level statements declare, in order.
pub open spec fn declared_all(ss: Seq<StmtView>) -> Seq<(Seq<char>, SymbolKind, usize, usize)>
    decreases ss.len(),
{
    if ss.len() == 0 {
        seq![]
    } else {
        declared_all(ss.drop_last()) + declared(ss.last())
    }
}

/// Appends the symbols that the top-level statements of `ast` declare.
pub fn collect_symbols(ast: &Vec<Stmt>, syms: &mut Vec<SymbolInfo>)
    ensures
        symbols_view(final(syms)@) == symbols_view(old(syms)@) + declared_all(stmts_view(ast@)),
{
    let ghost s0 = symbols_view(syms@);
    proof {
        crate::ast::lemma_stmts_view_index(ast@);
    }
    let mut i: usize = 0;
    while i < ast.len()
        invariant
            i <= ast.len(),
            stmts_view(ast@).len() == ast@.len(),
            forall|k: int| 0 <= k < ast@.len() ==> #[trigger] stmts_view(ast@)[k] == stmt_view(ast@[k]),
            symbols_view(syms@) == s0 + declared_all(stmts_view(ast@).take(i as int)),
        decreases ast.len() - i,
    {
        let ghost before = syms@;
        let ghost sv = stmt_view(ast@[i as int]);
        match &ast[i] {
            Stmt::Func { name, .. } => {
                syms.push(SymbolInfo { name: name.clone(), kind: SymbolKind::Function, line: 0, col: 0 });
            },
            Stmt::Let { name, .. } => {
                syms.push(SymbolInfo { name: name.clone(), kind: SymbolKind::Variable, line: 0, col: 0 });
            },
            Stmt::Label(lbl) => {
                syms.push(SymbolInfo { name: lbl.clone(), kind: SymbolKind::Label, line: 0, col: 0 });
            },
            _ => {},
        }
        proof {
            let pre = stmts_view(ast@).take(i as int);
            let post = stmts_view(ast@).take(i + 1);
            assert(post.drop_last() =~= pre);
            assert(post.last() == sv);
            assert(symbols_view(syms@) =~= symbols_view(before) + declared(sv));
        }
        i = i + 1;
    }
    assert(stmts_view(ast@).take(ast@.len() as int) =~= stmts_view(ast@));
}

/// The diagnostics of a source file: the symbols of its top-level statements when it
/// parses, else its parse error (at line 0, column 0). A `str` holds at most
/// `isize::MAX` bytes.
pub fn analyze_source(source: &str, _filename: &str) -> (d: CompilerDiagnostics)
    requires
        byte_len(source@) <= isize::MAX,
    ensures
        match parsed(source@) {
            Ok(ss) => d.errors@.len() == 0 && symbols_view(d.symbols@) == declared_all(ss),
            Err(m) => d.symbols@.len() == 0 && d.errors@.len() == 1 && d.errors@[0].message@ == m
                && d.errors@[0].line == 0 && d.errors@[0].column == 0 && d.errors@[0].severity
                == DiagnosticSeverity::Error,
        },
{
    let mut out = CompilerDiagnostics::default();
    match parse(source) {
        Ok(ast) => {
            assert(symbols_view(out.symbols@) =~= Seq::empty());
            collect_symbols(&ast, &mut out.symbols);
            assert(Seq::<(Seq<char>, SymbolKind, usize, usize)>::empty() + declared_all(stmts_view(ast@))
                =~= declared_all(stmts_view(ast@)));
        },
        Err(e) => {
            out.errors.push(Diagnostic { message: e.0, line: 0, column: 0, severity: DiagnosticSeverity::Error });
        },
    }
    out
}

} // verus!
