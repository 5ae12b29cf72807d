use vstd::prelude::*;

verus! {

/// A Basil expression. A number is kept as the text of its numeral.
#[derive(Debug)]
pub enum Expr {
    Number(String),
    Str(String),
    Bool(bool),
    Var(String),
    UnaryNeg(Box<Expr>),
    UnaryNot(Box<Expr>),
    Binary { op: BinOp, lhs: Box<Expr>, rhs: Box<Expr> },
    /// Postfix parentheses: a call or an array index (told apart when compiling).
    Call { callee: Box<Expr>, args: Vec<Expr> },
    MemberGet { target: Box<Expr>, name: String },
    MemberCall { target: Box<Expr>, method: String, args: Vec<Expr> },
    /// The receiver of a WITH block.
    ImplicitThis,
    /// `NEW Type(args)`.
    NewObject { type_label: String, args: Vec<Expr> },
    /// `CLASS(filename)`.
    NewClass { filename: Box<Expr> },
    /// `EVAL(expr)`.
    Eval(Box<Expr>),
    List(Vec<Expr>),
    Dict(Vec<(String, Expr)>),
    IndexSquare { target: Box<Expr>, index: Box<Expr> },
}

/// The mathematical value of an `Expr`.
pub enum ExprView {
    Number(Seq<char>),
    Str(Seq<char>),
    Bool(bool),
    Var(Seq<char>),
    UnaryNeg(Box<ExprView>),
    UnaryNot(Box<ExprView>),
    Binary { op: BinOp, lhs: Box<ExprView>, rhs: Box<ExprView> },
    Call { callee: Box<ExprView>, args: Seq<ExprView> },
    MemberGet { target: Box<ExprView>, name: Seq<char> },
    MemberCall { target: Box<ExprView>, method: Seq<char>, args: Seq<ExprView> },
    ImplicitThis,
    NewObject { type_label: Seq<char>, args: Seq<ExprView> },
    NewClass { filename: Box<ExprView> },
    Eval(Box<ExprView>),
    List(Seq<ExprView>),
    Dict(Seq<(Seq<char>, ExprView)>),
    IndexSquare { target: Box<ExprView>, index: Box<ExprView> },
}

pub open spec fn expr_view(e: Expr) -> ExprView
    decreases e,
{
    match e {
        Expr::Number(n) => ExprView::Number(n@),
        Expr::Str(s) => ExprView::Str(s@),
        Expr::Bool(b) => ExprView::Bool(b),
        Expr::Var(v) => ExprView::Var(v@),
        Expr::UnaryNeg(x) => ExprView::UnaryNeg(Box::new(expr_view(*x))),
        Expr::UnaryNot(x) => ExprView::UnaryNot(Box::new(expr_view(*x))),
        Expr::Binary { op, lhs, rhs } => ExprView::Binary {
            op,
            lhs: Box::new(expr_view(*lhs)),
            rhs: Box::new(expr_view(*rhs)),
        },
        Expr::Call { callee, args } => ExprView::Call { callee: Box::new(expr_view(*callee)), args: exprs_view(args@) },
        Expr::MemberGet { target, name } => ExprView::MemberGet { target: Box::new(expr_view(*target)), name: name@ },
        Expr::MemberCall { target, method, args } => ExprView::MemberCall {
            target: Box::new(expr_view(*target)),
            method: method@,
            args: exprs_view(args@),
        },
        Expr::ImplicitThis => ExprView::ImplicitThis,
        Expr::NewObject { type_label, args } => ExprView::NewObject { type_label: type_label@, args: exprs_view(args@) },
        Expr::NewClass { filename } => ExprView::NewClass { filename: Box::new(expr_view(*filename)) },
        Expr::Eval(x) => ExprView::Eval(Box::new(expr_view(*x))),
        Expr::List(items) => ExprView::List(exprs_view(items@)),
        Expr::Dict(entries) => ExprView::Dict(entries_view(entries@)),
        Expr::IndexSquare { target, index } => ExprView::IndexSquare {
            target: Box::new(expr_view(*target)),
            index: Box::new(expr_view(*index)),
        },
    }
}

pub open spec fn exprs_view(s: Seq<Expr>) -> Seq<ExprView>
    decreases s,
{
    if s.len() == 0 {
        seq![]
    } else {
        exprs_view(s.drop_last()).push(expr_view(s.last()))
    }
}

pub open spec fn entries_view(s: Seq<(String, Expr)>) -> Seq<(Seq<char>, ExprView)>
    decreases s,
{
    if s.len() == 0 {
        seq![]
    } else {
        entries_view(s.drop_last()).push((s.last().0@, expr_view(s.last().1)))
    }
}

pub proof fn lemma_exprs_view_push(s: Seq<Expr>, x: Expr)
    ensures
        exprs_view(s.push(x)) == exprs_view(s).push(expr_view(x)),
{
    assert(s.push(x).drop_last() =~= s);
}

pub proof fn lemma_exprs_view_index(s: Seq<Expr>)
    ensures
        exprs_view(s).len() == s.len(),
        forall|k: int| 0 <= k < s.len() ==> #[trigger] exprs_view(s)[k] == expr_view(s[k]),
    decreases s.len(),
{
    if s.len() > 0 {
        lemma_exprs_view_index(s.drop_last());
    }
}

pub proof fn lemma_entries_view_push(s: Seq<(String, Expr)>, x: (String, Expr))
    ensures
        entries_view(s.push(x)) == entries_view(s).push((x.0@, expr_view(x.1))),
{
    assert(s.push(x).drop_last() =~= s);
}

/// The binary operators of Basil expressions.
#[derive(Debug, Clone, Copy, PartialEq, Eq, Structural)]
pub enum BinOp {
    Add,
    Sub,
    Mul,
    Div,
    Mod,
    Eq,
    Ne,
    Lt,
    Le,
    Gt,
    Ge,
    And,
    Or,
}

/// Whether a routine was declared with FUNC or SUB.
#[derive(Debug, Clone, Copy, PartialEq, Eq, Structural)]
pub enum FuncKind {
    Func,
    Sub,
}

/// A field of a TYPE ... END TYPE definition.
#[derive(Debug, Clone)]
pub struct StructField {
    pub name: String,
    pub kind: StructFieldKind,
}

/// The storage kind of a struct field.
#[derive(Debug, Clone)]
pub enum StructFieldKind {
    Int32,
    Float64,
    /// A variable-length string (a handle at run time).
    VarString,
    /// A fixed-length string of the declared byte size.
    FixedString(usize),
    /// A nested struct, by type name.
    Struct(String),
}

} // verus!

verus! {

/// One pattern of a CASE arm.
#[derive(Debug)]
pub enum CasePattern {
    Value(Expr),
    Range { lo: Expr, hi: Expr },
    Compare { op: BinOp, rhs: Expr },
}

/// A CASE arm: its patterns and its body.
#[derive(Debug)]
pub struct CaseArm {
    pub patterns: Vec<CasePattern>,
    pub body: Vec<Stmt>,
}

/// A Basil statement.
#[derive(Debug)]
pub enum Stmt {
    /// LET of a variable, or of an array element when indices are given.
    Let { name: String, indices: Option<Vec<Expr>>, init: Expr },
    /// DIM of an array (one to four dimensions).
    Dim { name: String, dims: Vec<Expr> },
    /// DIM x@ AS Type(args): a scalar object.
    DimObject { name: String, type_label: String, args: Vec<Expr> },
    /// DIM arr@(dims) [AS Type]: an array of objects.
    DimObjectArray { name: String, dims: Vec<Expr>, type_label: Option<String> },
    /// A fixed-length string: DIM name$ AS STRING * N, or DIM name$[N].
    DimFixedStr { name: String, len: usize },
    /// TYPE ... END TYPE.
    TypeDef { name: String, fields: Vec<StructField> },
    /// obj.Prop = expr.
    SetProp { target: Expr, prop: String, value: Expr },
    /// list[i] = expr or dict["k"] = expr.
    SetIndexSquare { target: Expr, index: Expr, value: Expr },
    Describe { target: Expr },
    Print { expr: Expr },
    Exec { code: Expr },
    SetEnv { name: String, value: Expr, export: bool },
    Shell { cmd: Expr },
    Exit(Option<Expr>),
    Stop,
    ExprStmt(Expr),
    /// RETURN from a function.
    Return(Option<Expr>),
    /// RETURN from a GOSUB, or RETURN TO a label.
    ReturnFromGosub(Option<String>),
    Label(String),
    Goto(String),
    Gosub(String),
    If { cond: Expr, then_branch: Box<Stmt>, else_branch: Option<Box<Stmt>> },
    While { cond: Expr, body: Box<Stmt> },
    Break,
    Continue,
    Block(Vec<Stmt>),
    Func { kind: FuncKind, name: String, params: Vec<String>, body: Vec<Stmt> },
    For { var: String, start: Expr, end: Expr, step: Option<Expr>, body: Box<Stmt> },
    ForEach { var: String, enumerable: Expr, body: Box<Stmt> },
    SelectCase { selector: Expr, arms: Vec<CaseArm>, else_body: Option<Vec<Stmt>> },
    With { target: Expr, body: Vec<Stmt> },
    Try {
        try_body: Vec<Stmt>,
        catch_var: Option<String>,
        catch_body: Option<Vec<Stmt>>,
        finally_body: Option<Vec<Stmt>>,
    },
    Raise(Option<Expr>),
    /// Marks the source line of the statement after it.
    Line(u32),
}

pub enum CasePatternView {
    Value(ExprView),
    Range { lo: ExprView, hi: ExprView },
    Compare { op: BinOp, rhs: ExprView },
}

pub struct CaseArmView {
    pub patterns: Seq<CasePatternView>,
    pub body: Seq<StmtView>,
}

pub enum FieldKindView {
    Int32,
    Float64,
    VarString,
    FixedString(usize),
    Struct(Seq<char>),
}

pub struct FieldView {
    pub name: Seq<char>,
    pub kind: FieldKindView,
}

/// The mathematical value of a `Stmt`.
pub enum StmtView {
    Let { name: Seq<char>, indices: Option<Seq<ExprView>>, init: ExprView },
    Dim { name: Seq<char>, dims: Seq<ExprView> },
    DimObject { name: Seq<char>, type_label: Seq<char>, args: Seq<ExprView> },
    DimObjectArray { name: Seq<char>, dims: Seq<ExprView>, type_label: Option<Seq<char>> },
    DimFixedStr { name: Seq<char>, len: usize },
    TypeDef { name: Seq<char>, fields: Seq<FieldView> },
    SetProp { target: ExprView, prop: Seq<char>, value: ExprView },
    SetIndexSquare { target: ExprView, index: ExprView, value: ExprView },
    Describe { target: ExprView },
    Print { expr: ExprView },
    Exec { code: ExprView },
    SetEnv { name: Seq<char>, value: ExprView, export: bool },
    Shell { cmd: ExprView },
    Exit(Option<ExprView>),
    Stop,
    ExprStmt(ExprView),
    Return(Option<ExprView>),
    ReturnFromGosub(Option<Seq<char>>),
    Label(Seq<char>),
    Goto(Seq<char>),
    Gosub(Seq<char>),
    If { cond: ExprView, then_branch: Box<StmtView>, else_branch: Option<Box<StmtView>> },
    While { cond: ExprView, body: Box<StmtView> },
    Break,
    Continue,
    Block(Seq<StmtView>),
    Func { kind: FuncKind, name: Seq<char>, params: Seq<Seq<char>>, body: Seq<StmtView> },
    For { var: Seq<char>, start: ExprView, end: ExprView, step: Option<ExprView>, body: Box<StmtView> },
    ForEach { var: Seq<char>, enumerable: ExprView, body: Box<StmtView> },
    SelectCase { selector: ExprView, arms: Seq<CaseArmView>, else_body: Option<Seq<StmtView>> },
    With { target: ExprView, body: Seq<StmtView> },
    Try {
        try_body: Seq<StmtView>,
        catch_var: Option<Seq<char>>,
        catch_body: Option<Seq<StmtView>>,
        finally_body: Option<Seq<StmtView>>,
    },
    Raise(Option<ExprView>),
    Line(u32),
}

pub open spec fn opt_expr_view(o: Option<Expr>) -> Option<ExprView> {
    match o {
        Some(e) => Some(expr_view(e)),
        None => None,
    }
}

pub open spec fn opt_string_view(o: Option<String>) -> Option<Seq<char>> {
    match o {
        Some(s) => Some(s@),
        None => None,
    }
}

pub open spec fn strings_view(s: Seq<String>) -> Seq<Seq<char>> {
    s.map_values(|x: String| x@)
}

pub open spec fn field_view(f: StructField) -> FieldView {
    FieldView {
        name: f.name@,
        kind: match f.kind {
            StructFieldKind::Int32 => FieldKindView::Int32,
            StructFieldKind::Float64 => FieldKindView::Float64,
            StructFieldKind::VarString => FieldKindView::VarString,
            StructFieldKind::FixedString(n) => FieldKindView::FixedString(n),
            StructFieldKind::Struct(t) => FieldKindView::Struct(t@),
        },
    }
}

pub open spec fn fields_view(s: Seq<StructField>) -> Seq<FieldView> {
    s.map_values(|f: StructField| field_view(f))
}

pub open spec fn pattern_view(p: CasePattern) -> CasePatternView {
    match p {
        CasePattern::Value(e) => CasePatternView::Value(expr_view(e)),
        CasePattern::Range { lo, hi } => CasePatternView::Range { lo: expr_view(lo), hi: expr_view(hi) },
        CasePattern::Compare { op, rhs } => CasePatternView::Compare { op, rhs: expr_view(rhs) },
    }
}

pub open spec fn patterns_view(s: Seq<CasePattern>) -> Seq<CasePatternView> {
    s.map_values(|p: CasePattern| pattern_view(p))
}

pub open spec fn stmt_view(s: Stmt) -> StmtView
    decreases s,
{
    match s {
        Stmt::Let { name, indices, init } => StmtView::Let {
            name: name@,
            indices: match indices {
                Some(v) => Some(exprs_view(v@)),
                None => None,
            },
            init: expr_view(init),
        },
        Stmt::Dim { name, dims } => StmtView::Dim { name: name@, dims: exprs_view(dims@) },
        Stmt::DimObject { name, type_label, args } => StmtView::DimObject {
            name: name@,
            type_label: type_label@,
            args: exprs_view(args@),
        },
        Stmt::DimObjectArray { name, dims, type_label } => StmtView::DimObjectArray {
            name: name@,
            dims: exprs_view(dims@),
            type_label: opt_string_view(type_label),
        },
        Stmt::DimFixedStr { name, len } => StmtView::DimFixedStr { name: name@, len },
        Stmt::TypeDef { name, fields } => StmtView::TypeDef { name: name@, fields: fields_view(fields@) },
        Stmt::SetProp { target, prop, value } => StmtView::SetProp {
            target: expr_view(target),
            prop: prop@,
            value: expr_view(value),
        },
        Stmt::SetIndexSquare { target, index, value } => StmtView::SetIndexSquare {
            target: expr_view(target),
            index: expr_view(index),
            value: expr_view(value),
        },
        Stmt::Describe { target } => StmtView::Describe { target: expr_view(target) },
        Stmt::Print { expr } => StmtView::Print { expr: expr_view(expr) },
        Stmt::Exec { code } => StmtView::Exec { code: expr_view(code) },
        Stmt::SetEnv { name, value, export } => StmtView::SetEnv { name: name@, value: expr_view(value), export },
        Stmt::Shell { cmd } => StmtView::Shell { cmd: expr_view(cmd) },
        Stmt::Exit(e) => StmtView::Exit(opt_expr_view(e)),
        Stmt::Stop => StmtView::Stop,
        Stmt::ExprStmt(e) => StmtView::ExprStmt(expr_view(e)),
        Stmt::Return(e) => StmtView::Return(opt_expr_view(e)),
        Stmt::ReturnFromGosub(l) => StmtView::ReturnFromGosub(opt_string_view(l)),
        Stmt::Label(l) => StmtView::Label(l@),
        Stmt::Goto(l) => StmtView::Goto(l@),
        Stmt::Gosub(l) => StmtView::Gosub(l@),
        Stmt::If { cond, then_branch, else_branch } => StmtView::If {
            cond: expr_view(cond),
            then_branch: Box::new(stmt_view(*then_branch)),
            else_branch: match else_branch {
                Some(b) => Some(Box::new(stmt_view(*b))),
                None => None,
            },
        },
        Stmt::While { cond, body } => StmtView::While { cond: expr_view(cond), body: Box::new(stmt_view(*body)) },
        Stmt::Break => StmtView::Break,
        Stmt::Continue => StmtView::Continue,
        Stmt::Block(b) => StmtView::Block(stmts_view(b@)),
        Stmt::Func { kind, name, params, body } => StmtView::Func {
            kind,
            name: name@,
            params: strings_view(params@),
            body: stmts_view(body@),
        },
        Stmt::For { var, start, end, step, body } => StmtView::For {
            var: var@,
            start: expr_view(start),
            end: expr_view(end),
            step: opt_expr_view(step),
            body: Box::new(stmt_view(*body)),
        },
        Stmt::ForEach { var, enumerable, body } => StmtView::ForEach {
            var: var@,
            enumerable: expr_view(enumerable),
            body: Box::new(stmt_view(*body)),
        },
        Stmt::SelectCase { selector, arms, else_body } => StmtView::SelectCase {
            selector: expr_view(selector),
            arms: arms_view(arms@),
            else_body: match else_body {
                Some(b) => Some(stmts_view(b@)),
                None => None,
            },
        },
        Stmt::With { target, body } => StmtView::With { target: expr_view(target), body: stmts_view(body@) },
        Stmt::Try { try_body, catch_var, catch_body, finally_body } => StmtView::Try {
            try_body: stmts_view(try_body@),
            catch_var: opt_string_view(catch_var),
            catch_body: match catch_body {
                Some(b) => Some(stmts_view(b@)),
                None => None,
            },
            finally_body: match finally_body {
                Some(b) => Some(stmts_view(b@)),
                None => None,
            },
        },
        Stmt::Raise(e) => StmtView::Raise(opt_expr_view(e)),
        Stmt::Line(n) => StmtView::Line(n),
    }
}

pub open spec fn stmts_view(s: Seq<Stmt>) -> Seq<StmtView>
    decreases s,
{
    if s.len() == 0 {
        seq![]
    } else {
        stmts_view(s.drop_last()).push(stmt_view(s.last()))
    }
}

pub open spec fn arms_view(s: Seq<CaseArm>) -> Seq<CaseArmView>
    decreases s,
{
    if s.len() == 0 {
        seq![]
    } else {
        arms_view(s.drop_last()).push(
            CaseArmView { patterns: patterns_view(s.last().patterns@), body: stmts_view(s.last().body@) },
        )
    }
}

pub proof fn lemma_stmts_view_push(s: Seq<Stmt>, x: Stmt)
    ensures
        stmts_view(s.push(x)) == stmts_view(s).push(stmt_view(x)),
{
    assert(s.push(x).drop_last() =~= s);
}

pub proof fn lemma_stmts_view_index(s: Seq<Stmt>)
    ensures
        stmts_view(s).len() == s.len(),
        forall|k: int| 0 <= k < s.len() ==> #[trigger] stmts_view(s)[k] == stmt_view(s[k]),
    decreases s.len(),
{
    if s.len() > 0 {
        lemma_stmts_view_index(s.drop_last());
    }
}

pub proof fn lemma_arms_view_push(s: Seq<CaseArm>, x: CaseArm)
    ensures
        arms_view(s.push(x)) == arms_view(s).push(
            CaseArmView { patterns: patterns_view(x.patterns@), body: stmts_view(x.body@) },
        ),
{
    assert(s.push(x).drop_last() =~= s);
}

/// A copy of `e` with the same value.
pub fn copy_expr(e: &Expr) -> (r: Expr)
    ensures
        expr_view(r) == expr_view(*e),
    decreases e, 1int,
{
    match e {
        Expr::Number(n) => Expr::Number(n.clone()),
        Expr::Str(t) => Expr::Str(t.clone()),
        Expr::Bool(b) => Expr::Bool(*b),
        Expr::Var(v) => Expr::Var(v.clone()),
        Expr::UnaryNeg(x) => Expr::UnaryNeg(Box::new(copy_expr(x))),
        Expr::UnaryNot(x) => Expr::UnaryNot(Box::new(copy_expr(x))),
        Expr::Binary { op, lhs, rhs } => Expr::Binary {
            op: *op,
            lhs: Box::new(copy_expr(lhs)),
            rhs: Box::new(copy_expr(rhs)),
        },
        Expr::Call { callee, args } => Expr::Call { callee: Box::new(copy_expr(callee)), args: copy_exprs(args) },
        Expr::MemberGet { target, name } => Expr::MemberGet { target: Box::new(copy_expr(target)), name: name.clone() },
        Expr::MemberCall { target, method, args } => Expr::MemberCall {
            target: Box::new(copy_expr(target)),
            method: method.clone(),
            args: copy_exprs(args),
        },
        Expr::ImplicitThis => Expr::ImplicitThis,
        Expr::NewObject { type_label, args } => Expr::NewObject { type_label: type_label.clone(), args: copy_exprs(args) },
        Expr::NewClass { filename } => Expr::NewClass { filename: Box::new(copy_expr(filename)) },
        Expr::Eval(x) => Expr::Eval(Box::new(copy_expr(x))),
        Expr::List(items) => Expr::List(copy_exprs(items)),
        Expr::Dict(entries) => Expr::Dict(copy_entries(entries)),
        Expr::IndexSquare { target, index } => Expr::IndexSquare {
            target: Box::new(copy_expr(target)),
            index: Box::new(copy_expr(index)),
        },
    }
}

/// Copies of the expressions `es`, in order.
pub fn copy_exprs(es: &Vec<Expr>) -> (r: Vec<Expr>)
    ensures
        exprs_view(r@) == exprs_view(es@),
    decreases es, 0int,
{
    let mut out: Vec<Expr> = Vec::new();
    let mut i: usize = 0;
    while i < es.len()
        invariant
            i <= es.len(),
            exprs_view(out@) == exprs_view(es@.take(i as int)),
        decreases es.len() - i,
    {
        assert(decreases_to!(es => es@[i as int]));
        let x = copy_expr(&es[i]);
        proof {
            lemma_exprs_view_push(out@, x);
            lemma_exprs_view_push(es@.take(i as int), es@[i as int]);
            assert(es@.take(i as int).push(es@[i as int]) =~= es@.take(i + 1));
        }
        out.push(x);
        i += 1;
    }
    assert(es@.take(es.len() as int) =~= es@);
    out
}

/// Copies of the entries `es`, in order.
pub fn copy_entries(es: &Vec<(String, Expr)>) -> (r: Vec<(String, Expr)>)
    ensures
        entries_view(r@) == entries_view(es@),
    decreases es, 0int,
{
    let mut out: Vec<(String, Expr)> = Vec::new();
    let mut i: usize = 0;
    while i < es.len()
        invariant
            i <= es.len(),
            entries_view(out@) == entries_view(es@.take(i as int)),
        decreases es.len() - i,
    {
        assert(decreases_to!(es => es@[i as int]));
        assert(decreases_to!(es@[i as int] => es@[i as int].1));
        let x = copy_expr(&es[i].1);
        let k = es[i].0.clone();
        proof {
            lemma_entries_view_push(out@, (k, x));
            lemma_entries_view_push(es@.take(i as int), es@[i as int]);
            assert(es@.take(i as int).push(es@[i as int]) =~= es@.take(i + 1));
        }
        out.push((k, x));
        i += 1;
    }
    assert(es@.take(es.len() as int) =~= es@);
    out
}

} // verus!
