use basilcore::ast::{BinOp, CasePattern, Expr, FuncKind, Stmt, StructFieldKind};
use basilcore::statements::parse;

fn op_name(op: BinOp) -> &'static str {
    match op {
        BinOp::Add => "+",
        BinOp::Sub => "-",
        BinOp::Mul => "*",
        BinOp::Div => "/",
        BinOp::Mod => "%",
        BinOp::Eq => "==",
        BinOp::Ne => "!=",
        BinOp::Lt => "<",
        BinOp::Le => "<=",
        BinOp::Gt => ">",
        BinOp::Ge => ">=",
        BinOp::And => "and",
        BinOp::Or => "or",
    }
}

fn ex_all(es: &[Expr]) -> String {
    es.iter().map(ex).collect::<Vec<String>>().join(" ")
}

fn ex(e: &Expr) -> String {
    match e {
        Expr::Number(n) => format!("#{}", n),
        Expr::Str(s) => format!("{:?}", s),
        Expr::Bool(b) => format!("{}", b),
        Expr::Var(v) => v.clone(),
        Expr::UnaryNeg(x) => format!("(neg {})", ex(x)),
        Expr::UnaryNot(x) => format!("(not {})", ex(x)),
        Expr::Binary { op, lhs, rhs } => format!("({} {} {})", op_name(*op), ex(lhs), ex(rhs)),
        Expr::Call { callee, args } => format!("(call {} [{}])", ex(callee), ex_all(args)),
        Expr::MemberGet { target, name } => format!("(get {} {})", ex(target), name),
        Expr::MemberCall { target, method, args } => format!("(mcall {} {} [{}])", ex(target), method, ex_all(args)),
        Expr::ImplicitThis => "this".to_string(),
        Expr::NewObject { type_label, args } => format!("(new {} [{}])", type_label, ex_all(args)),
        Expr::NewClass { filename } => format!("(class {})", ex(filename)),
        Expr::Eval(x) => format!("(eval {})", ex(x)),
        Expr::List(items) => format!("[{}]", ex_all(items)),
        Expr::Dict(entries) => {
            let parts: Vec<String> = entries.iter().map(|(k, v)| format!("{:?}:{}", k, ex(v))).collect();
            format!("{{{}}}", parts.join(" "))
        }
        Expr::IndexSquare { target, index } => format!("(index {} {})", ex(target), ex(index)),
    }
}

fn opt_ex(e: &Option<Expr>) -> String {
    match e {
        Some(e) => ex(e),
        None => "_".to_string(),
    }
}

fn body(ss: &[Stmt]) -> String {
    ss.iter().map(st).collect::<Vec<String>>().join(" ")
}

/// A compact rendering of a statement; line markers are written `@n`.
fn st(s: &Stmt) -> String {
    match s {
        Stmt::Let { name, indices, init } => match indices {
            Some(ix) => format!("(let {}({}) {})", name, ex_all(ix), ex(init)),
            None => format!("(let {} {})", name, ex(init)),
        },
        Stmt::Dim { name, dims } => format!("(dim {} [{}])", name, ex_all(dims)),
        Stmt::DimObject { name, type_label, args } => format!("(dimobj {} {} [{}])", name, type_label, ex_all(args)),
        Stmt::DimObjectArray { name, dims, type_label } => {
            format!("(dimobjs {} [{}] {})", name, ex_all(dims), type_label.clone().unwrap_or("_".to_string()))
        }
        Stmt::DimFixedStr { name, len } => format!("(dimstr {} {})", name, len),
        Stmt::TypeDef { name, fields } => {
            let fs: Vec<String> = fields
                .iter()
                .map(|f| {
                    let k = match &f.kind {
                        StructFieldKind::Int32 => "int".to_string(),
                        StructFieldKind::Float64 => "float".to_string(),
                        StructFieldKind::VarString => "str".to_string(),
                        StructFieldKind::FixedString(n) => format!("str*{}", n),
                        StructFieldKind::Struct(t) => format!("type {}", t),
                    };
                    format!("{}:{}", f.name, k)
                })
                .collect();
            format!("(type {} {})", name, fs.join(" "))
        }
        Stmt::SetProp { target, prop, value } => format!("(setprop {} {} {})", ex(target), prop, ex(value)),
        Stmt::SetIndexSquare { target, index, value } => format!("(setindex {} {} {})", ex(target), ex(index), ex(value)),
        Stmt::Describe { target } => format!("(describe {})", ex(target)),
        Stmt::Print { expr } => format!("(print {})", ex(expr)),
        Stmt::Exec { code } => format!("(exec {})", ex(code)),
        Stmt::SetEnv { name, value, export } => format!("({} {} {})", if *export { "exportenv" } else { "setenv" }, name, ex(value)),
        Stmt::Shell { cmd } => format!("(shell {})", ex(cmd)),
        Stmt::Exit(e) => format!("(exit {})", opt_ex(e)),
        Stmt::Stop => "(stop)".to_string(),
        Stmt::ExprStmt(e) => format!("(do {})", ex(e)),
        Stmt::Return(e) => format!("(return {})", opt_ex(e)),
        Stmt::ReturnFromGosub(l) => format!("(gosub-return {})", l.clone().unwrap_or("_".to_string())),
        Stmt::Label(l) => format!("(label {})", l),
        Stmt::Goto(l) => format!("(goto {})", l),
        Stmt::Gosub(l) => format!("(gosub {})", l),
        Stmt::If { cond, then_branch, else_branch } => match else_branch {
            Some(e) => format!("(if {} {} {})", ex(cond), st(then_branch), st(e)),
            None => format!("(if {} {})", ex(cond), st(then_branch)),
        },
        Stmt::While { cond, body: b } => format!("(while {} {})", ex(cond), st(b)),
        Stmt::Break => "(break)".to_string(),
        Stmt::Continue => "(continue)".to_string(),
        Stmt::Block(ss) => format!("{{{}}}", body(ss)),
        Stmt::Func { kind, name, params, body: b } => format!(
            "({} {}({}) {})",
            if *kind == FuncKind::Sub { "sub" } else { "func" },
            name,
            params.join(","),
            body(b)
        ),
        Stmt::For { var, start, end, step, body: b } => {
            format!("(for {} {} {} {} {})", var, ex(start), ex(end), opt_ex(step), st(b))
        }
        Stmt::ForEach { var, enumerable, body: b } => format!("(foreach {} {} {})", var, ex(enumerable), st(b)),
        Stmt::SelectCase { selector, arms, else_body } => {
            let a: Vec<String> = arms
                .iter()
                .map(|arm| {
                    let ps: Vec<String> = arm
                        .patterns
                        .iter()
                        .map(|p| match p {
                            CasePattern::Value(v) => ex(v),
                            CasePattern::Range { lo, hi } => format!("{}..{}", ex(lo), ex(hi)),
                            CasePattern::Compare { op, rhs } => format!("is{}{}", op_name(*op), ex(rhs)),
                        })
                        .collect();
                    format!("(case {} {})", ps.join(","), body(&arm.body))
                })
                .collect();
            match else_body {
                Some(b) => format!("(select {} {} (else {}))", ex(selector), a.join(" "), body(b)),
                None => format!("(select {} {})", ex(selector), a.join(" ")),
            }
        }
        Stmt::With { target, body: b } => format!("(with {} {})", ex(target), body(b)),
        Stmt::Try { try_body, catch_var, catch_body, finally_body } => format!(
            "(try {} catch {} {} finally {})",
            body(try_body),
            catch_var.clone().unwrap_or("_".to_string()),
            catch_body.as_ref().map(|b| body(b)).unwrap_or("_".to_string()),
            finally_body.as_ref().map(|b| body(b)).unwrap_or("_".to_string())
        ),
        Stmt::Raise(e) => format!("(raise {})", opt_ex(e)),
        Stmt::Line(n) => format!("@{}", n),
    }
}

fn prog(src: &str) -> Result<String, String> {
    parse(src).map(|ss| body(&ss)).map_err(|e| e.0)
}

#[test]
fn let_and_print_statements() {
    assert_eq!(prog("LET x = 1 + 2;").unwrap(), "@1 (let x (+ #1 #2))");
    assert_eq!(prog("LET a(1, 2) = 3;").unwrap(), "@1 (let a(#1 #2) #3)");
    assert_eq!(prog("LET d[\"k\"] = 3;").unwrap(), "@1 (setindex d \"k\" #3)");
    assert_eq!(prog("LET p.x = 3;").unwrap(), "@1 (setprop p x #3)");
    assert_eq!(prog("LET a(1).x = 3;").unwrap(), "@1 (setprop (call a [#1]) x #3)");
    assert_eq!(prog("PRINT a, b;").unwrap(), "@1 (print (+ (+ a \"\\t\") b))");
    assert_eq!(prog("PRINTLN a;").unwrap(), "@1 (print (+ a \"\\n\"))");
}

#[test]
fn statements_carry_their_lines() {
    assert_eq!(prog("PRINT 1\nPRINT 2\n\nPRINT 3").unwrap(), "@1 (print #1) @2 (print #2) @4 (print #3)");
    assert_eq!(prog("").unwrap(), "");
    assert_eq!(prog(";;:").unwrap(), "");
}

#[test]
fn if_forms() {
    assert_eq!(prog("IF x THEN PRINT 1; ELSE PRINT 2").unwrap(), "@1 (if x {@1 (print #1)} {@1 (print #2)})");
    assert_eq!(prog("IF x { PRINT 1; } ELSE { PRINT 2; }").unwrap(), "@1 (if x {@1 (print #1)} {@1 (print #2)})");
    assert_eq!(
        prog("IF x THEN BEGIN\nPRINT 1\nELSE\nPRINT 2\nEND IF").unwrap(),
        "@1 (if x {@2 (print #1)} (print #2))"
    );
    assert_eq!(prog("IF x THEN BEGIN PRINT 1; END").unwrap(), "@1 (if x {@1 (print #1)})");
    assert_eq!(prog("IF x PRINT 1").unwrap_err(), "parse error at line 1: expected Then");
}

#[test]
fn loops() {
    assert_eq!(prog("WHILE i < 3 BEGIN LET i = i + 1; END").unwrap(), "@1 (while (< i #3) {@1 (let i (+ i #1))})");
    assert_eq!(prog("WHILE x { BREAK; CONTINUE; }").unwrap(), "@1 (while x {@1 (break) @1 (continue)})");
    assert_eq!(prog("FOR i = 1 TO 10 STEP 2 PRINT i; NEXT i").unwrap(), "@1 (for i #1 #10 #2 {@1 (print i)})");
    assert_eq!(prog("FOR EACH v IN xs { PRINT v; } NEXT").unwrap(), "@1 (foreach v xs {@1 (print v)})");
    assert_eq!(prog("WHILE x PRINT 1").unwrap_err(), "Expected 'BEGIN' or '{' after WHILE condition");
    assert_eq!(prog("WHILE x BEGIN PRINT 1;").unwrap_err(), "parse error at line 1: unterminated WHILE BEGIN/END");
    assert_eq!(prog("FOR i = 1 TO 2 PRINT i").unwrap_err(), "parse error at line 1: expected Next");
}

#[test]
fn routines() {
    assert_eq!(prog("FUNC add(a, b) RETURN a + b; END FUNC").unwrap(), "@1 (func add(a,b) @1 (return (+ a b)))");
    assert_eq!(prog("SUB hello() { PRINT 1; }").unwrap(), "@1 (sub hello() @1 (print #1))");
    assert_eq!(prog("FUNC f() BEGIN RETURN 1; END").unwrap(), "@1 (func f() @1 (return #1))");
    assert_eq!(prog("FUNC f() RETURN 1;").unwrap_err(), "parse error at line 1: unterminated function body");
}

#[test]
fn select_case() {
    assert_eq!(
        prog("SELECT CASE x\nCASE 1, 2 TO 3, IS > 5\nPRINT 1\nCASE ELSE\nPRINT 2\nEND SELECT").unwrap(),
        "@1 (select x (case #1,#2..#3,is>#5 @3 (print #1)) (else @5 (print #2)))"
    );
    assert_eq!(prog("SELECT CASE x { CASE 1 PRINT 1; }").unwrap(), "@1 (select x (case #1 @1 (print #1)))");
    assert_eq!(
        prog("SELECT CASE x CASE ELSE PRINT 1; CASE ELSE PRINT 2; END").unwrap_err(),
        "Only one CASE ELSE is allowed."
    );
    assert_eq!(
        prog("SELECT CASE x CASE IS 1 PRINT 1 END").unwrap_err(),
        "Use 'CASE IS <op> <expr>' with one comparator operator."
    );
}

#[test]
fn try_catch_finally() {
    assert_eq!(
        prog("TRY\nRAISE \"x\"\nCATCH e$\nPRINT e$\nRAISE\nFINALLY\nPRINT 0\nEND TRY").unwrap(),
        "@1 (try @2 (raise \"x\") catch e$ @4 (print e$) @5 (raise _) finally @7 (print #0))"
    );
    assert_eq!(prog("TRY PRINT 1; END TRY").unwrap_err(), "TRY must contain a CATCH or FINALLY block.");
    assert_eq!(prog("TRY PRINT 1; CATCH e PRINT 2; END TRY").unwrap_err(), "CATCH variable must be a string (use '$' suffix).");
    assert_eq!(prog("RAISE;").unwrap_err(), "RAISE without an expression is only valid inside CATCH.");
}

#[test]
fn dim_forms() {
    assert_eq!(prog("DIM a(10);").unwrap(), "@1 (dim a [#10])");
    assert_eq!(prog("DIM o@(3);").unwrap(), "@1 (dimobjs o@ [#3] _)");
    assert_eq!(prog("DIM ps(3) AS Point;").unwrap(), "@1 (dimobjs ps [#3] Point)");
    assert_eq!(prog("DIM s$ AS STRING * 8;").unwrap(), "@1 (dimstr s$ 8)");
    assert_eq!(prog("DIM n$[4];").unwrap(), "@1 (dimstr n$ 4)");
    assert_eq!(prog("DIM p AS Point(1, 2);").unwrap(), "@1 (dimobj p Point [#1 #2])");
    assert_eq!(prog("DIM r AS TYPE Rec;").unwrap(), "@1 (dimobj r Rec [])");
    assert_eq!(prog("DIM c@ AS CLASS(\"a.basil\");").unwrap(), "@1 (let c@ (class \"a.basil\"))");
    assert_eq!(prog("DIM s$ AS STRING;").unwrap_err(), "parse error at line 1: expected '*' and length after STRING");
    assert_eq!(prog("DIM x;").unwrap_err(), "parse error at line 1: expected '(' or AS after DIM name");
}

#[test]
fn dim_of_a_list_for_a_typed_array_assigns_each_item() {
    assert_eq!(prog("DIM xs% = [5, 6];").unwrap(), "@1 {(dim xs% [#2]) (let xs%(#1) #5) (let xs%(#2) #6)}");
    assert_eq!(prog("DIM ys = [5, 6];").unwrap(), "@1 (let ys [#5 #6])");
    assert_eq!(prog("DIM z = 3;").unwrap(), "@1 (let z #3)");
}

#[test]
fn type_definitions() {
    assert_eq!(
        prog("TYPE Rec\nDIM a%\nDIM b$ AS STRING * 4\nDIM c AS Other\nDIM d\nEND TYPE").unwrap(),
        "@1 (type Rec a%:int b$:str*4 c:type Other d:float)"
    );
    assert_eq!(prog("TYPE R { DIM a$ }").unwrap(), "@1 (type R a$:str)");
    assert_eq!(prog("TYPE R { PRINT 1 }").unwrap_err(), "parse error at line 1: expected DIM in TYPE body");
}

#[test]
fn jumps_and_environment() {
    assert_eq!(prog("LABEL top; GOTO top; GOSUB sub1; RETURN;").unwrap(), "@1 (label top) @1 (goto top) @1 (gosub sub1) @1 (gosub-return _)");
    assert_eq!(prog("RETURN TO top;").unwrap(), "@1 (gosub-return top)");
    assert_eq!(prog("SETENV HOME = \"x\"; EXPORTENV P = 1;").unwrap(), "@1 (setenv HOME \"x\") @1 (exportenv P #1)");
    assert_eq!(prog("SHELL \"ls\"; EXIT; EXIT 2; STOP;").unwrap(), "@1 (shell \"ls\") @1 (exit _) @1 (exit #2) @1 (stop)");
    assert_eq!(prog("EXEC(\"PRINT 1\"); DESCRIBE o;").unwrap(), "@1 (exec \"PRINT 1\") @1 (describe o)");
}

#[test]
fn assignments_without_let() {
    assert_eq!(prog("o.x = 1;").unwrap(), "@1 (setprop o x #1)");
    assert_eq!(prog("xs[0] = 1;").unwrap(), "@1 (setindex xs #0 #1)");
    assert_eq!(prog("x = 1;").unwrap_err(), "Use LET for assignment; '=' in expressions tests equality.");
    assert_eq!(prog("f(1);").unwrap(), "@1 (do (call f [#1]))");
}

#[test]
fn commands_without_parentheses() {
    assert_eq!(prog("CLS; cls();").unwrap(), "@1 (do (call CLS [])) @1 (do (call cls []))");
    assert_eq!(prog("SLEEP 10; SLEEP(5);").unwrap(), "@1 (do (call SLEEP [#10])) @1 (do (call SLEEP [#5]))");
}

#[test]
fn with_blocks() {
    assert_eq!(prog("WITH p; .x = 1; END WITH").unwrap(), "@1 (with p @1 (setprop this x #1))");
    assert_eq!(prog("WITH p PRINT 1; END").unwrap_err(), "Expected 'END WITH' to terminate WITH block.");
}

#[test]
fn statement_ends_are_checked() {
    assert_eq!(prog("PRINT 1 2").unwrap_err(), "parse error at line 1: expected Semicolon or Colon");
    assert_eq!(prog("PRINT 1: PRINT 2").unwrap(), "@1 (print #1) @1 (print #2)");
}
