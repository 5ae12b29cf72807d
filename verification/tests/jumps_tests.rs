use basilcore::ast::{copy_expr, BinOp, CasePattern, Expr, FuncKind, Stmt, StructField, StructFieldKind};
use basilcore::bytecode::{Chunk, ConstValue, Op};
use basilcore::compiler::case_condition;
use basilcore::jumps::{emit_line, LabelScope};

fn s(t: &str) -> String {
    t.to_string()
}

#[test]
fn goto_forward_gets_distance_to_label() {
    let mut c = Chunk::default();
    let mut sc = LabelScope::new();
    sc.emit_goto(&mut c, &s("L"));
    c.push_op(Op::Halt);
    let here = c.here();
    sc.define(&s("L"), here).unwrap();
    sc.resolve(&mut c).unwrap();
    assert_eq!(c.code, vec![Op::Jump.code(), 1, 0, Op::Halt.code()]);
}

#[test]
fn goto_backward_turns_into_jump_back() {
    let mut c = Chunk::default();
    let mut sc = LabelScope::new();
    sc.define(&s("TOP"), 0).unwrap();
    c.push_op(Op::Halt);
    sc.emit_goto(&mut c, &s("TOP"));
    sc.resolve(&mut c).unwrap();
    assert_eq!(c.code, vec![Op::Halt.code(), Op::JumpBack.code(), 4, 0]);
}

#[test]
fn gosub_backward_turns_into_gosub_back() {
    let mut c = Chunk::default();
    let mut sc = LabelScope::new();
    sc.define(&s("SUB1"), 0).unwrap();
    c.push_op(Op::GosubRet);
    sc.emit_gosub(&mut c, &s("SUB1"));
    sc.resolve(&mut c).unwrap();
    assert_eq!(c.code, vec![Op::GosubRet.code(), Op::GosubBack.code(), 4, 0]);
}

#[test]
fn gosub_forward_keeps_gosub() {
    let mut c = Chunk::default();
    let mut sc = LabelScope::new();
    sc.emit_gosub(&mut c, &s("S"));
    c.push_op(Op::Halt);
    c.push_op(Op::Halt);
    let here = c.here();
    sc.define(&s("S"), here).unwrap();
    sc.resolve(&mut c).unwrap();
    assert_eq!(c.code, vec![Op::Gosub.code(), 2, 0, Op::Halt.code(), Op::Halt.code()]);
}

#[test]
fn duplicate_label_is_refused() {
    let mut sc = LabelScope::new();
    sc.define(&s("L"), 0).unwrap();
    let e = sc.define(&s("L"), 5).unwrap_err();
    assert_eq!(e.0, "Duplicate label: L");
}

#[test]
fn undefined_label_is_refused() {
    let mut c = Chunk::default();
    let mut sc = LabelScope::new();
    sc.emit_goto(&mut c, &s("NOPE"));
    let e = sc.resolve(&mut c).unwrap_err();
    assert_eq!(e.0, "Undefined label: NOPE");
}

#[test]
fn undefined_goto_label_is_named_before_gosub_label() {
    let mut c = Chunk::default();
    let mut sc = LabelScope::new();
    sc.emit_gosub(&mut c, &s("A"));
    sc.emit_goto(&mut c, &s("B"));
    let e = sc.resolve(&mut c).unwrap_err();
    assert_eq!(e.0, "Undefined label: B");
}

#[test]
fn return_from_gosub_to_label_pops_and_jumps() {
    let mut c = Chunk::default();
    let mut sc = LabelScope::new();
    sc.emit_return_from_gosub(&mut c, &Some(s("BACK")));
    let here = c.here();
    sc.define(&s("BACK"), here).unwrap();
    sc.resolve(&mut c).unwrap();
    assert_eq!(c.code, vec![Op::GosubPop.code(), Op::Jump.code(), 0, 0]);
}

#[test]
fn plain_return_from_gosub() {
    let mut c = Chunk::default();
    let mut sc = LabelScope::new();
    sc.emit_return_from_gosub(&mut c, &None);
    sc.resolve(&mut c).unwrap();
    assert_eq!(c.code, vec![Op::GosubRet.code()]);
}

#[test]
fn line_marker_saturates_at_sixteen_bits() {
    let mut c = Chunk::default();
    emit_line(&mut c, 300);
    emit_line(&mut c, 70000);
    assert_eq!(
        c.code,
        vec![Op::SetLine.code(), 44, 1, Op::SetLine.code(), 0xFF, 0xFF]
    );
}

#[test]
fn case_condition_joins_patterns_with_or() {
    let ps = vec![
        CasePattern::Value(Expr::Number("1".to_string())),
        CasePattern::Range { lo: Expr::Number("2".to_string()), hi: Expr::Number("3".to_string()) },
        CasePattern::Compare { op: BinOp::Gt, rhs: Expr::Number("9".to_string()) },
    ];
    let e = case_condition("T", &ps);
    assert_eq!(
        format!("{:?}", e),
        "Binary { op: Or, lhs: Binary { op: Or, lhs: Binary { op: Eq, lhs: Var(\"T\"), rhs: Number(\"1\") }, \
         rhs: Binary { op: And, lhs: Binary { op: Ge, lhs: Var(\"T\"), rhs: Number(\"2\") }, \
         rhs: Binary { op: Le, lhs: Var(\"T\"), rhs: Number(\"3\") } } }, \
         rhs: Binary { op: Gt, lhs: Var(\"T\"), rhs: Number(\"9\") } }"
    );
}

#[test]
fn case_condition_without_patterns_is_false() {
    let e = case_condition("T", &Vec::new());
    assert_eq!(format!("{:?}", e), "Bool(false)");
}

#[test]
fn copied_expression_is_equal() {
    let e = Expr::Call {
        callee: Box::new(Expr::Var("F".to_string())),
        args: vec![Expr::Dict(vec![("k".to_string(), Expr::Str("v".to_string()))]), Expr::ImplicitThis],
    };
    assert_eq!(format!("{:?}", copy_expr(&e)), format!("{:?}", e));
}

#[test]
fn finished_function_returns_null() {
    let mut c = Chunk::default();
    let mut sc = LabelScope::new();
    sc.emit_goto(&mut c, &s("END"));
    let here = c.here();
    sc.define(&s("END"), here).unwrap();
    let f = basilcore::jumps::finish_function(s("F"), 2, c, &sc).unwrap();
    assert_eq!(f.arity, 2);
    assert_eq!(f.name, Some(s("F")));
    assert_eq!(f.chunk.code, vec![Op::Jump.code(), 0, 0, Op::Const.code(), 0, 0, Op::Ret.code()]);
    assert!(matches!(f.chunk.consts[..], [ConstValue::Null]));
}

#[test]
fn undefined_label_inside_function_is_refused() {
    let mut c = Chunk::default();
    let mut sc = LabelScope::new();
    sc.emit_gosub(&mut c, &s("MISSING"));
    let e = basilcore::jumps::finish_function(s("F"), 0, c, &sc).unwrap_err();
    assert_eq!(e.0, "Undefined label: MISSING");
}

#[test]
fn finished_program_halts() {
    let mut c = Chunk::default();
    let sc = LabelScope::new();
    c.push_op(Op::Stop);
    let p = basilcore::jumps::finish_program(c, vec![s("X")], &sc).unwrap();
    assert_eq!(p.chunk.code, vec![Op::Stop.code(), Op::Halt.code()]);
    assert_eq!(p.globals, vec![s("X")]);
}

#[test]
fn type_field_list_for_registry() {
    let fields = vec![
        StructField { name: s("X"), kind: StructFieldKind::Int32 },
        StructField { name: s("NAME"), kind: StructFieldKind::FixedString(10) },
        StructField { name: s("R"), kind: StructFieldKind::Float64 },
        StructField { name: s("T$"), kind: StructFieldKind::VarString },
        StructField { name: s("P"), kind: StructFieldKind::Struct(s("POINT")) },
    ];
    assert_eq!(basilcore::compiler::struct_spec(&fields), "X|I;NAME|X|10;R|F;T$|S;P|T|POINT");
    let mut c = Chunk::default();
    basilcore::compiler::emit_type_registration(&mut c, &s("Rec"), &fields);
    assert_eq!(
        c.code,
        vec![Op::Const.code(), 0, 0, Op::Const.code(), 1, 0, Op::Builtin.code(), 161, 2, Op::Pop.code()]
    );
    assert!(matches!(&c.consts[0], ConstValue::Str(n) if n == "Rec"));
    assert!(matches!(&c.consts[1], ConstValue::Str(t) if t == "X|I;NAME|X|10;R|F;T$|S;P|T|POINT"));
}

#[test]
fn routines_are_collected_latest_first() {
    let ast = vec![
        Stmt::Func { kind: FuncKind::Func, name: s("fib"), params: vec![s("n")], body: Vec::new() },
        Stmt::Stop,
        Stmt::Func { kind: FuncKind::Sub, name: s("Show"), params: vec![s("a"), s("b")], body: Vec::new() },
        Stmt::Func { kind: FuncKind::Sub, name: s("FIB"), params: Vec::new(), body: Vec::new() },
    ];
    let rs = basilcore::compiler::collect_routines(&ast);
    let got: Vec<(String, usize, bool)> = rs.iter().map(|r| (r.name.clone(), r.arity, r.is_sub)).collect();
    assert_eq!(
        got,
        vec![(s("FIB"), 0, true), (s("SHOW"), 2, true), (s("FIB"), 1, false)]
    );
}
