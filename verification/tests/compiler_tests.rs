use basilcore::ast::{BinOp, Expr, StructField, StructFieldKind};
use basilcore::bytecode::{Chunk, ConstValue, Op};
use basilcore::compiler::{emit_expr, FnScope, Routine, Tables};
use basilcore::locals::LocalEnv;

fn tables() -> Tables {
    Tables {
        routines: vec![Routine { name: "PRINTIT".to_string(), arity: 1, is_sub: true }],
        struct_types: Vec::new(),
        fixed_globs: vec![("name$".to_string(), 10)],
        var_struct_globs: Vec::new(),
        var_struct_array_globs: Vec::new(),
        with_current: Vec::new(),
        with_fn: Vec::new(),
        with_tl: Vec::new(),
        cur_line: 7,
        numerals: vec![("1".to_string(), 0x3FF0_0000_0000_0000)],
    }
}

#[test]
fn sum_of_numeral_and_global() {
    let t = tables();
    let mut globals: Vec<String> = Vec::new();
    let mut c = Chunk::default();
    let e = Expr::Binary { op: BinOp::Add, lhs: Box::new(Expr::Number("1".to_string())), rhs: Box::new(Expr::Var("x".to_string())) };
    emit_expr(&t, None, &mut globals, &mut c, &e).unwrap();
    assert_eq!(c.code, vec![1, 0, 0, 2, 0, 20]);
    assert_eq!(globals, vec!["x".to_string()]);
    assert!(matches!(c.consts[0], ConstValue::Num(0x3FF0_0000_0000_0000)));
}

#[test]
fn not_jumps_over_its_false_branch() {
    let t = tables();
    let mut globals: Vec<String> = Vec::new();
    let mut c = Chunk::default();
    let e = Expr::UnaryNot(Box::new(Expr::Bool(true)));
    emit_expr(&t, None, &mut globals, &mut c, &e).unwrap();
    assert_eq!(c.code, vec![1, 0, 0, 41, 6, 0, 1, 1, 0, 40, 3, 0, 1, 2, 0]);
    assert!(matches!(c.consts[1], ConstValue::Bool(false)));
    assert!(matches!(c.consts[2], ConstValue::Bool(true)));
}

#[test]
fn sub_call_in_value_position_is_an_error() {
    let t = tables();
    let mut globals: Vec<String> = Vec::new();
    let mut c = Chunk::default();
    let e = Expr::Call { callee: Box::new(Expr::Var("printit".to_string())), args: vec![Expr::Bool(true)] };
    let err = emit_expr(&t, None, &mut globals, &mut c, &e).unwrap_err();
    assert_eq!(err.0, "SUB call has no value; cannot be used in an expression. Call it as a statement: NAME(...);");
}

#[test]
fn len_of_fixed_string_is_folded() {
    let t = tables();
    let mut globals: Vec<String> = Vec::new();
    let mut c = Chunk::default();
    let e = Expr::Call { callee: Box::new(Expr::Var("len".to_string())), args: vec![Expr::Var("name$".to_string())] };
    emit_expr(&t, None, &mut globals, &mut c, &e).unwrap();
    assert_eq!(c.code, vec![1, 0, 0]);
    assert!(matches!(c.consts[0], ConstValue::Int(10)));
}

#[test]
fn locals_and_array_elements() {
    let t = tables();
    let mut env = LocalEnv::new();
    env.bind_next_if_absent("a".to_string());
    let sc = FnScope { env, fixed: Vec::new(), var_struct: Vec::new(), var_struct_array: Vec::new() };
    let mut globals: Vec<String> = Vec::new();
    let mut c = Chunk::default();
    let e = Expr::Call { callee: Box::new(Expr::Var("a".to_string())), args: vec![Expr::Var("a".to_string())] };
    emit_expr(&t, Some(&sc), &mut globals, &mut c, &e).unwrap();
    assert_eq!(c.code[0], 11);
    assert_eq!(c.code.len(), 6);
    assert!(globals.is_empty());
}

#[test]
fn leading_dot_needs_with() {
    let t = tables();
    let mut globals: Vec<String> = Vec::new();
    let mut c = Chunk::default();
    let err = emit_expr(&t, None, &mut globals, &mut c, &Expr::ImplicitThis).unwrap_err();
    assert_eq!(err.0, "Leading '.' member requires a WITH block (at line 7)");
}

#[test]
fn line_marker_sets_current_line() {
    let mut t = tables();
    let mut c = Chunk::default();
    basilcore::compiler::mark_line(&mut t, &mut c, 12);
    assert_eq!(t.cur_line, 12);
    assert_eq!(c.code.len(), 3);
    assert_eq!(&c.code[1..], &[12u8, 0u8]);
}

#[test]
fn dim_fixed_string_records_length_and_starts_empty() {
    let mut t = tables();
    let mut globals = vec!["A".to_string()];
    let mut c = Chunk::default();
    basilcore::compiler::emit_dim_fixed_str(&mut t, &mut globals, &mut c, &"name$".to_string(), 20);
    assert_eq!(t.fixed_globs, vec![("name$".to_string(), 20), ("name$".to_string(), 10)]);
    assert_eq!(globals, vec!["A".to_string(), "name$".to_string()]);
    assert!(matches!(&c.consts[0], ConstValue::Str(x) if x.is_empty()));
    assert_eq!(c.code.len(), 5);
    assert_eq!(c.code[4], 1);
}

#[test]
fn type_definition_is_recorded_and_registered() {
    let mut t = tables();
    let mut c = Chunk::default();
    let fields = vec![
        StructField { name: "X".to_string(), kind: StructFieldKind::Int32 },
        StructField { name: "N$".to_string(), kind: StructFieldKind::FixedString(8) },
    ];
    basilcore::compiler::emit_type_def(&mut t, &mut c, &"Point".to_string(), &fields);
    assert_eq!(t.struct_types.len(), 1);
    assert_eq!(t.struct_types[0].name, "POINT");
    assert_eq!(t.struct_types[0].fields.len(), 2);
    assert_eq!(t.struct_types[0].fields[1].name, "N$");
    assert!(matches!(t.struct_types[0].fields[1].kind, StructFieldKind::FixedString(8)));
    assert!(matches!(&c.consts[1], ConstValue::Str(x) if x == "X|I;N$|X|8"));
}

#[test]
fn dim_integer_array_at_top_level() {
    let t = tables();
    let mut globals: Vec<String> = Vec::new();
    let mut c = Chunk::default();
    basilcore::compiler::emit_dim_array(&t, &mut globals, &mut c, &"A%".to_string(), &vec![Expr::Number("1".to_string())]).unwrap();
    assert_eq!(
        c.code,
        vec![Op::Const.code(), 0, 0, Op::ArrMake.code(), 1, 1, 0xFF, 0xFF, Op::StoreGlobal.code(), 0]
    );
    assert_eq!(globals, vec!["A%".to_string()]);
}

#[test]
fn dim_string_array_kind() {
    let t = tables();
    let mut globals = vec!["X".to_string()];
    let mut c = Chunk::default();
    basilcore::compiler::emit_dim_array(&t, &mut globals, &mut c, &"N$".to_string(), &Vec::new()).unwrap();
    assert_eq!(c.code, vec![Op::ArrMake.code(), 0, 2, 0xFF, 0xFF, Op::StoreGlobal.code(), 1]);
}

#[test]
fn print_at_top_level() {
    let t = tables();
    let mut globals: Vec<String> = Vec::new();
    let mut c = Chunk::default();
    basilcore::compiler::emit_print(&t, &mut globals, &mut c, &Expr::Str("hi".to_string())).unwrap();
    assert_eq!(c.code, vec![Op::Const.code(), 0, 0, Op::Print.code()]);
    let e = basilcore::compiler::emit_print(&t, &mut globals, &mut c, &Expr::Call { callee: Box::new(Expr::Var("printit".to_string())), args: Vec::new() }).unwrap_err();
    assert!(e.0.starts_with("SUB call has no value"));
}

#[test]
fn let_integer_variable_truncates() {
    let t = tables();
    let mut globals: Vec<String> = Vec::new();
    let mut c = Chunk::default();
    basilcore::compiler::emit_let(&t, &mut globals, &mut c, &"X%".to_string(), &None, &Expr::Number("1".to_string())).unwrap();
    assert_eq!(c.code, vec![Op::Const.code(), 0, 0, Op::ToInt.code(), Op::StoreGlobal.code(), 0]);
}

#[test]
fn let_fixed_string_is_fitted() {
    let t = tables();
    let mut globals: Vec<String> = Vec::new();
    let mut c = Chunk::default();
    basilcore::compiler::emit_let(&t, &mut globals, &mut c, &"name$".to_string(), &None, &Expr::Str("ab".to_string())).unwrap();
    assert_eq!(
        c.code,
        vec![Op::Const.code(), 0, 0, Op::Const.code(), 1, 0, Op::Builtin.code(), 160, 2, Op::StoreGlobal.code(), 0]
    );
    assert!(matches!(c.consts[1], ConstValue::Int(10)));
}

#[test]
fn let_array_element() {
    let t = tables();
    let mut globals: Vec<String> = Vec::new();
    let mut c = Chunk::default();
    let idx = Some(vec![Expr::Number("1".to_string())]);
    basilcore::compiler::emit_let(&t, &mut globals, &mut c, &"A".to_string(), &idx, &Expr::Bool(true)).unwrap();
    assert_eq!(&c.code[..2], &[Op::LoadGlobal.code(), 0]);
    assert_eq!(&c.code[c.code.len() - 2..], &[Op::ArrSet.code(), 1]);
}

#[test]
fn let_struct_from_string_unpacks() {
    let mut t = tables();
    t.var_struct_globs = vec![("P".to_string(), "POINT".to_string())];
    let mut globals: Vec<String> = Vec::new();
    let mut c = Chunk::default();
    basilcore::compiler::emit_let(&t, &mut globals, &mut c, &"P".to_string(), &None, &Expr::Var("S$".to_string())).unwrap();
    let n = c.code.len();
    assert_eq!(&c.code[n - 5..], &[Op::Builtin.code(), 164, 2, Op::StoreGlobal.code(), 1]);
    assert_eq!(globals, vec!["S$".to_string(), "P".to_string()]);
}

#[test]
fn exec_describe_and_raise_at_top_level() {
    let t = tables();
    let mut globals: Vec<String> = Vec::new();
    let mut c = Chunk::default();
    basilcore::compiler::emit_exec(&t, &mut globals, &mut c, &Expr::Str("PRINT 1".to_string())).unwrap();
    assert_eq!(c.code, vec![Op::Const.code(), 0, 0, Op::ExecString.code()]);
    let mut c = Chunk::default();
    basilcore::compiler::emit_describe(&t, &mut globals, &mut c, &Expr::Var("O".to_string())).unwrap();
    assert_eq!(c.code, vec![Op::LoadGlobal.code(), 0, Op::DescribeObj.code(), Op::Print.code()]);
    let mut c = Chunk::default();
    basilcore::compiler::emit_raise(&t, &mut globals, &mut c, &Some(Expr::Str("bad".to_string()))).unwrap();
    assert_eq!(c.code, vec![Op::Const.code(), 0, 0, Op::Raise.code()]);
    let mut c = Chunk::default();
    basilcore::compiler::emit_raise(&t, &mut globals, &mut c, &None).unwrap();
    assert_eq!(c.code, vec![Op::Reraise.code()]);
}

#[test]
fn dim_object_array_records_element_type() {
    let mut t = tables();
    let mut globals: Vec<String> = Vec::new();
    let mut c = Chunk::default();
    basilcore::compiler::emit_dim_object_array(&mut t, &mut globals, &mut c, &"OBJS".to_string(), &vec![Expr::Number("1".to_string())], &Some("Point".to_string())).unwrap();
    assert_eq!(c.code, vec![Op::Const.code(), 0, 0, Op::ArrMake.code(), 1, 3, 1, 0, Op::StoreGlobal.code(), 0]);
    assert!(matches!(&c.consts[1], ConstValue::Str(x) if x == "Point"));
    assert_eq!(t.var_struct_array_globs, vec![("OBJS".to_string(), "POINT".to_string())]);
    let mut c = Chunk::default();
    basilcore::compiler::emit_dim_object_array(&mut t, &mut globals, &mut c, &"BAG".to_string(), &Vec::new(), &None).unwrap();
    assert_eq!(c.code, vec![Op::ArrMake.code(), 0, 3, 0xFF, 0xFF, Op::StoreGlobal.code(), 1]);
}
