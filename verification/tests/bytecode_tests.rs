use basilcore::bytecode::{deserialize_program, serialize_program, Chunk, ConstValue, Op, Program};

#[test]
fn op_codes_round_trip() {
    for b in 0u8..=255 {
        if let Some(op) = Op::from_code(b) {
            assert_eq!(op.code(), b);
        }
    }
    assert_eq!(Op::from_code(Op::Add.code()), Some(Op::Add));
}

#[test]
fn chunk_building() {
    let mut c = Chunk { code: Vec::new(), consts: Vec::new() };
    c.push_op(Op::Const);
    let i = c.add_const(ConstValue::Int(7));
    assert_eq!(i, 0);
    c.push_u16(i);
    let at = c.emit_u16_placeholder();
    assert_eq!(at, 3);
    c.patch_u16_at(at, 0x1234);
    c.push_u8(9);
    assert_eq!(c.here(), 6);
    assert_eq!(c.code, vec![Op::Const.code(), 0, 0, 0x34, 0x12, 9]);
}

#[test]
fn program_cache_bytes() {
    let p = Program {
        chunk: Chunk { code: vec![1, 2], consts: vec![ConstValue::Int(7)] },
        globals: vec!["X".to_string()],
    };
    let bytes = serialize_program(&p);
    assert_eq!(bytes, vec![2, 0, 0, 0, 1, 2, 1, 0, 0, 0, 3, 7, 0, 0, 0, 0, 0, 0, 0, 1, 0, 0, 0, 1, 0, 0, 0, 88]);
}

#[test]
fn program_cache_round_trip() {
    let inner = Chunk { code: vec![5], consts: vec![ConstValue::Bool(true)] };
    let f = basilcore::bytecode::Function { arity: 2, name: Some("f".to_string()), chunk: inner };
    let p = Program {
        chunk: Chunk {
            code: vec![0, 1, 2, 3],
            consts: vec![ConstValue::Null, ConstValue::Num(4.5f64.to_bits()), ConstValue::Str("hé".to_string()), ConstValue::Func(Box::new(f))],
        },
        globals: vec!["A".to_string(), "B".to_string()],
    };
    let q = deserialize_program(&serialize_program(&p)).unwrap();
    assert_eq!(q.chunk.code, vec![0, 1, 2, 3]);
    assert_eq!(q.globals, vec!["A".to_string(), "B".to_string()]);
    assert!(matches!(q.chunk.consts[0], ConstValue::Null));
    assert!(matches!(q.chunk.consts[1], ConstValue::Num(n) if f64::from_bits(n) == 4.5));
    assert!(matches!(&q.chunk.consts[2], ConstValue::Str(s) if s == "hé"));
    match &q.chunk.consts[3] {
        ConstValue::Func(g) => {
            assert_eq!(g.arity, 2);
            assert_eq!(g.name.as_deref(), Some("f"));
            assert_eq!(g.chunk.code, vec![5]);
            assert!(matches!(g.chunk.consts[0], ConstValue::Bool(true)));
        },
        _ => panic!("expected a function"),
    }
}

#[test]
fn runtime_only_constants_come_back_as_null() {
    let p = Program { chunk: Chunk { code: vec![], consts: vec![ConstValue::List, ConstValue::Array] }, globals: vec![] };
    let bytes = serialize_program(&p);
    assert_eq!(bytes, vec![0, 0, 0, 0, 2, 0, 0, 0, 253, 250, 0, 0, 0, 0]);
    let q = deserialize_program(&bytes).unwrap();
    assert!(matches!(q.chunk.consts[0], ConstValue::Null));
    assert!(matches!(q.chunk.consts[1], ConstValue::Null));
}

#[test]
fn bad_program_cache() {
    assert_eq!(deserialize_program(&[1]).unwrap_err().0, "eof");
    assert_eq!(deserialize_program(&[0, 0, 0, 0, 1, 0, 0, 0, 9]).unwrap_err().0, "bad const tag");
    assert!(deserialize_program(&[0, 0, 0, 0, 0, 0, 0, 0, 1, 0, 0, 0, 1, 0, 0, 0, 0xff]).unwrap_err().0.starts_with("utf8: "));
    let empty = deserialize_program(&[0, 0, 0, 0, 0, 0, 0, 0, 0, 0, 0, 0]).unwrap();
    assert!(empty.chunk.code.is_empty() && empty.globals.is_empty());
}

#[test]
fn cache_faults_name_their_cause() {
    let bad_text = [0, 0, 0, 0, 1, 0, 0, 0, 4, 1, 0, 0, 0, 0xff];
    assert!(deserialize_program(&bad_text).unwrap_err().0.starts_with("utf8: "));
    let short_text = [0, 0, 0, 0, 1, 0, 0, 0, 4, 5, 0, 0, 0, 0x41];
    assert_eq!(deserialize_program(&short_text).unwrap_err().0, "eof");
    let func_without_chunk = [0, 0, 0, 0, 1, 0, 0, 0, 5, 0, 0];
    assert_eq!(deserialize_program(&func_without_chunk).unwrap_err().0, "eof");
    let second_bad = [0, 0, 0, 0, 2, 0, 0, 0, 0, 7];
    assert_eq!(deserialize_program(&second_bad).unwrap_err().0, "bad const tag");
}
