use basilcore::atomic::error::AtomicRuntimeError;
use basilcore::common::{basil_error, Span};
use basilcore::locals::LocalEnv;
use basilcore::service::CompilerDiagnostics;

#[test]
fn spans_and_errors() {
    let s = Span::new(3, 9);
    assert_eq!((s.start, s.end), (3, 9));
    assert_eq!(basil_error(12, "boom").0, "[line 12] boom");
}

#[test]
fn local_slots() {
    let mut env = LocalEnv::new();
    assert_eq!(env.lookup("a"), None);
    assert_eq!(env.bind_next_if_absent("a".to_string()), 0);
    assert_eq!(env.bind_next_if_absent("b".to_string()), 1);
    assert_eq!(env.bind_next_if_absent("a".to_string()), 0);
    env.bind("c".to_string(), 7);
    assert_eq!(env.lookup("c"), Some(7));
    assert_eq!(env.bind_next_if_absent("d".to_string()), 8);
    env.bind("a".to_string(), 2);
    assert_eq!(env.lookup("a"), Some(2));
    assert_eq!(env.bind_next_if_absent("e".to_string()), 9);
}

#[test]
fn runtime_error_fields() {
    let e = AtomicRuntimeError::new("Unknown label: basement".to_string(), 12, 18);
    assert_eq!(e.message, "Unknown label: basement");
    assert_eq!(e.instruction, 12);
    assert_eq!(e.source_line, 18);
}

#[test]
fn empty_diagnostics() {
    let d = CompilerDiagnostics::default();
    assert!(d.errors.is_empty() && d.symbols.is_empty());
}
