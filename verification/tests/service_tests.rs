use basilcore::service::{analyze_source, collect_symbols, DiagnosticSeverity, SymbolKind};
use basilcore::statements::parse;

#[test]
fn symbols_of_top_level_declarations() {
    let d = analyze_source("FUNC f() RETURN 1; END\nLET x = 1\nLABEL top\nPRINT x", "a.basil");
    assert!(d.errors.is_empty());
    let names: Vec<(String, SymbolKind, usize, usize)> =
        d.symbols.iter().map(|s| (s.name.clone(), s.kind, s.line, s.col)).collect();
    assert_eq!(names, vec![
        ("f".to_string(), SymbolKind::Function, 0, 0),
        ("x".to_string(), SymbolKind::Variable, 0, 0),
        ("top".to_string(), SymbolKind::Label, 0, 0),
    ]);
}

#[test]
fn nested_declarations_are_not_collected() {
    let d = analyze_source("WHILE c BEGIN LET y = 2; END", "a.basil");
    assert!(d.errors.is_empty());
    assert!(d.symbols.is_empty());
}

#[test]
fn a_parse_error_becomes_one_diagnostic() {
    let d = analyze_source("x = 1", "a.basil");
    assert!(d.symbols.is_empty());
    assert_eq!(d.errors.len(), 1);
    assert_eq!(d.errors[0].message, "Use LET for assignment; '=' in expressions tests equality.");
    assert_eq!((d.errors[0].line, d.errors[0].column), (0, 0));
    assert_eq!(d.errors[0].severity, DiagnosticSeverity::Error);
}

#[test]
fn collecting_appends_to_what_is_there() {
    let ast = parse("SUB s() { PRINT 1; }").unwrap();
    let mut syms = Vec::new();
    collect_symbols(&ast, &mut syms);
    collect_symbols(&ast, &mut syms);
    assert_eq!(syms.len(), 2);
    assert_eq!(syms[1].name, "s");
    assert_eq!(syms[1].kind, SymbolKind::Function);
}
