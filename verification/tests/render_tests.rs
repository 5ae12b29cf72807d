use basilcore::render::{parse_at_directive, parse_template, ForEachOrder, Node};

fn parse(s: &str) -> Vec<Node> {
    parse_template(s).unwrap()
}

fn parse_err(s: &str) -> String {
    parse_template(s).unwrap_err().0
}

#[test]
fn text_and_interpolation() {
    let nodes = parse("Hello {{ name }}!");
    assert_eq!(nodes.len(), 3);
    assert!(matches!(&nodes[0], Node::Text(t) if t == "Hello "));
    assert!(matches!(&nodes[1], Node::Interp { expr, pos } if expr == "name" && *pos == 6));
    assert!(matches!(&nodes[2], Node::Text(t) if t == "!"));
}

#[test]
fn if_with_else() {
    let nodes = parse("@IF(x > 1)big@ELSE small@ENDIF.");
    assert_eq!(nodes.len(), 2);
    match &nodes[0] {
        Node::If { cond, then_part, else_part, pos } => {
            assert_eq!(cond, "x > 1");
            assert_eq!(*pos, 0);
            assert!(matches!(&then_part[..], [Node::Text(t)] if t == "big"));
            assert!(matches!(&else_part[..], [Node::Text(t)] if t == " small"));
        },
        other => panic!("unexpected {:?}", other),
    }
    assert!(matches!(&nodes[1], Node::Text(t) if t == "."));
}

#[test]
fn foreach_with_forelse() {
    let nodes = parse("@foreach_ksort(k IN dict)<{{k}}>@FORELSE none@ENDFOREACH");
    match &nodes[0] {
        Node::ForEach { var, enumerable, body, else_part, order, pos } => {
            assert_eq!(var, "k");
            assert_eq!(enumerable, "dict");
            assert_eq!(*order, ForEachOrder::KSortAsc);
            assert_eq!(*pos, 0);
            assert_eq!(body.len(), 3);
            assert!(matches!(&else_part[..], [Node::Text(t)] if t == " none"));
        },
        other => panic!("unexpected {:?}", other),
    }
}

#[test]
fn case_arms() {
    let nodes = parse("@CASE(a)A@CASE(b)B@ENDCASE");
    match &nodes[0] {
        Node::Case { arms, pos } => {
            assert_eq!(*pos, 0);
            assert_eq!(arms.len(), 2);
            assert_eq!(arms[0].0, "a");
            assert_eq!(arms[1].0, "b");
            assert!(matches!(&arms[1].1[..], [Node::Text(t)] if t == "B"));
        },
        other => panic!("unexpected {:?}", other),
    }
}

#[test]
fn loops_and_calls() {
    let nodes = parse("@FOR(i% = 1 TO 3 STEP 1){{i%}}@ENDFOR@TIMES(2)x@ENDTIMES@WHILE(go)y@BREAK@ENDWHILE@upper(a, f(b, c))");
    assert_eq!(nodes.len(), 4);
    match &nodes[0] {
        Node::ForNum { var, start, end, step, .. } => {
            assert_eq!(var, "i%");
            assert_eq!(start, "1");
            assert_eq!(end, "3");
            assert_eq!(step.as_deref(), Some("1"));
        },
        other => panic!("unexpected {:?}", other),
    }
    assert!(matches!(&nodes[1], Node::Times { count, .. } if count == "2"));
    match &nodes[2] {
        Node::While { cond, body, .. } => {
            assert_eq!(cond, "go");
            assert!(matches!(&body[..], [Node::Text(_), Node::Break { .. }]));
        },
        other => panic!("unexpected {:?}", other),
    }
    match &nodes[3] {
        Node::Call { name, args, .. } => {
            assert_eq!(name, "UPPER");
            assert_eq!(args, &vec!["a".to_string(), "f(b, c)".to_string()]);
        },
        other => panic!("unexpected {:?}", other),
    }
}

#[test]
fn at_sign_without_a_letter_is_text() {
    let nodes = parse("mail @ 5");
    assert!(matches!(&nodes[..], [Node::Text(t)] if t == "mail @ 5"));
}

#[test]
fn template_errors() {
    assert_eq!(parse_err("@IF(x)yes"), "RENDER$: expected @ELSE or @ENDIF");
    assert_eq!(parse_err("{{ x"), "RENDER$: expected '}}' to close");
    assert_eq!(parse_err("@ENDIF"), "RENDER$: unexpected block control token");
    assert_eq!(parse_err("@Foo bar"), "RENDER$: expected '(' after @Foo");
    assert_eq!(parse_err("@CALL(a"), "RENDER$: unclosed ')'");
    assert_eq!(parse_err("@TIMES(3)x"), "RENDER$: expected @ENDTIMES");
    assert_eq!(parse_err("@FOREACH(items)x@ENDFOREACH"), "RENDER$: malformed @FOREACH header; expected 'var IN expr'");
    assert_eq!(parse_err("@CASE(a)x@CASE b@ENDCASE"), "RENDER$: expected '(' in @CASE");
}

#[test]
fn block_closer_leaves_reader_on_its_at_sign() {
    let s: Vec<char> = "@ENDIF".chars().collect();
    let mut i = 0usize;
    let e = parse_at_directive(&s, &mut i).unwrap_err();
    assert_eq!(e.0, "RENDER$: unexpected block control token");
    assert_eq!(i, 0);
    let s: Vec<char> = "ab @else".chars().collect();
    let mut i = 3usize;
    assert!(parse_at_directive(&s, &mut i).is_err());
    assert_eq!(i, 3);
}

#[test]
fn positions_are_byte_offsets() {
    let nodes = parse("é{{ x }}");
    assert!(matches!(&nodes[1], Node::Interp { pos, .. } if *pos == 2));
}
