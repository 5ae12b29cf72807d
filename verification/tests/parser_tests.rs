use basilcore::ast::{BinOp, Expr};
use basilcore::lexer::Lexer;
use basilcore::parser::Parser;

fn op_name(op: BinOp) -> &'static str {
    match op {
        BinOp::Add => "+",
        BinOp::Sub => "-",
        BinOp::Mul => "*",
        BinOp::Div => "/",
        BinOp::Mod => "%",
        BinOp::Eq => "==",
        BinOp::Ne => "!=",
        BinOp::Lt => "<",
        BinOp::Le => "<=",
        BinOp::Gt => ">",
        BinOp::Ge => ">=",
        BinOp::And => "and",
        BinOp::Or => "or",
    }
}

fn show_all(es: &[Expr]) -> String {
    es.iter().map(show).collect::<Vec<String>>().join(" ")
}

/// A compact s-expression rendering of an expression.
fn show(e: &Expr) -> String {
    match e {
        Expr::Number(n) => format!("#{}", n),
        Expr::Str(s) => format!("{:?}", s),
        Expr::Bool(b) => format!("{}", b),
        Expr::Var(v) => v.clone(),
        Expr::UnaryNeg(x) => format!("(neg {})", show(x)),
        Expr::UnaryNot(x) => format!("(not {})", show(x)),
        Expr::Binary { op, lhs, rhs } => format!("({} {} {})", op_name(*op), show(lhs), show(rhs)),
        Expr::Call { callee, args } => format!("(call {} [{}])", show(callee), show_all(args)),
        Expr::MemberGet { target, name } => format!("(get {} {})", show(target), name),
        Expr::MemberCall { target, method, args } => format!("(mcall {} {} [{}])", show(target), method, show_all(args)),
        Expr::ImplicitThis => "this".to_string(),
        Expr::NewObject { type_label, args } => format!("(new {} [{}])", type_label, show_all(args)),
        Expr::NewClass { filename } => format!("(class {})", show(filename)),
        Expr::Eval(x) => format!("(eval {})", show(x)),
        Expr::List(items) => format!("[{}]", show_all(items)),
        Expr::Dict(entries) => {
            let parts: Vec<String> = entries.iter().map(|(k, v)| format!("{:?}:{}", k, show(v))).collect();
            format!("{{{}}}", parts.join(" "))
        }
        Expr::IndexSquare { target, index } => format!("(index {} {})", show(target), show(index)),
    }
}

fn parser_for(src: &str) -> Parser {
    let mut lx = Lexer::new(src);
    let tokens = lx.tokenize().map_err(|e| e.0).unwrap();
    Parser::new(tokens)
}

fn expr(src: &str) -> Result<String, String> {
    let mut p = parser_for(src);
    p.parse_expr_bp(0).map(|e| show(&e)).map_err(|e| e.0)
}

#[test]
fn multiplication_binds_tighter_than_addition() {
    assert_eq!(expr("1 + 2 * 3").unwrap(), "(+ #1 (* #2 #3))");
    assert_eq!(expr("1 * 2 + 3").unwrap(), "(+ (* #1 #2) #3)");
    assert_eq!(expr("(1 + 2) * 3").unwrap(), "(* (+ #1 #2) #3)");
}

#[test]
fn binary_operators_associate_to_the_left() {
    assert_eq!(expr("a - b - c").unwrap(), "(- (- a b) c)");
    assert_eq!(expr("8 / 4 / 2").unwrap(), "(/ (/ #8 #4) #2)");
}

#[test]
fn logical_and_comparison_levels() {
    assert_eq!(expr("a <> b").unwrap(), "(!= a b)");
    assert_eq!(expr("a < 1 OR b >= 2 AND c != d").unwrap(), "(or (< a #1) (and (>= b #2) (!= c d)))");
    assert_eq!(expr("x = 1").unwrap(), "(== x #1)");
    assert_eq!(expr("x == 1 AND y <= 2").unwrap(), "(and (== x #1) (<= y #2))");
    assert_eq!(expr("a MOD 3 > 0").unwrap(), "(> (% a #3) #0)");
}

#[test]
fn unary_operators_bind_tightest() {
    assert_eq!(expr("-a * b").unwrap(), "(* (neg a) b)");
    assert_eq!(expr("NOT a AND b").unwrap(), "(and (not a) b)");
    assert_eq!(expr("- - 1").unwrap(), "(neg (neg #1))");
}

#[test]
fn postfix_calls_indexes_and_members() {
    assert_eq!(expr("f(1, 2).x[0]").unwrap(), "(index (get (call f [#1 #2]) x) #0)");
    assert_eq!(expr("f()").unwrap(), "(call f [])");
    assert_eq!(expr("obj.move(1)(2)").unwrap(), "(call (mcall obj move [#1]) [#2])");
    assert_eq!(expr("obj.print").unwrap(), "(get obj print)");
}

#[test]
fn leading_dot_is_a_member_of_the_receiver() {
    assert_eq!(expr(".name").unwrap(), "(get this name)");
    assert_eq!(expr(".add(1, x)").unwrap(), "(mcall this add [#1 x])");
}

#[test]
fn literals_and_variables() {
    assert_eq!(expr("\"hi\"").unwrap(), "\"hi\"");
    assert_eq!(expr("TRUE").unwrap(), "true");
    assert_eq!(expr("false").unwrap(), "false");
    assert_eq!(expr("3.5").unwrap(), "#3.5");
    assert_eq!(expr("name$").unwrap(), "name$");
}

#[test]
fn author_with_and_without_parentheses() {
    assert_eq!(expr("AUTHOR").unwrap(), "\"Erik Olson\"");
    assert_eq!(expr("AUTHOR()").unwrap(), "\"Erik Olson\"");
    assert_eq!(expr("AUTHOR(1)").unwrap_err(), "parse error at line 1: expected RParen");
}

#[test]
fn new_class_and_eval_forms() {
    assert_eq!(expr("NEW Point(1, 2)").unwrap(), "(new Point [#1 #2])");
    assert_eq!(expr("NEW Point()").unwrap(), "(new Point [])");
    assert_eq!(expr("CLASS(\"a.basil\")").unwrap(), "(class \"a.basil\")");
    assert_eq!(expr("EVAL(1 + 2)").unwrap(), "(eval (+ #1 #2))");
    assert_eq!(expr("NEW 5").unwrap_err(), "parse error at line 1: expected identifier");
    assert_eq!(expr("NEW Point").unwrap_err(), "parse error at line 1: expected LParen");
    assert_eq!(expr("EVAL 1").unwrap_err(), "parse error at line 1: expected LParen");
}

#[test]
fn list_literals() {
    assert_eq!(expr("[]").unwrap(), "[]");
    assert_eq!(expr("[1, \"a\", [x]]").unwrap(), "[#1 \"a\" [x]]");
    assert_eq!(expr("[; 1 ;, 2 ;]").unwrap(), "[#1 #2]");
    assert_eq!(expr("[1 2]").unwrap_err(), "parse error at line 1: expected RBracket");
}

#[test]
fn trailing_comma_in_a_list_is_refused() {
    // After a comma the loop reads another element, so a trailing comma meets `]`.
    assert_eq!(expr("[1, 2,]").unwrap_err(), "parse error at line 1: unexpected token in expression: Some(RBracket)");
}

#[test]
fn dictionary_literals() {
    assert_eq!(expr("{}").unwrap(), "{}");
    assert_eq!(expr("{\"a\": 1, \"b\": x + 1}").unwrap(), "{\"a\":#1 \"b\":(+ x #1)}");
    assert_eq!(expr("{a: 1}").unwrap_err(), "parse error at line 1: expected String");
    assert_eq!(expr("{\"a\" 1}").unwrap_err(), "parse error at line 1: expected Colon");
    assert_eq!(expr("{\"a\": 1 \"b\": 2}").unwrap_err(), "parse error at line 1: expected RBrace");
}

#[test]
fn errors_name_the_token_and_line() {
    assert_eq!(expr("* 3").unwrap_err(), "parse error at line 1: unexpected token in expression: Some(Star)");
    assert_eq!(expr("(1 + 2").unwrap_err(), "parse error at line 1: expected RParen");
    assert_eq!(expr("a.5").unwrap_err(), "parse error at line 1: expected identifier");
    assert_eq!(expr("x[1").unwrap_err(), "parse error at line 1: expected RBracket");
    assert_eq!(expr("1 +").unwrap_err(), "parse error at line 1: unexpected token in expression: Some(Eof)");
}

#[test]
fn no_tokens_at_all() {
    let mut p = Parser::new(Vec::new());
    assert_eq!(p.parse_expr_bp(0).unwrap_err().0, "parse error at line 0: unexpected token in expression: None");
}

#[test]
fn parser_moves_past_each_expression() {
    let mut p = parser_for("1 + 2 x");
    assert_eq!(show(&p.parse_expr_bp(0).unwrap()), "(+ #1 #2)");
    assert_eq!(show(&p.parse_expr_bp(0).unwrap()), "x");
}

#[test]
fn minimum_binding_power_stops_weaker_operators() {
    let mut p = parser_for("1 + 2 * 3");
    assert_eq!(show(&p.parse_expr_bp(61).unwrap()), "#1");
    assert_eq!(p.parse_expr_bp(0).unwrap_err().0, "parse error at line 1: unexpected token in expression: Some(Plus)");
    let mut p = parser_for("1 * 2 + 3");
    assert_eq!(show(&p.parse_expr_bp(61).unwrap()), "(* #1 #2)");
}
