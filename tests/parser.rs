use unnamed_language::interpreter::value::Value;
use unnamed_language::parser::ast::{Decl, Expr, Identifier, Operator, Script, Stmt};
use unnamed_language::parser::Parser;

fn num(n: f64) -> Box<Expr> {
    Box::new(Expr::Literal(Value::Number(n.to_bits())))
}

fn binary(op: Operator, l: Box<Expr>, r: Box<Expr>) -> Box<Expr> {
    Box::new(Expr::Binary(op, l, r))
}

fn ident(name: &str) -> Box<Expr> {
    Box::new(Expr::Identifier(Identifier::new(name)))
}

fn expr_script(e: Box<Expr>) -> Script {
    Script { decls: vec![Decl::Stmt(Box::new(Stmt::Expr(e)))] }
}

fn parse(src: &str) -> Script {
    Parser::new(src).parse().unwrap()
}

fn parse_error(src: &str) -> (String, usize, usize) {
    let mut parser = Parser::new(src);
    let err = parser.parse().unwrap_err();
    (err.message().to_string(), err.span().start(), err.span().end())
}

#[test]
fn precedence_multiplication_binds_tighter() {
    let expected = binary(Operator::Add, num(1.0), binary(Operator::Mul, num(2.0), num(3.0)));
    assert_eq!(parse("1 + 2 * 3;"), expr_script(expected));
}

#[test]
fn exponent_is_right_associative() {
    let expected = binary(Operator::Exp, num(2.0), binary(Operator::Exp, num(3.0), num(2.0)));
    assert_eq!(parse("2 ** 3 ** 2;"), expr_script(expected));
}

#[test]
fn subtraction_is_left_associative() {
    let expected = binary(Operator::Sub, binary(Operator::Sub, num(5.0), num(2.0)), num(1.0));
    assert_eq!(parse("5 - 2 - 1;"), expr_script(expected));
}

#[test]
fn assignment_is_right_associative() {
    let inner = Box::new(Expr::Assignment(Identifier::new("b"), num(3.0)));
    let expected = Box::new(Expr::Assignment(Identifier::new("a"), inner));
    assert_eq!(parse("a = b = 3;"), expr_script(expected));
}

#[test]
fn assignment_has_lowest_precedence() {
    let value = binary(Operator::Or, ident("b"), binary(Operator::Eq, num(1.0), num(2.0)));
    let expected = Box::new(Expr::Assignment(Identifier::new("a"), value));
    assert_eq!(parse("a = b or 1 == 2;"), expr_script(expected));
}

#[test]
fn prefix_operators_and_grouping() {
    let neg = Box::new(Expr::Unary(Operator::Sub, num(2.0)));
    let expected = binary(Operator::Exp, neg, num(2.0));
    assert_eq!(parse("-2 ** 2;"), expr_script(expected));
    let grouped = binary(Operator::Mul, binary(Operator::Add, num(1.0), num(2.0)), num(3.0));
    assert_eq!(parse("(1 + 2) * 3;"), expr_script(grouped));
    let not = Box::new(Expr::Unary(Operator::Not, binary(Operator::Eq, ident("a"), ident("b"))));
    let expected = binary(Operator::And, not, Box::new(Expr::Literal(Value::Nil)));
    assert_eq!(parse("not a == b and nil;"), expr_script(expected));
}

#[test]
fn declarations_and_statements() {
    let script = parse("let x; let y = true; func f(a, b) { a; } if x { y; } else y; { }");
    let expected = Script {
        decls: vec![
            Decl::Var(Identifier::new("x"), None),
            Decl::Var(Identifier::new("y"), Some(Box::new(Expr::Literal(Value::Bool(true))))),
            Decl::Func(
                Identifier::new("f"),
                vec![Identifier::new("a"), Identifier::new("b")],
                Box::new(Stmt::Block(vec![Decl::Stmt(Box::new(Stmt::Expr(ident("a"))))])),
            ),
            Decl::Stmt(Box::new(Stmt::If(
                ident("x"),
                Box::new(Stmt::Block(vec![Decl::Stmt(Box::new(Stmt::Expr(ident("y"))))])),
                Some(Box::new(Stmt::Expr(ident("y")))),
            ))),
            Decl::Stmt(Box::new(Stmt::Block(vec![]))),
        ],
    };
    assert_eq!(script, expected);
}

#[test]
fn empty_parameter_list_and_empty_script() {
    let script = parse("func g() {}");
    let expected = Script {
        decls: vec![Decl::Func(Identifier::new("g"), vec![], Box::new(Stmt::Block(vec![])))],
    };
    assert_eq!(script, expected);
    assert_eq!(parse("   "), Script { decls: vec![] });
}

#[test]
fn parse_error_expecting_identifier() {
    assert_eq!(parse_error("let 5 = 3;"), ("expected <identifier> got <number>".to_string(), 4, 5));
}

#[test]
fn parse_error_invalid_assignment_target() {
    assert_eq!(parse_error("1 + 2 = 3;"), ("invalid assignment target".to_string(), 6, 7));
}

#[test]
fn parse_error_missing_tokens() {
    assert_eq!(parse_error("(1 + 2;"), ("expected ')' got ';'".to_string(), 6, 7));
    assert_eq!(parse_error("1 + 2"), ("expected ';' got <eof>".to_string(), 5, 5));
    assert_eq!(parse_error("{ 1;"), ("expected '}' got <eof>".to_string(), 4, 4));
    assert_eq!(parse_error(";"), ("unexpected token ';'".to_string(), 0, 1));
    assert_eq!(parse_error("1 + @;"), ("unexpected character '@'".to_string(), 4, 5));
    assert_eq!(parse_error("\"s\";"), ("unexpected token <string>".to_string(), 0, 3));
}
