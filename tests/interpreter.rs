use unnamed_language::interpreter::environment::Environment;
use unnamed_language::interpreter::value::Value;
use unnamed_language::interpreter::{check_number_operands, Interpreter, RuntimeError};
use unnamed_language::parser::Parser;

fn run(src: &str) -> (Interpreter, Result<(), RuntimeError>) {
    let mut interpreter = Interpreter::default();
    let script = Parser::new(src).parse().unwrap();
    let result = interpreter.interpret(&script);
    (interpreter, result)
}

fn number(interpreter: &Interpreter, name: &str) -> f64 {
    match interpreter.lookup(name) {
        Some(Value::Number(bits)) => f64::from_bits(bits),
        other => panic!("{name} is {other:?}"),
    }
}

#[test]
fn evaluates_with_precedence() {
    let (i, r) = run("let r = 1 + 2 * 3;");
    assert_eq!(r, Ok(()));
    assert_eq!(number(&i, "r"), 7.0);
}

#[test]
fn evaluates_right_associative_exponent() {
    let (i, r) = run("let r = 2 ** 3 ** 2;");
    assert_eq!(r, Ok(()));
    assert_eq!(number(&i, "r"), 512.0);
}

#[test]
fn chained_assignment_assigns_both() {
    let (i, r) = run("let a; let b; a = b = 3;");
    assert_eq!(r, Ok(()));
    assert_eq!(number(&i, "a"), 3.0);
    assert_eq!(number(&i, "b"), 3.0);
}

#[test]
fn and_short_circuits() {
    let (i, r) = run("let r = false and (1 / 0);");
    assert_eq!(r, Ok(()));
    assert_eq!(i.lookup("r"), Some(Value::Bool(false)));
}

#[test]
fn or_short_circuits() {
    let (i, r) = run("let r = true or (1 / 0);");
    assert_eq!(r, Ok(()));
    assert_eq!(i.lookup("r"), Some(Value::Bool(true)));
    let (i, _) = run("let r = nil or 5;");
    assert_eq!(number(&i, "r"), 5.0);
    let (i, _) = run("let r = 1 and nil;");
    assert_eq!(i.lookup("r"), Some(Value::Nil));
}

#[test]
fn block_definitions_stay_in_the_block() {
    let (i, r) = run("let x = 0; { let x = 1; x = 2; }");
    assert_eq!(r, Ok(()));
    assert_eq!(number(&i, "x"), 0.0);
    let (i, r) = run("{ let y = 1; y = 2; } y;");
    assert_eq!(r, Err(RuntimeError::UndefinedVariable));
    assert_eq!(i.lookup("y"), None);
}

#[test]
fn assignment_reaches_outer_scope() {
    let (i, r) = run("let x = 0; { x = 5; }");
    assert_eq!(r, Ok(()));
    assert_eq!(number(&i, "x"), 5.0);
}

#[test]
fn runtime_errors() {
    assert_eq!(run("1 / 0;").1, Err(RuntimeError::DivisionByZero));
    assert_eq!(run("1 % 0;").1, Err(RuntimeError::DivisionByZero));
    assert_eq!(run("undeclared;").1, Err(RuntimeError::UndefinedVariable));
    assert_eq!(run("z = 1;").1, Err(RuntimeError::UndefinedVariable));
    assert_eq!(run("not 1;").1, Err(RuntimeError::InvalidOperand));
    assert_eq!(run("-true;").1, Err(RuntimeError::InvalidOperand));
    assert_eq!(run("1 < nil;").1, Err(RuntimeError::InvalidOperand));
    assert_eq!(run("true + 1;").1, Err(RuntimeError::InvalidOperand));
    assert_eq!(RuntimeError::DivisionByZero.message(), "division by zero is undefined");
}

#[test]
fn error_stops_the_script_and_leaves_scopes_balanced() {
    let (i, r) = run("let a = 1; { let b = 2; 1 / 0; } a = 2;");
    assert_eq!(r, Err(RuntimeError::DivisionByZero));
    assert_eq!(number(&i, "a"), 1.0);
    assert_eq!(i.lookup("b"), None);
}

#[test]
fn arithmetic_results() {
    let (i, r) = run(
        "let a = 1.5 + 2.25; let b = 1 - 3; let c = 2.5 * 4; let d = 1 / 4; let e = 7 % 3; \
         let f = 2 ** 10; let g = -(4); let h = -7 % 3;",
    );
    assert_eq!(r, Ok(()));
    assert_eq!(number(&i, "a"), 3.75);
    assert_eq!(number(&i, "b"), -2.0);
    assert_eq!(number(&i, "c"), 10.0);
    assert_eq!(number(&i, "d"), 0.25);
    assert_eq!(number(&i, "e"), 1.0);
    assert_eq!(number(&i, "f"), 1024.0);
    assert_eq!(number(&i, "g"), -4.0);
    assert_eq!(number(&i, "h"), -1.0);
}

#[test]
fn comparisons_and_equality() {
    let (i, r) = run(
        "let a = 1 < 2; let b = 2 <= 2; let c = 3 > 4; let d = 3 >= 4; let e = 1 == true; \
         let f = nil == nil; let g = 1 != 2; let h = -0 == 0; let k = not false;",
    );
    assert_eq!(r, Ok(()));
    assert_eq!(i.lookup("a"), Some(Value::Bool(true)));
    assert_eq!(i.lookup("b"), Some(Value::Bool(true)));
    assert_eq!(i.lookup("c"), Some(Value::Bool(false)));
    assert_eq!(i.lookup("d"), Some(Value::Bool(false)));
    assert_eq!(i.lookup("e"), Some(Value::Bool(false)));
    assert_eq!(i.lookup("f"), Some(Value::Bool(true)));
    assert_eq!(i.lookup("g"), Some(Value::Bool(true)));
    assert_eq!(i.lookup("h"), Some(Value::Bool(true)));
    assert_eq!(i.lookup("k"), Some(Value::Bool(true)));
}

#[test]
fn if_takes_one_branch() {
    let (i, r) = run("let x = 0; if nil x = 1; else x = 2; if 0 { x = x + 10; }");
    assert_eq!(r, Ok(()));
    assert_eq!(number(&i, "x"), 12.0);
}

#[test]
fn bindings_persist_between_scripts() {
    let mut interpreter = Interpreter::new();
    let first = Parser::new("let n = 4;").parse().unwrap();
    assert_eq!(interpreter.interpret(&first), Ok(()));
    let second = Parser::new("n = n * n;").parse().unwrap();
    assert_eq!(interpreter.interpret(&second), Ok(()));
    assert_eq!(number(&interpreter, "n"), 16.0);
}

#[test]
fn environment_scopes() {
    let mut env = Environment::new();
    env.define("a", Value::Bool(true));
    assert_eq!(env.get("a"), Some(Value::Bool(true)));
    env.push();
    assert_eq!(env.get("a"), Some(Value::Bool(true)));
    env.define("a", Value::Nil);
    assert_eq!(env.get("a"), Some(Value::Nil));
    assert_eq!(env.set("a", Value::Bool(false)), Some(Value::Nil));
    assert_eq!(env.set("missing", Value::Nil), None);
    assert_eq!(env.get("missing"), None);
    env.pop();
    assert_eq!(env.get("a"), Some(Value::Bool(true)));
    env.define("a", Value::Bool(false));
    assert_eq!(env.get("a"), Some(Value::Bool(false)));
}

#[test]
fn values_and_operands() {
    assert!(Value::Number(0).is_truthy());
    assert!(!Value::Nil.is_truthy());
    assert!(!Value::Bool(false).is_truthy());
    let nan = Value::Number(f64::NAN.to_bits());
    assert!(!nan.equals(&nan));
    assert!(Value::Number(0.0f64.to_bits()).equals(&Value::Number((-0.0f64).to_bits())));
    assert_eq!(
        check_number_operands(&Value::Number(1), &Value::Number(2)),
        Ok((1, 2))
    );
    assert_eq!(
        check_number_operands(&Value::Number(1), &Value::Nil),
        Err(RuntimeError::InvalidOperand)
    );
}

#[test]
fn power_nan_is_canonical() {
    let (i, r) = run("let r = (-2) ** 0.5; let s = 4 ** 0.5;");
    assert_eq!(r, Ok(()));
    assert_eq!(i.lookup("r"), Some(Value::Number(0x7ff8_0000_0000_0000)));
    assert_eq!(number(&i, "s"), 2.0);
}
