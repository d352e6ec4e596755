use jlox::error::{Expected, RuntimeError};
use jlox::expr::{Expr, Value};
use jlox::interpreter::Interpreter;
use jlox::number::{Number, Operation};
use jlox::parser::Parser;
use jlox::scanner::Scanner;
use jlox::stmt::{are_well_formed, Stmt};
use jlox::token::Token;
use jlox::token_type::TokenType;

fn decode(text: &str) -> Number {
    Number { bits: text.parse::<f64>().unwrap().to_bits() }
}

fn unit(operation: Operation, a: Number, b: Number) -> Number {
    let x = f64::from_bits(a.bits);
    let y = f64::from_bits(b.bits);
    let z = match operation {
        Operation::Add => x + y,
        Operation::Subtract => x - y,
        Operation::Multiply => x * y,
        Operation::Divide => x / y,
    };
    Number { bits: z.to_bits() }
}

fn format(n: Number) -> String {
    format!("{}", f64::from_bits(n.bits))
}

fn parse(source: &str) -> Vec<Stmt> {
    let mut scanner = Scanner::new(source.to_string());
    let tokens = scanner.scan_tokens(&decode);
    assert!(scanner.errors().is_empty());
    let mut parser = Parser::new(tokens);
    let stmts = parser.parse().unwrap();
    assert!(are_well_formed(&stmts));
    stmts
}

fn evaluate(source: &str) -> Result<Value, RuntimeError> {
    let mut stmts = parse(&format!("{};", source));
    assert_eq!(stmts.len(), 1);
    let expr = match stmts.remove(0) {
        Stmt::Expression { expr } => *expr,
        other => panic!("not an expression statement: {:?}", other),
    };
    Interpreter::new().evaluate(&expr, &unit)
}

fn run(source: &str) -> (Vec<String>, Result<(), RuntimeError>) {
    let stmts = parse(source);
    let mut interpreter = Interpreter::new();
    let result = interpreter.interpret(&stmts, &unit);
    let lines = interpreter.take_output().iter().map(|v| v.text(&format)).collect();
    (lines, result)
}

fn number(x: f64) -> Value {
    Value::Number(Number { bits: x.to_bits() })
}

fn string(s: &str) -> Value {
    Value::String(s.to_string())
}

fn tok(type_: TokenType, lexeme: &str) -> Token {
    Token { type_, lexeme: lexeme.to_string(), line: 1 }
}

#[test]
fn one_plus_two_times_three_is_seven() {
    assert_eq!(evaluate("1+2*3"), Ok(number(7.0)));
}

#[test]
fn grouped_sum_times_three_is_nine() {
    assert_eq!(evaluate("(1+2)*3"), Ok(number(9.0)));
}

#[test]
fn a_number_never_equals_a_string() {
    assert_eq!(evaluate("1 == \"1\""), Ok(Value::Boolean(false)));
    assert_eq!(evaluate("1 == 1"), Ok(Value::Boolean(true)));
    assert_eq!(evaluate("1 != \"1\""), Ok(Value::Boolean(true)));
    assert_eq!(evaluate("1 != 1"), Ok(Value::Boolean(false)));
}

#[test]
fn equality_across_kinds() {
    assert_eq!(evaluate("nil == nil"), Ok(Value::Boolean(true)));
    assert_eq!(evaluate("nil == false"), Ok(Value::Boolean(false)));
    assert_eq!(evaluate("true == true"), Ok(Value::Boolean(true)));
    assert_eq!(evaluate("true == false"), Ok(Value::Boolean(false)));
    assert_eq!(evaluate("true == 1"), Ok(Value::Boolean(false)));
    assert_eq!(evaluate("\"a\" == \"a\""), Ok(Value::Boolean(true)));
    assert_eq!(evaluate("\"a\" == \"b\""), Ok(Value::Boolean(false)));
    assert_eq!(evaluate("\"\" == nil"), Ok(Value::Boolean(false)));
    assert_eq!(evaluate("0 == false"), Ok(Value::Boolean(false)));
    assert_eq!(evaluate("0 == -0"), Ok(Value::Boolean(true)));
    assert_eq!(evaluate("0/0 == 0/0"), Ok(Value::Boolean(false)));
    assert_eq!(evaluate("0/0 != 0/0"), Ok(Value::Boolean(true)));
}

#[test]
fn strings_are_joined_by_plus() {
    assert_eq!(evaluate("\"foo\" + \"bar\""), Ok(string("foobar")));
    assert_eq!(evaluate("\"\" + \"\""), Ok(string("")));
    assert_eq!(evaluate("\"a\" + \"b\" + \"c\""), Ok(string("abc")));
}

#[test]
fn a_number_plus_a_string_is_a_type_mismatch() {
    let plus = tok(TokenType::Plus, "+");
    let wanted =
        RuntimeError::TypeMismatch { operator: plus, expected: Expected::NumbersOrStrings };
    assert_eq!(evaluate("1 + \"a\""), Err(wanted.clone()));
    assert_eq!(evaluate("\"a\" + 1"), Err(wanted.clone()));
    assert_eq!(evaluate("nil + nil"), Err(wanted.clone()));
    assert_eq!(evaluate("true + 1"), Err(wanted));
}

#[test]
fn arithmetic() {
    assert_eq!(evaluate("7 - 10"), Ok(number(-3.0)));
    assert_eq!(evaluate("1.5 * 4"), Ok(number(6.0)));
    assert_eq!(evaluate("1 / 4"), Ok(number(0.25)));
    assert_eq!(evaluate("0.1 + 0.2"), Ok(number(0.1 + 0.2)));
    assert_eq!(evaluate("1 / 0"), Ok(number(f64::INFINITY)));
    assert_eq!(evaluate("10 - 2 - 3"), Ok(number(5.0)));
    assert_eq!(evaluate("-(1 + 2)"), Ok(number(-3.0)));
    assert_eq!(evaluate("--1"), Ok(number(1.0)));
    assert_eq!(evaluate("-0"), Ok(number(-0.0)));
}

#[test]
fn arithmetic_wants_numbers() {
    for (source, type_, lexeme) in [
        ("1 - \"a\"", TokenType::Minus, "-"),
        ("\"a\" * 2", TokenType::Star, "*"),
        ("nil / 2", TokenType::Slash, "/"),
        ("\"a\" - \"b\"", TokenType::Minus, "-"),
        ("1 < \"2\"", TokenType::Less, "<"),
        ("true <= 1", TokenType::LessEqual, "<="),
        ("\"a\" > \"b\"", TokenType::Greater, ">"),
        ("nil >= 1", TokenType::GreaterEqual, ">="),
    ] {
        assert_eq!(
            evaluate(source),
            Err(RuntimeError::TypeMismatch {
                operator: tok(type_, lexeme),
                expected: Expected::Numbers
            })
        );
    }
}

#[test]
fn ordering_of_numbers() {
    assert_eq!(evaluate("1 < 2"), Ok(Value::Boolean(true)));
    assert_eq!(evaluate("2 < 1"), Ok(Value::Boolean(false)));
    assert_eq!(evaluate("2 <= 2"), Ok(Value::Boolean(true)));
    assert_eq!(evaluate("2 > 2"), Ok(Value::Boolean(false)));
    assert_eq!(evaluate("2 >= 2"), Ok(Value::Boolean(true)));
    assert_eq!(evaluate("-1 > -2"), Ok(Value::Boolean(true)));
    assert_eq!(evaluate("-1 < 1"), Ok(Value::Boolean(true)));
    assert_eq!(evaluate("0/0 <= 0/0"), Ok(Value::Boolean(false)));
    assert_eq!(evaluate("1 + 1 == 2"), Ok(Value::Boolean(true)));
}

#[test]
fn unary_minus_wants_a_number() {
    assert_eq!(
        evaluate("-\"a\""),
        Err(RuntimeError::TypeMismatch {
            operator: tok(TokenType::Minus, "-"),
            expected: Expected::Number
        })
    );
    assert!(matches!(evaluate("-nil"), Err(RuntimeError::TypeMismatch { .. })));
    assert!(matches!(evaluate("-true"), Err(RuntimeError::TypeMismatch { .. })));
}

#[test]
fn bang_takes_any_value() {
    assert_eq!(evaluate("!nil"), Ok(Value::Boolean(true)));
    assert_eq!(evaluate("!false"), Ok(Value::Boolean(true)));
    assert_eq!(evaluate("!true"), Ok(Value::Boolean(false)));
    assert_eq!(evaluate("!0"), Ok(Value::Boolean(false)));
    assert_eq!(evaluate("!\"\""), Ok(Value::Boolean(false)));
    assert_eq!(evaluate("!!nil"), Ok(Value::Boolean(false)));
}

#[test]
fn nil_and_false_are_falsy_and_nothing_else_is() {
    let interpreter = Interpreter::new();
    assert!(!interpreter.is_truthy(&Value::Nil));
    assert!(!interpreter.is_truthy(&Value::Boolean(false)));
    assert!(interpreter.is_truthy(&Value::Boolean(true)));
    assert!(interpreter.is_truthy(&number(0.0)));
    assert!(interpreter.is_truthy(&number(-0.0)));
    assert!(interpreter.is_truthy(&number(f64::NAN)));
    assert!(interpreter.is_truthy(&number(1.0)));
    assert!(interpreter.is_truthy(&string("")));
    assert!(interpreter.is_truthy(&string("false")));
}

#[test]
fn is_equal_compares_by_value() {
    let interpreter = Interpreter::new();
    assert!(interpreter.is_equal(&Value::Nil, &Value::Nil));
    assert!(interpreter.is_equal(&string("a"), &string("a")));
    assert!(!interpreter.is_equal(&string("1"), &number(1.0)));
    assert!(interpreter.is_equal(&number(0.0), &number(-0.0)));
    assert!(!interpreter.is_equal(&number(f64::NAN), &number(f64::NAN)));
    assert!(!interpreter.is_equal(&Value::Boolean(false), &Value::Nil));
}

#[test]
fn numeric_gives_the_number_or_the_mismatch() {
    let interpreter = Interpreter::new();
    let star = tok(TokenType::Star, "*");
    assert_eq!(
        interpreter.numeric(&star, &number(2.0), Expected::Numbers),
        Ok(Number { bits: 2.0f64.to_bits() })
    );
    assert_eq!(
        interpreter.numeric(&star, &string("2"), Expected::Numbers),
        Err(RuntimeError::TypeMismatch { operator: star, expected: Expected::Numbers })
    );
}

#[test]
fn a_token_that_is_no_binary_operator_gives_nil() {
    let interpreter = Interpreter::new();
    let comma = tok(TokenType::Comma, ",");
    assert_eq!(interpreter.apply_binary(&comma, number(1.0), string("a"), &unit), Ok(Value::Nil));
}

#[test]
fn the_left_operand_fails_first() {
    assert_eq!(
        evaluate("a + b"),
        Err(RuntimeError::UndefinedVariable { name: tok(TokenType::Identifier, "a") })
    );
    assert_eq!(
        evaluate("1 + b"),
        Err(RuntimeError::UndefinedVariable { name: tok(TokenType::Identifier, "b") })
    );
    assert_eq!(
        evaluate("(1 + nil) + b"),
        Err(RuntimeError::TypeMismatch {
            operator: tok(TokenType::Plus, "+"),
            expected: Expected::NumbersOrStrings
        })
    );
}

#[test]
fn the_unit_is_asked_with_the_operands_in_order() {
    let spy = |operation: Operation, a: Number, b: Number| {
        assert_eq!(operation, Operation::Subtract);
        Number { bits: a.bits * 1000 + b.bits }
    };
    let left = Expr::Literal { value: Value::Number(Number { bits: 3 }) };
    let right = Expr::Literal { value: Value::Number(Number { bits: 4 }) };
    let expr = Expr::Binary {
        left: Box::new(left),
        operator: tok(TokenType::Minus, "-"),
        right: Box::new(right),
    };
    assert_eq!(Interpreter::new().evaluate(&expr, &spy), Ok(Value::Number(Number { bits: 3004 })));
}

#[test]
fn print_writes_the_canonical_text() {
    let (lines, result) =
        run("print 7; print 2.5; print 1/3; print true; print false; print nil; print \"hi\"; print \"\"; print -0.5; print 100 * 100;");
    assert_eq!(result, Ok(()));
    assert_eq!(
        lines,
        vec!["7", "2.5", "0.3333333333333333", "true", "false", "nil", "hi", "", "-0.5", "10000"]
    );
}

#[test]
fn text_of_values() {
    assert_eq!(Value::Nil.text(&format), "nil");
    assert_eq!(Value::Boolean(true).text(&format), "true");
    assert_eq!(Value::Boolean(false).text(&format), "false");
    assert_eq!(number(3.0).text(&format), "3");
    assert_eq!(string("a b").text(&format), "a b");
    assert_eq!(number(1.0).text(&|_n: Number| "one".to_string()), "one");
}

#[test]
fn statements_run_in_order() {
    let (lines, result) = run("var a = 1; print a; a = a + 1; print a; var a = \"x\"; print a;");
    assert_eq!(result, Ok(()));
    assert_eq!(lines, vec!["1", "2", "x"]);
}

#[test]
fn a_variable_without_initializer_is_nil() {
    let (lines, result) = run("var a; print a;");
    assert_eq!(result, Ok(()));
    assert_eq!(lines, vec!["nil"]);
}

#[test]
fn assignment_gives_the_assigned_value() {
    let (lines, result) = run("var a = 1; print a = 2; print a;");
    assert_eq!(result, Ok(()));
    assert_eq!(lines, vec!["2", "2"]);
}

#[test]
fn a_failure_ends_the_run_and_keeps_what_was_printed() {
    let (lines, result) = run("print 1; print -\"a\"; print 2;");
    assert_eq!(lines, vec!["1"]);
    assert!(matches!(result, Err(RuntimeError::TypeMismatch { .. })));
}

#[test]
fn declarations_live_on_between_programs() {
    let mut interpreter = Interpreter::new();
    assert_eq!(interpreter.interpret(&parse("var a = 1;"), &unit), Ok(()));
    assert_eq!(interpreter.interpret(&parse("a = a + 41;"), &unit), Ok(()));
    assert!(interpreter.interpret(&parse("print b;"), &unit).is_err());
    assert_eq!(interpreter.interpret(&parse("print a;"), &unit), Ok(()));
    assert_eq!(interpreter.output().len(), 1);
    assert_eq!(interpreter.take_output(), vec![number(42.0)]);
    assert!(interpreter.output().is_empty());
    assert_eq!(interpreter.lookup(&tok(TokenType::Identifier, "a")), Ok(number(42.0)));
}

#[test]
fn an_assignment_inside_an_expression_is_seen_by_what_follows() {
    let (lines, result) = run("var a = 1; print (a = 5) + a; print a;");
    assert_eq!(result, Ok(()));
    assert_eq!(lines, vec!["10", "5"]);
}

#[test]
fn division_by_zero_is_the_host_s_infinity() {
    let (lines, result) = run("print 1 / 0; print -1 / 0; print 0 / 0 == 0 / 0;");
    assert_eq!(result, Ok(()));
    assert_eq!(lines, vec!["inf", "-inf", "false"]);
}
