use jlox::error::{ParseError, RuntimeError, ScanError, ScanErrorKind};
use jlox::expr::Value;
use jlox::lox::{Lox, LoxError, Report};
use jlox::number::{Number, Operation};
use jlox::token::Token;
use jlox::token_type::TokenType;

fn decode(text: &str) -> Number {
    Number { bits: text.parse::<f64>().unwrap().to_bits() }
}

fn unit(operation: Operation, a: Number, b: Number) -> Number {
    let x = f64::from_bits(a.bits);
    let y = f64::from_bits(b.bits);
    let z = match operation {
        Operation::Add => x + y,
        Operation::Subtract => x - y,
        Operation::Multiply => x * y,
        Operation::Divide => x / y,
    };
    Number { bits: z.to_bits() }
}

fn number(x: f64) -> Value {
    Value::Number(Number { bits: x.to_bits() })
}

fn run(lox: &mut Lox, source: &str) -> Report {
    lox.run(source.to_string(), &decode, &unit)
}

#[test]
fn a_text_is_scanned_parsed_and_run() {
    let report = run(&mut Lox::new(), "print 1 + 2 * 3; print (1 + 2) * 3;");
    assert_eq!(
        report,
        Report { scan_errors: vec![], printed: vec![number(7.0), number(9.0)], result: Ok(()) }
    );
}

#[test]
fn shadowing_in_a_block() {
    let report = run(&mut Lox::new(), "var a = 1; { var a = 2; print a; } print a;");
    assert_eq!(report.printed, vec![number(2.0), number(1.0)]);
    assert_eq!(report.result, Ok(()));
}

#[test]
fn a_text_that_does_not_parse_is_not_run() {
    let mut lox = Lox::new();
    let report = run(&mut lox, "var a = 1; print a; print (a;");
    assert_eq!(
        report,
        Report {
            scan_errors: vec![],
            printed: vec![],
            result: Err(LoxError::Parse(ParseError {
                message: "Expect ')' after expression.".to_string(),
                line: 1
            })),
        }
    );
    let after = run(&mut lox, "print a;");
    assert!(matches!(after.result, Err(LoxError::Runtime(RuntimeError::UndefinedVariable { .. }))));
}

#[test]
fn a_runtime_failure_keeps_what_came_before() {
    let mut lox = Lox::new();
    let report = run(&mut lox, "var a = 1; print a; x = 2; print 3;");
    assert_eq!(report.printed, vec![number(1.0)]);
    assert_eq!(
        report.result,
        Err(LoxError::Runtime(RuntimeError::UndefinedVariable {
            name: Token { type_: TokenType::Identifier, lexeme: "x".to_string(), line: 1 }
        }))
    );
    let after = run(&mut lox, "print a;");
    assert_eq!(after.printed, vec![number(1.0)]);
    assert_eq!(after.result, Ok(()));
}

#[test]
fn variables_live_on_from_one_run_to_the_next() {
    let mut lox = Lox::new();
    assert_eq!(run(&mut lox, "var total = 10;").result, Ok(()));
    assert_eq!(run(&mut lox, "total = total * 2;").result, Ok(()));
    assert_eq!(run(&mut lox, "print total;").printed, vec![number(20.0)]);
}

#[test]
fn scan_failures_do_not_stop_the_run() {
    let report = run(&mut Lox::new(), "print 1 @ + 2;\nprint \"open");
    assert_eq!(
        report.scan_errors,
        vec![
            ScanError { kind: ScanErrorKind::UnexpectedCharacter, line: 1 },
            ScanError { kind: ScanErrorKind::UnterminatedString, line: 2 },
        ]
    );
    assert_eq!(report.printed, vec![]);
    assert_eq!(
        report.result,
        Err(LoxError::Parse(ParseError { message: "Expect expression.".to_string(), line: 2 }))
    );
    let dropped = run(&mut Lox::new(), "print 1 @ + 2;");
    assert_eq!(dropped.scan_errors.len(), 1);
    assert_eq!(dropped.printed, vec![number(3.0)]);
    assert_eq!(dropped.result, Ok(()));
}

#[test]
fn an_empty_text_does_nothing() {
    let report = run(&mut Lox::new(), "");
    assert_eq!(report, Report { scan_errors: vec![], printed: vec![], result: Ok(()) });
}
