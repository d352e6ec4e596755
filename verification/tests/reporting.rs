use jlox::error::{Expected, ParseError, RuntimeError};
use jlox::lox::{decimal_text, error, report};
use jlox::token::Token;
use jlox::token_type::TokenType;

#[test]
fn error_has_no_location() {
    assert_eq!(error(3, "Unexpected character.".to_string()), "[line 3] Error: Unexpected character.");
}

#[test]
fn report_places_the_location_after_error() {
    assert_eq!(
        report(12, " at 'x'".to_string(), "Expect ';' after value.".to_string()),
        "[line 12] Error at 'x': Expect ';' after value."
    );
    assert_eq!(report(0, String::new(), String::new()), "[line 0] Error: ");
}

#[test]
fn decimal_of_line_numbers() {
    assert_eq!(decimal_text(0), "0");
    assert_eq!(decimal_text(9), "9");
    assert_eq!(decimal_text(10), "10");
    assert_eq!(decimal_text(1234567890), "1234567890");
    assert_eq!(decimal_text(usize::MAX), usize::MAX.to_string());
}

#[test]
fn runtime_failure_messages() {
    let name = Token { type_: TokenType::Identifier, lexeme: "count".to_string(), line: 4 };
    let undefined = RuntimeError::UndefinedVariable { name };
    assert_eq!(undefined.message(), "Undefined variable 'count'.");
    assert_eq!(undefined.line(), 4);
    let minus = Token { type_: TokenType::Minus, lexeme: "-".to_string(), line: 2 };
    let one = RuntimeError::TypeMismatch { operator: minus.clone(), expected: Expected::Number };
    let two = RuntimeError::TypeMismatch { operator: minus.clone(), expected: Expected::Numbers };
    let any = RuntimeError::TypeMismatch { operator: minus, expected: Expected::NumbersOrStrings };
    assert_eq!(one.message(), "Operand must be a number.");
    assert_eq!(two.message(), "Operands must be numbers.");
    assert_eq!(any.message(), "Operands must be two numbers or two strings.");
    assert_eq!(any.line(), 2);
    assert_eq!(any.clone(), any);
}

#[test]
fn parse_failure_is_a_plain_value() {
    let e = ParseError { message: "Expect expression.".to_string(), line: 7 };
    assert_eq!(e.clone(), e);
}
