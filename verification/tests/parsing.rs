use jlox::error::ParseError;
use jlox::expr::{Expr, Value};
use jlox::number::Number;
use jlox::parser::Parser;
use jlox::scanner::Scanner;
use jlox::stmt::{are_well_formed, Stmt};
use jlox::token::Token;
use jlox::token_type::TokenType;

fn decode(text: &str) -> Number {
    Number { bits: text.parse::<f64>().unwrap().to_bits() }
}

fn parse(source: &str) -> Result<Vec<Stmt>, ParseError> {
    let mut scanner = Scanner::new(source.to_string());
    let tokens = scanner.scan_tokens(&decode);
    assert!(scanner.errors().is_empty());
    let mut parser = Parser::new(tokens);
    assert!(parser.is_terminated());
    parser.parse()
}

fn expression(source: &str) -> Expr {
    let mut stmts = parse(source).unwrap();
    assert_eq!(stmts.len(), 1);
    match stmts.remove(0) {
        Stmt::Expression { expr } => *expr,
        other => panic!("not an expression statement: {:?}", other),
    }
}

fn failure(source: &str) -> ParseError {
    parse(source).unwrap_err()
}

fn tok(type_: TokenType, lexeme: &str, line: usize) -> Token {
    Token { type_, lexeme: lexeme.to_string(), line }
}

fn number(x: f64) -> Expr {
    Expr::Literal { value: Value::Number(Number { bits: x.to_bits() }) }
}

fn binary(left: Expr, type_: TokenType, lexeme: &str, right: Expr) -> Expr {
    Expr::Binary { left: Box::new(left), operator: tok(type_, lexeme, 1), right: Box::new(right) }
}

fn variable(name: &str) -> Expr {
    Expr::Variable { name: tok(TokenType::Identifier, name, 1) }
}

#[test]
fn multiplication_binds_tighter_than_addition() {
    assert_eq!(
        expression("1+2*3;"),
        binary(
            number(1.0),
            TokenType::Plus,
            "+",
            binary(number(2.0), TokenType::Star, "*", number(3.0))
        )
    );
}

#[test]
fn grouping_overrides_precedence() {
    assert_eq!(
        expression("(1+2)*3;"),
        binary(
            Expr::Grouping {
                expression: Box::new(binary(number(1.0), TokenType::Plus, "+", number(2.0)))
            },
            TokenType::Star,
            "*",
            number(3.0)
        )
    );
}

#[test]
fn binary_operators_fold_to_the_left() {
    assert_eq!(
        expression("1-2-3;"),
        binary(
            binary(number(1.0), TokenType::Minus, "-", number(2.0)),
            TokenType::Minus,
            "-",
            number(3.0)
        )
    );
    assert_eq!(
        expression("8/4/2;"),
        binary(
            binary(number(8.0), TokenType::Slash, "/", number(4.0)),
            TokenType::Slash,
            "/",
            number(2.0)
        )
    );
}

#[test]
fn the_levels_of_precedence() {
    assert_eq!(
        expression("1 == 2 < 3 + 4 * -5;"),
        binary(
            number(1.0),
            TokenType::EqualEqual,
            "==",
            binary(
                number(2.0),
                TokenType::Less,
                "<",
                binary(
                    number(3.0),
                    TokenType::Plus,
                    "+",
                    binary(
                        number(4.0),
                        TokenType::Star,
                        "*",
                        Expr::Unary {
                            operator: tok(TokenType::Minus, "-", 1),
                            right: Box::new(number(5.0))
                        }
                    )
                )
            )
        )
    );
    assert_eq!(
        expression("1 != 2 >= 3;"),
        binary(
            number(1.0),
            TokenType::BangEqual,
            "!=",
            binary(number(2.0), TokenType::GreaterEqual, ">=", number(3.0))
        )
    );
}

#[test]
fn unary_operators_nest() {
    assert_eq!(
        expression("!-x;"),
        Expr::Unary {
            operator: tok(TokenType::Bang, "!", 1),
            right: Box::new(Expr::Unary {
                operator: tok(TokenType::Minus, "-", 1),
                right: Box::new(variable("x"))
            })
        }
    );
}

#[test]
fn primary_expressions() {
    assert_eq!(expression("true;"), Expr::Literal { value: Value::Boolean(true) });
    assert_eq!(expression("false;"), Expr::Literal { value: Value::Boolean(false) });
    assert_eq!(expression("nil;"), Expr::Literal { value: Value::Nil });
    assert_eq!(expression("2.5;"), number(2.5));
    assert_eq!(expression("\"hi\";"), Expr::Literal { value: Value::String("hi".to_string()) });
    assert_eq!(expression("abc;"), variable("abc"));
    assert_eq!(
        expression("((1));"),
        Expr::Grouping {
            expression: Box::new(Expr::Grouping { expression: Box::new(number(1.0)) })
        }
    );
}

#[test]
fn assignment_to_a_variable() {
    assert_eq!(
        expression("a = 1 + 2;"),
        Expr::Assign {
            name: tok(TokenType::Identifier, "a", 1),
            value: Box::new(binary(number(1.0), TokenType::Plus, "+", number(2.0)))
        }
    );
}

#[test]
fn assignment_to_anything_else_is_a_failure() {
    assert_eq!(
        failure("1 = 2;"),
        ParseError { message: "Invalid assignment target.".to_string(), line: 1 }
    );
    assert_eq!(failure("\n(a) = 2;").message, "Invalid assignment target.");
    assert_eq!(failure("\n(a) = 2;").line, 2);
    assert_eq!(failure("a + b = 2;").message, "Invalid assignment target.");
}

#[test]
fn statements() {
    let stmts = parse("var a = 1; var b; print a; { b = a; } a;").unwrap();
    assert!(are_well_formed(&stmts));
    assert_eq!(
        stmts,
        vec![
            Stmt::Var {
                name: tok(TokenType::Identifier, "a", 1),
                initializer: Box::new(number(1.0))
            },
            Stmt::Var {
                name: tok(TokenType::Identifier, "b", 1),
                initializer: Box::new(Expr::Literal { value: Value::Nil })
            },
            Stmt::Print { expr: Box::new(variable("a")) },
            Stmt::Block {
                stmts: vec![Stmt::Expression {
                    expr: Box::new(Expr::Assign {
                        name: tok(TokenType::Identifier, "b", 1),
                        value: Box::new(variable("a"))
                    })
                }]
            },
            Stmt::Expression { expr: Box::new(variable("a")) },
        ]
    );
}

#[test]
fn nested_and_empty_blocks() {
    assert_eq!(parse("{}").unwrap(), vec![Stmt::Block { stmts: vec![] }]);
    assert_eq!(
        parse("{ { } { print 1; } }").unwrap(),
        vec![Stmt::Block {
            stmts: vec![
                Stmt::Block { stmts: vec![] },
                Stmt::Block { stmts: vec![Stmt::Print { expr: Box::new(number(1.0)) }] },
            ]
        }]
    );
}

#[test]
fn empty_program() {
    assert_eq!(parse("").unwrap(), vec![]);
    assert_eq!(parse("  // nothing\n").unwrap(), vec![]);
}

#[test]
fn missing_semicolon_is_a_failure() {
    assert_eq!(
        failure("print 1"),
        ParseError { message: "Expect ';' after value.".to_string(), line: 1 }
    );
    assert_eq!(failure("1 + 2").message, "Expect ';' after value.");
    assert_eq!(failure("print 1\nprint 2;").line, 2);
    assert_eq!(failure("var a = 1").message, "Expect ';' after variable declaration");
    assert_eq!(failure("var a").message, "Expect ';' after variable declaration");
    assert_eq!(failure("{ print 1 }").message, "Expect ';' after value.");
    assert_eq!(failure("a = 1").message, "Expect ';' after value.");
}

#[test]
fn missing_right_paren_is_a_failure() {
    assert_eq!(
        failure("(1 + 2;"),
        ParseError { message: "Expect ')' after expression.".to_string(), line: 1 }
    );
    assert_eq!(failure("print (1;").message, "Expect ')' after expression.");
    assert_eq!(failure("((1);").message, "Expect ')' after expression.");
    assert_eq!(failure("var a = (1\n").message, "Expect ')' after expression.");
    assert_eq!(failure("var a = (1\n").line, 2);
    assert_eq!(failure("{ (1 + (2 * 3); }").message, "Expect ')' after expression.");
}

#[test]
fn missing_right_brace_is_a_failure() {
    assert_eq!(
        failure("{ print 1;"),
        ParseError { message: "Expect '}' after block.".to_string(), line: 1 }
    );
    assert_eq!(failure("{").message, "Expect '}' after block.");
    assert_eq!(failure("{ { print 1; }").message, "Expect '}' after block.");
    assert_eq!(failure("{ var a = 1;\n\n").line, 3);
}

#[test]
fn a_token_that_starts_no_expression_is_a_failure() {
    assert_eq!(
        failure("print ;"),
        ParseError { message: "Expect expression.".to_string(), line: 1 }
    );
    assert_eq!(failure("1 + ;").message, "Expect expression.");
    assert_eq!(failure("}").message, "Expect expression.");
    assert_eq!(failure("1 + ").message, "Expect expression.");
    assert_eq!(failure("()").message, "Expect expression.");
    assert_eq!(failure("while;").message, "Expect expression.");
}

#[test]
fn a_declaration_needs_a_name() {
    assert_eq!(
        failure("var 1 = 2;"),
        ParseError { message: "Expect variable name".to_string(), line: 1 }
    );
    assert_eq!(failure("var").message, "Expect variable name");
    assert_eq!(failure("var print;").message, "Expect variable name");
}

#[test]
fn the_first_failure_ends_the_parse() {
    assert_eq!(failure("print 1; print (2; print 3").message, "Expect ')' after expression.");
}

#[test]
fn parsing_stops_at_the_end_of_the_input() {
    let tokens = vec![
        tok(TokenType::Identifier, "a", 1),
        tok(TokenType::Semicolon, ";", 1),
        tok(TokenType::Eof, "", 1),
    ];
    let mut parser = Parser::new(tokens);
    assert!(parser.is_terminated());
    assert_eq!(parser.parse().unwrap(), vec![Stmt::Expression { expr: Box::new(variable("a")) }]);
    assert_eq!(parser.parse().unwrap(), vec![]);
}

#[test]
fn tokens_without_an_end_are_told_apart() {
    assert!(!Parser::new(vec![]).is_terminated());
    assert!(!Parser::new(vec![tok(TokenType::Semicolon, ";", 1)]).is_terminated());
    assert!(Parser::new(vec![tok(TokenType::Eof, "", 1)]).is_terminated());
}

#[test]
fn well_formedness_of_trees() {
    let good = Expr::Unary {
        operator: tok(TokenType::Bang, "!", 1),
        right: Box::new(number(1.0)),
    };
    let bad = Expr::Unary {
        operator: tok(TokenType::Plus, "+", 1),
        right: Box::new(number(1.0)),
    };
    assert!(good.is_well_formed());
    assert!(!bad.is_well_formed());
    assert!(binary(good.clone(), TokenType::Comma, ",", number(2.0)).is_well_formed());
    assert!(!Expr::Grouping { expression: Box::new(bad.clone()) }.is_well_formed());
    let block = Stmt::Block { stmts: vec![Stmt::Print { expr: Box::new(bad) }] };
    assert!(!block.is_well_formed());
    assert!(!are_well_formed(&vec![Stmt::Print { expr: Box::new(good) }, block]));
}

#[test]
fn statements_can_be_copied() {
    let stmts = parse("var a = 1; { print a; { a = 2; } } a;").unwrap();
    let copies: Vec<Stmt> = stmts.iter().map(|s| s.clone()).collect();
    assert_eq!(copies, stmts);
}

#[test]
fn the_value_of_an_assignment_is_an_equality_expression() {
    assert_eq!(
        expression("a = b == c;"),
        Expr::Assign {
            name: tok(TokenType::Identifier, "a", 1),
            value: Box::new(binary(variable("b"), TokenType::EqualEqual, "==", variable("c")))
        }
    );
    assert_eq!(failure("a = b = c;").message, "Expect ';' after value.");
    assert_eq!(failure("a = ;").message, "Expect expression.");
}

#[test]
fn a_variable_may_be_initialized_by_an_assignment() {
    let stmts = parse("var a = b = 1;").unwrap();
    assert_eq!(
        stmts,
        vec![Stmt::Var {
            name: tok(TokenType::Identifier, "a", 1),
            initializer: Box::new(Expr::Assign {
                name: tok(TokenType::Identifier, "b", 1),
                value: Box::new(number(1.0))
            })
        }]
    );
}

#[test]
fn tokens_keep_their_lines_in_the_tree() {
    let stmts = parse("print\n1\n+\nx;").unwrap();
    assert_eq!(
        stmts,
        vec![Stmt::Print {
            expr: Box::new(Expr::Binary {
                left: Box::new(number(1.0)),
                operator: tok(TokenType::Plus, "+", 3),
                right: Box::new(Expr::Variable { name: tok(TokenType::Identifier, "x", 4) })
            })
        }]
    );
}
