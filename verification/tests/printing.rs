use jlox::ast_printer::AstPrinter;
use jlox::expr::{Expr, Value, Visitor};
use jlox::number::Number;
use jlox::token::Token;
use jlox::token_type::TokenType;

fn format(n: Number) -> String {
    format!("{}", f64::from_bits(n.bits))
}

fn tok(type_: TokenType, lexeme: &str) -> Token {
    Token { type_, lexeme: lexeme.to_string(), line: 1 }
}

fn number(x: f64) -> Expr {
    Expr::Literal { value: Value::Number(Number { bits: x.to_bits() }) }
}

fn sample() -> Expr {
    Expr::Binary {
        left: Box::new(Expr::Unary {
            operator: tok(TokenType::Minus, "-"),
            right: Box::new(number(123.0)),
        }),
        operator: tok(TokenType::Star, "*"),
        right: Box::new(Expr::Grouping { expression: Box::new(number(45.67)) }),
    }
}

#[test]
fn prints_a_tree_with_every_grouping_shown() {
    assert_eq!(AstPrinter.print(&sample(), &format), "(* (- 123) (group 45.67))");
}

#[test]
fn prints_literals_variables_and_assignments() {
    assert_eq!(AstPrinter.print(&Expr::Literal { value: Value::Nil }, &format), "nil");
    assert_eq!(AstPrinter.print(&Expr::Literal { value: Value::Boolean(true) }, &format), "true");
    assert_eq!(AstPrinter.print(&Expr::Literal { value: Value::Boolean(false) }, &format), "false");
    assert_eq!(
        AstPrinter.print(&Expr::Literal { value: Value::String("a b".to_string()) }, &format),
        "a b"
    );
    assert_eq!(AstPrinter.print(&number(1.0), &format), "1");
    let variable = Expr::Variable { name: tok(TokenType::Identifier, "count") };
    assert_eq!(AstPrinter.print(&variable, &format), "count");
    let assign = Expr::Assign {
        name: tok(TokenType::Identifier, "count"),
        value: Box::new(Expr::Binary {
            left: Box::new(variable),
            operator: tok(TokenType::Plus, "+"),
            right: Box::new(number(1.0)),
        }),
    };
    assert_eq!(AstPrinter.print(&assign, &format), "(= count (+ count 1))");
}

#[test]
fn parenthesize_puts_a_space_before_each_part() {
    assert_eq!(AstPrinter.parenthesize("f", vec![]), "(f)");
    assert_eq!(AstPrinter.parenthesize("", vec!["a".to_string()]), "( a)");
    assert_eq!(
        AstPrinter.parenthesize("+", vec!["1".to_string(), "2".to_string(), "3".to_string()]),
        "(+ 1 2 3)"
    );
}

#[test]
fn literal_text_goes_through_the_format() {
    let loud = |_n: Number| "NUMBER".to_string();
    assert_eq!(AstPrinter.visit_literal(&Value::Number(Number { bits: 0 }), &loud), "NUMBER");
    assert_eq!(AstPrinter.print(&sample(), &loud), "(* (- NUMBER) (group NUMBER))");
}

#[test]
fn values_from_plain_values() {
    assert_eq!(Value::from(true), Value::Boolean(true));
    assert_eq!(Value::from(false), Value::Boolean(false));
    assert_eq!(Value::from("s".to_string()), Value::String("s".to_string()));
    assert_eq!(Value::from(Number { bits: 9 }), Value::Number(Number { bits: 9 }));
}

#[test]
fn clones_are_equal() {
    let expr = sample();
    assert_eq!(expr.clone(), expr);
    let value = Value::String("x".to_string());
    assert_eq!(value.clone(), value);
    let token = tok(TokenType::STRING { literal: "x".to_string() }, "\"x\"");
    assert_eq!(token.clone(), token);
}

struct Shapes {
    seen: Vec<&'static str>,
}

impl Visitor<usize> for Shapes {
    fn visits(_before: Self, _expr: Expr, _after: Self, _result: usize) -> bool {
        true
    }

    fn visit_assignment(&mut self, _name: &Token, value: &Expr) -> usize {
        self.seen.push("assign");
        1 + value.accept(self)
    }

    fn visit_binary(&mut self, left: &Expr, _operator: &Token, right: &Expr) -> usize {
        self.seen.push("binary");
        1 + left.accept(self) + right.accept(self)
    }

    fn visit_grouping(&mut self, expression: &Expr) -> usize {
        self.seen.push("grouping");
        1 + expression.accept(self)
    }

    fn visit_literal(&self, _value: &Value) -> usize {
        1
    }

    fn visit_unary(&mut self, _operator: &Token, right: &Expr) -> usize {
        self.seen.push("unary");
        1 + right.accept(self)
    }

    fn visit_variable(&self, _name: &Token) -> usize {
        1
    }
}

#[test]
fn accept_hands_each_node_to_the_method_of_its_shape() {
    let mut shapes = Shapes { seen: vec![] };
    assert_eq!(sample().accept(&mut shapes), 5);
    assert_eq!(shapes.seen, vec!["binary", "unary", "grouping"]);
    let assign = Expr::Assign {
        name: tok(TokenType::Identifier, "a"),
        value: Box::new(Expr::Variable { name: tok(TokenType::Identifier, "b") }),
    };
    let mut shapes = Shapes { seen: vec![] };
    assert_eq!(assign.accept(&mut shapes), 2);
    assert_eq!(shapes.seen, vec!["assign"]);
}
