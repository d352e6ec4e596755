use jlox::error::ParseError;
use jlox::parser::Parser;
use jlox::token::Token;
use jlox::token_type::TokenType;

fn tok(type_: TokenType, lexeme: &str, line: usize) -> Token {
    Token { type_, lexeme: lexeme.to_string(), line }
}

fn parser() -> Parser {
    Parser::new(vec![
        tok(TokenType::LeftParen, "(", 1),
        tok(TokenType::Identifier, "a", 2),
        tok(TokenType::RightParen, ")", 3),
        tok(TokenType::Eof, "", 4),
    ])
}

#[test]
fn check_looks_and_does_not_move() {
    let p = parser();
    assert!(p.check(&TokenType::LeftParen));
    assert!(!p.check(&TokenType::Identifier));
    assert!(p.check(&TokenType::LeftParen));
    assert_eq!(p.peek(), tok(TokenType::LeftParen, "(", 1));
}

#[test]
fn check_is_false_at_the_end() {
    let p = Parser::new(vec![tok(TokenType::Eof, "", 1)]);
    assert!(p.is_at_end());
    assert!(!p.check(&TokenType::Eof));
    assert!(!p.check(&TokenType::Semicolon));
}

#[test]
fn mtch_moves_past_one_of_the_kinds_or_stays() {
    let mut p = parser();
    assert!(!p.mtch(vec![TokenType::Identifier, TokenType::RightParen]));
    assert_eq!(p.peek().lexeme, "(");
    assert!(!p.mtch(vec![]));
    assert!(p.mtch(vec![TokenType::Identifier, TokenType::LeftParen]));
    assert_eq!(p.previous().lexeme, "(");
    assert_eq!(p.peek().lexeme, "a");
}

#[test]
fn advance_gives_the_current_token_and_stops_at_the_end() {
    let mut p = parser();
    assert_eq!(p.advance().lexeme, "(");
    assert_eq!(p.advance().lexeme, "a");
    assert_eq!(p.advance().lexeme, ")");
    assert!(p.is_at_end());
    assert_eq!(p.advance(), tok(TokenType::Eof, "", 4));
    assert_eq!(p.advance(), tok(TokenType::Eof, "", 4));
    assert!(p.is_at_end());
    assert_eq!(p.previous().lexeme, ")");
}

#[test]
fn consume_moves_past_the_wanted_token() {
    let mut p = parser();
    assert_eq!(p.consume(&TokenType::LeftParen, "Expect '('."), Ok(tok(TokenType::LeftParen, "(", 1)));
    assert_eq!(p.peek().lexeme, "a");
}

#[test]
fn consume_fails_with_its_message_and_the_line_of_what_stands_there() {
    let mut p = parser();
    assert_eq!(
        p.consume(&TokenType::RightParen, "Expect ')' after expression."),
        Err(ParseError { message: "Expect ')' after expression.".to_string(), line: 1 })
    );
    assert_eq!(p.peek().lexeme, "(");
    p.advance();
    assert_eq!(
        p.consume(&TokenType::Semicolon, "Expect ';' after value."),
        Err(ParseError { message: "Expect ';' after value.".to_string(), line: 2 })
    );
    p.advance();
    p.advance();
    assert_eq!(
        p.consume(&TokenType::RightBrace, "Expect '}' after block."),
        Err(ParseError { message: "Expect '}' after block.".to_string(), line: 4 })
    );
}
