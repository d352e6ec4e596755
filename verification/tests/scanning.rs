use jlox::error::{ScanError, ScanErrorKind};
use jlox::number::Number;
use jlox::scanner::{keyword_get, Scanner};
use jlox::token::Token;
use jlox::token_type::TokenType;

fn decode(text: &str) -> Number {
    Number { bits: text.parse::<f64>().unwrap().to_bits() }
}

fn num(x: f64) -> TokenType {
    TokenType::Number { literal: Number { bits: x.to_bits() } }
}

fn scan(source: &str) -> (Vec<Token>, Vec<ScanError>) {
    let mut scanner = Scanner::new(source.to_string());
    let tokens = scanner.scan_tokens(&decode);
    (tokens, scanner.errors().clone())
}

fn kinds(source: &str) -> Vec<TokenType> {
    scan(source).0.into_iter().map(|t| t.type_).collect()
}

#[test]
fn scans_one_plus_two() {
    assert_eq!(kinds("1+2"), vec![num(1.0), TokenType::Plus, num(2.0), TokenType::Eof]);
}

#[test]
fn lexemes_and_lines_of_one_plus_two() {
    let (tokens, errors) = scan("1+2");
    assert!(errors.is_empty());
    let lexemes: Vec<&str> = tokens.iter().map(|t| t.lexeme.as_str()).collect();
    assert_eq!(lexemes, vec!["1", "+", "2", ""]);
    assert!(tokens.iter().all(|t| t.line == 1));
}

#[test]
fn empty_text_is_one_end_of_input() {
    let (tokens, errors) = scan("");
    assert_eq!(tokens, vec![Token { type_: TokenType::Eof, lexeme: String::new(), line: 1 }]);
    assert!(errors.is_empty());
}

#[test]
fn unterminated_string_is_one_failure_and_no_token() {
    let (tokens, errors) = scan("\"abc");
    assert_eq!(errors, vec![ScanError { kind: ScanErrorKind::UnterminatedString, line: 1 }]);
    assert_eq!(tokens.len(), 1);
    assert_eq!(tokens[0].type_, TokenType::Eof);
    assert!(!tokens.iter().any(|t| matches!(t.type_, TokenType::STRING { .. })));
}

#[test]
fn unterminated_string_is_reported_where_it_starts() {
    let (tokens, errors) = scan("1\n\"ab\ncd\n");
    assert_eq!(errors, vec![ScanError { kind: ScanErrorKind::UnterminatedString, line: 2 }]);
    assert_eq!(tokens.len(), 2);
    assert_eq!(tokens[0].type_, num(1.0));
    assert_eq!(tokens[1], Token { type_: TokenType::Eof, lexeme: String::new(), line: 4 });
}

#[test]
fn single_characters() {
    assert_eq!(
        kinds("(){},.-+;*/"),
        vec![
            TokenType::LeftParen,
            TokenType::RightParen,
            TokenType::LeftBrace,
            TokenType::RightBrace,
            TokenType::Comma,
            TokenType::Dot,
            TokenType::Minus,
            TokenType::Plus,
            TokenType::Semicolon,
            TokenType::Star,
            TokenType::Slash,
            TokenType::Eof,
        ]
    );
}

#[test]
fn two_character_operators_need_their_second_character() {
    assert_eq!(
        kinds("! != = == < <= > >="),
        vec![
            TokenType::Bang,
            TokenType::BangEqual,
            TokenType::Equal,
            TokenType::EqualEqual,
            TokenType::Less,
            TokenType::LessEqual,
            TokenType::Greater,
            TokenType::GreaterEqual,
            TokenType::Eof,
        ]
    );
    assert_eq!(kinds("!"), vec![TokenType::Bang, TokenType::Eof]);
    assert_eq!(
        kinds("==="),
        vec![TokenType::EqualEqual, TokenType::Equal, TokenType::Eof]
    );
    let (tokens, _) = scan("a<=b");
    assert_eq!(tokens[1].lexeme, "<=");
}

#[test]
fn comment_runs_to_the_end_of_the_line() {
    let (tokens, errors) = scan("1 // two three\n4 / 5 // six");
    assert!(errors.is_empty());
    let got: Vec<TokenType> = tokens.iter().map(|t| t.type_.clone()).collect();
    assert_eq!(got, vec![num(1.0), num(4.0), TokenType::Slash, num(5.0), TokenType::Eof]);
    assert_eq!(tokens[1].line, 2);
    assert_eq!(tokens[4].line, 2);
}

#[test]
fn white_space_is_passed_over_and_newlines_counted() {
    let (tokens, errors) = scan(" \t\r\n\n  x \n");
    assert!(errors.is_empty());
    assert_eq!(tokens.len(), 2);
    assert_eq!(tokens[0], Token { type_: TokenType::Identifier, lexeme: "x".to_string(), line: 3 });
    assert_eq!(tokens[1].line, 4);
}

#[test]
fn string_literal_carries_the_text_between_the_quotes() {
    let (tokens, errors) = scan("\"hello world\"");
    assert!(errors.is_empty());
    assert_eq!(
        tokens[0],
        Token {
            type_: TokenType::STRING { literal: "hello world".to_string() },
            lexeme: "\"hello world\"".to_string(),
            line: 1,
        }
    );
    assert_eq!(kinds("\"\""), vec![TokenType::STRING { literal: String::new() }, TokenType::Eof]);
}

#[test]
fn string_literal_may_span_lines() {
    let (tokens, errors) = scan("\"a\nb\" c");
    assert!(errors.is_empty());
    assert_eq!(tokens[0].type_, TokenType::STRING { literal: "a\nb".to_string() });
    assert_eq!(tokens[0].line, 2);
    assert_eq!(tokens[1].line, 2);
}

#[test]
fn number_literals() {
    assert_eq!(kinds("12.5"), vec![num(12.5), TokenType::Eof]);
    assert_eq!(kinds("007"), vec![num(7.0), TokenType::Eof]);
    assert_eq!(kinds("0.1"), vec![num(0.1), TokenType::Eof]);
    let (tokens, _) = scan("3.14159");
    assert_eq!(tokens[0].lexeme, "3.14159");
}

#[test]
fn a_dot_belongs_to_a_number_only_before_a_digit() {
    assert_eq!(kinds("1."), vec![num(1.0), TokenType::Dot, TokenType::Eof]);
    assert_eq!(
        kinds("1.x"),
        vec![num(1.0), TokenType::Dot, TokenType::Identifier, TokenType::Eof]
    );
    assert_eq!(kinds(".5"), vec![TokenType::Dot, num(5.0), TokenType::Eof]);
    assert_eq!(
        kinds("1.2.3"),
        vec![num(1.2), TokenType::Dot, num(3.0), TokenType::Eof]
    );
}

#[test]
fn identifiers_and_keywords() {
    assert_eq!(
        kinds("and class else false for fun if nil or print return super this true var while"),
        vec![
            TokenType::And,
            TokenType::Class,
            TokenType::Else,
            TokenType::False,
            TokenType::For,
            TokenType::Fun,
            TokenType::If,
            TokenType::Nil,
            TokenType::Or,
            TokenType::Print,
            TokenType::Return,
            TokenType::Super,
            TokenType::This,
            TokenType::True,
            TokenType::Var,
            TokenType::While,
            TokenType::Eof,
        ]
    );
    assert_eq!(
        kinds("_a1 andy Var nil_ x9"),
        vec![
            TokenType::Identifier,
            TokenType::Identifier,
            TokenType::Identifier,
            TokenType::Identifier,
            TokenType::Identifier,
            TokenType::Eof,
        ]
    );
}

#[test]
fn keyword_table() {
    assert_eq!(keyword_get("while"), Some(TokenType::While));
    assert_eq!(keyword_get("print"), Some(TokenType::Print));
    assert_eq!(keyword_get("printer"), None);
    assert_eq!(keyword_get("Print"), None);
    assert_eq!(keyword_get(""), None);
}

#[test]
fn unexpected_character_is_dropped_and_the_scan_goes_on() {
    let (tokens, errors) = scan("1 @ 2\n#");
    assert_eq!(
        errors,
        vec![
            ScanError { kind: ScanErrorKind::UnexpectedCharacter, line: 1 },
            ScanError { kind: ScanErrorKind::UnexpectedCharacter, line: 2 },
        ]
    );
    let got: Vec<TokenType> = tokens.into_iter().map(|t| t.type_).collect();
    assert_eq!(got, vec![num(1.0), num(2.0), TokenType::Eof]);
}

#[test]
fn characters_beyond_ascii_are_single_characters() {
    let (tokens, errors) = scan("\"h\u{e9}\" \u{e9} x");
    assert_eq!(errors, vec![ScanError { kind: ScanErrorKind::UnexpectedCharacter, line: 1 }]);
    assert_eq!(tokens[0].type_, TokenType::STRING { literal: "h\u{e9}".to_string() });
    assert_eq!(tokens[1].lexeme, "x");
}

#[test]
fn scanning_again_gives_the_same_tokens() {
    let mut scanner = Scanner::new("var a = 1; @".to_string());
    let first = scanner.scan_tokens(&decode);
    let second = scanner.scan_tokens(&decode);
    assert_eq!(first, second);
    assert_eq!(scanner.errors().len(), 1);
    assert_eq!(first.iter().filter(|t| t.type_ == TokenType::Eof).count(), 1);
}

#[test]
fn failures_can_be_taken() {
    let mut scanner = Scanner::new("@".to_string());
    scanner.scan_tokens(&decode);
    assert_eq!(
        scanner.take_errors(),
        vec![ScanError { kind: ScanErrorKind::UnexpectedCharacter, line: 1 }]
    );
    assert!(scanner.errors().is_empty());
}

#[test]
fn scan_failure_messages() {
    let unexpected = ScanError { kind: ScanErrorKind::UnexpectedCharacter, line: 1 };
    let unterminated = ScanError { kind: ScanErrorKind::UnterminatedString, line: 1 };
    assert_eq!(unexpected.message(), "Unexpected character.");
    assert_eq!(unterminated.message(), "Unterminated string.");
}

#[test]
fn kinds_match_by_kind_and_payload() {
    assert!(TokenType::Plus.matches(&TokenType::Plus));
    assert!(!TokenType::Plus.matches(&TokenType::Minus));
    assert!(num(1.0).matches(&num(1.0)));
    assert!(!num(1.0).matches(&num(2.0)));
    assert!(!num(1.0).matches(&TokenType::Identifier));
    let a = TokenType::STRING { literal: "a".to_string() };
    assert!(a.matches(&a.clone()));
    assert!(!a.matches(&TokenType::STRING { literal: "b".to_string() }));
}

#[test]
fn a_slash_alone_is_a_slash() {
    assert_eq!(kinds("/"), vec![TokenType::Slash, TokenType::Eof]);
    assert_eq!(kinds("//"), vec![TokenType::Eof]);
    assert_eq!(kinds("/ /"), vec![TokenType::Slash, TokenType::Slash, TokenType::Eof]);
    assert_eq!(kinds("1//\n2"), vec![num(1.0), num(2.0), TokenType::Eof]);
}

#[test]
fn a_quote_inside_a_comment_opens_no_string() {
    let (tokens, errors) = scan("// \"open\nx");
    assert!(errors.is_empty());
    assert_eq!(tokens.len(), 2);
    assert_eq!(tokens[0].lexeme, "x");
    assert_eq!(tokens[0].line, 2);
}

#[test]
fn long_number_literals_are_decoded_whole() {
    let digits = "123456789012345678901234567890.123456789012345678901234567890";
    let (tokens, errors) = scan(digits);
    assert!(errors.is_empty());
    assert_eq!(tokens[0].lexeme, digits);
    assert_eq!(tokens[0].type_, num(digits.parse::<f64>().unwrap()));
}
