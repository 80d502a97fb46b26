use lox_scanner::scanner::Scanner;
use lox_scanner::token::Literal;
use lox_scanner::token::Token;
use lox_scanner::token_type::TokenType;

#[test]
fn test_token_add() {
    let source = String::from("hello");

    let mut scanner = Scanner::new(&source);
    let equal_token = TokenType::EQUAL;

    scanner.add_token(equal_token);

    assert_eq!(1, scanner.tokens.len());
}

#[test]
fn test_scan_equal() {
    let source = String::from("! = !=");

    let mut scanner = Scanner::new(&source);

    scanner.scan_tokens();

    assert_eq!(3, scanner.tokens.len());
}

#[test]
fn test_scan_paren() {
    let source = String::from("() ( ) (()) \n () ()");

    let mut scanner = Scanner::new(&source);

    scanner.scan_tokens();

    assert_eq!(12, scanner.tokens.len());
}

#[test]
fn test_comment() {
    let source = String::from("() // comment");

    let mut scanner = Scanner::new(&source);

    scanner.scan_tokens();

    assert_eq!(2, scanner.tokens.len());
}

#[test]
fn test_comment_newline() {
    let source = String::from("() // comment \n ()");

    let mut scanner = Scanner::new(&source);

    scanner.scan_tokens();

    assert_eq!(4, scanner.tokens.len());
}

#[test]
fn test_token_string_literal() {
    let source = String::from("\"hello\"");

    let mut scanner = Scanner::new(&source);

    scanner.scan_tokens();

    assert_eq!(1, scanner.tokens.len());

    let item = &scanner.tokens[0];

    let literal = &item.literal;

    assert!(literal.is_some());

    let s: &str = literal.as_str();
    assert_eq!(s, "hello");
}

#[test]
fn test_token_number_literal() {
    let source = String::from("11.0 11");

    let mut scanner = Scanner::new(&source);

    scanner.scan_tokens();

    assert_eq!(2, scanner.tokens.len());

    let item = &scanner.tokens[0];

    let literal = &item.literal;

    assert!(literal.is_some());

    let f: f32 = literal.number_text().parse().unwrap();
    let compare: f32 = 11.0;
    assert_eq!(f, compare);
}

#[test]
fn test_keyword() {
    let source = String::from("and");

    let mut scanner = Scanner::new(&source);

    scanner.scan_tokens();

    assert_eq!(1, scanner.tokens.len());

    let item = &scanner.tokens[0];

    let ttype = item.get_type();

    assert_eq!(TokenType::AND, ttype);
}

#[test]
fn test_identifier() {
    let source = String::from("andi");

    let mut scanner = Scanner::new(&source);

    scanner.scan_tokens();

    assert_eq!(1, scanner.tokens.len());

    let item = &scanner.tokens[0];

    let ttype = item.get_type();

    assert_eq!(TokenType::IDENTIFIER, ttype);
}

#[test]
fn test_token_printing() {
    let token_type = TokenType::EQUAL;
    let lexeme = "=";
    let literal = Literal::StringLiteral(String::from("literally"));
    let line = 0;

    let token = Token::new(token_type, literal, lexeme, line);

    let check = String::from("EQUAL = 0");

    assert_eq!(check, token.to_display_string());
}
