use lox_scanner::error::error;
use lox_scanner::scanner::Scanner;
use lox_scanner::scanner::is_alpha;
use lox_scanner::scanner::is_alphanumeric;
use lox_scanner::scanner::is_digit;
use lox_scanner::scanner::keyword_token_type;
use lox_scanner::scanner::run;
use lox_scanner::token::Literal;
use lox_scanner::token::Token;
use lox_scanner::token_type::TokenType;

#[test]
fn empty_input_yields_no_tokens() {
    let (tokens, diags) = run("");
    assert_eq!(0, tokens.len());
    assert_eq!(0, diags.len());
}

#[test]
fn every_character_is_accounted_for() {
    // '@' and '#' are illegal: each is reported, and scanning continues.
    let (tokens, diags) = run("@+ #");
    assert_eq!(1, tokens.len());
    assert_eq!(TokenType::PLUS, tokens[0].get_type());
    assert_eq!(2, diags.len());
    assert_eq!("unexpected char", diags[0].message);
    assert_eq!("unexpected char", diags[1].message);
}

#[test]
fn line_numbers_count_preceding_newlines() {
    let (tokens, diags) = run("(\n)\n\n*");
    assert_eq!(0, diags.len());
    assert_eq!(3, tokens.len());
    assert_eq!(1, tokens[0].get_line());
    assert_eq!(2, tokens[1].get_line());
    assert_eq!(4, tokens[2].get_line());
}

#[test]
fn unexpected_char_reports_its_line() {
    let (tokens, diags) = run("\n\n@");
    assert_eq!(0, tokens.len());
    assert_eq!(1, diags.len());
    assert_eq!(3, diags[0].line);
}

#[test]
fn string_spanning_lines_reports_its_opening_line() {
    let (tokens, diags) = run("\"a\nb\" +");
    assert_eq!(0, diags.len());
    assert_eq!(2, tokens.len());
    assert_eq!(TokenType::STRING, tokens[0].get_type());
    assert_eq!(1, tokens[0].get_line());
    assert_eq!("a\nb", tokens[0].literal.as_str());
    assert_eq!(TokenType::PLUS, tokens[1].get_type());
    assert_eq!(2, tokens[1].get_line());
}

#[test]
fn bang_equal_is_one_token() {
    let (tokens, diags) = run("!=");
    assert_eq!(0, diags.len());
    assert_eq!(1, tokens.len());
    assert_eq!(TokenType::BANG_EQUAL, tokens[0].get_type());
    assert_eq!("!=", tokens[0].get_lexeme().as_str());
}

#[test]
fn separated_bang_and_equal_are_two_tokens() {
    let (tokens, diags) = run("! =");
    assert_eq!(0, diags.len());
    assert_eq!(2, tokens.len());
    assert_eq!(TokenType::BANG, tokens[0].get_type());
    assert_eq!(TokenType::EQUAL, tokens[1].get_type());
}

#[test]
fn two_char_operators_take_priority() {
    let (tokens, diags) = run("<= >= == !=");
    assert_eq!(0, diags.len());
    assert_eq!(4, tokens.len());
    assert_eq!(TokenType::LESS_EQUAL, tokens[0].get_type());
    assert_eq!(TokenType::GREATER_EQUAL, tokens[1].get_type());
    assert_eq!(TokenType::EQUAL_EQUAL, tokens[2].get_type());
    assert_eq!(TokenType::BANG_EQUAL, tokens[3].get_type());
}

#[test]
fn comment_contributes_no_token_regardless_of_length() {
    let (tokens, diags) = run("() // a comment of arbitrary length ((((}}}}!@#");
    assert_eq!(0, diags.len());
    assert_eq!(2, tokens.len());
    assert_eq!(TokenType::LEFT_PAREN, tokens[0].get_type());
    assert_eq!(TokenType::RIGHT_PAREN, tokens[1].get_type());
}

#[test]
fn slash_alone_is_division() {
    let (tokens, diags) = run("/ 2");
    assert_eq!(0, diags.len());
    assert_eq!(2, tokens.len());
    assert_eq!(TokenType::SLASH, tokens[0].get_type());
    assert_eq!(TokenType::NUMBER, tokens[1].get_type());
}

#[test]
fn string_literal_round_trips_without_quotes() {
    let (tokens, diags) = run("\"hello\"");
    assert_eq!(0, diags.len());
    assert_eq!(1, tokens.len());
    assert_eq!(TokenType::STRING, tokens[0].get_type());
    assert_eq!("hello", tokens[0].literal.as_str());
    assert_eq!("\"hello\"", tokens[0].get_lexeme().as_str());
}

#[test]
fn string_literal_keeps_multibyte_characters() {
    let (tokens, diags) = run("\"h\u{e9}llo\"");
    assert_eq!(0, diags.len());
    assert_eq!(1, tokens.len());
    assert_eq!("héllo", tokens[0].literal.as_str());
    assert_eq!("\"héllo\"", tokens[0].get_lexeme().as_str());
}

#[test]
fn numbers_parse_with_and_without_fraction() {
    let (tokens, diags) = run("11 11.1");
    assert_eq!(0, diags.len());
    assert_eq!(2, tokens.len());
    assert_eq!(TokenType::NUMBER, tokens[0].get_type());
    assert_eq!(TokenType::NUMBER, tokens[1].get_type());
    let a: f64 = tokens[0].literal.number_text().parse().unwrap();
    let b: f64 = tokens[1].literal.number_text().parse().unwrap();
    assert_eq!(11.0, a);
    assert_eq!(11.1, b);
    assert_eq!("11", tokens[0].literal.number_text());
    assert_eq!("11.1", tokens[1].literal.number_text());
}

#[test]
fn trailing_dot_is_not_part_of_the_number() {
    let (tokens, diags) = run("3.");
    assert_eq!(0, diags.len());
    assert_eq!(2, tokens.len());
    assert_eq!(TokenType::NUMBER, tokens[0].get_type());
    assert_eq!("3", tokens[0].literal.number_text());
    assert_eq!(TokenType::DOT, tokens[1].get_type());
}

#[test]
fn keyword_carries_no_literal() {
    let (tokens, diags) = run("and");
    assert_eq!(0, diags.len());
    assert_eq!(1, tokens.len());
    assert_eq!(TokenType::AND, tokens[0].get_type());
    assert!(!tokens[0].literal.is_some());
}

#[test]
fn identifier_close_to_keyword_is_identifier() {
    let (tokens, diags) = run("andi");
    assert_eq!(0, diags.len());
    assert_eq!(1, tokens.len());
    assert_eq!(TokenType::IDENTIFIER, tokens[0].get_type());
    assert!(!tokens[0].literal.is_some());
}

#[test]
fn all_sixteen_keywords_are_reserved() {
    let cases = [
        ("and", TokenType::AND),
        ("class", TokenType::CLASS),
        ("else", TokenType::ELSE),
        ("false", TokenType::FALSE),
        ("for", TokenType::FOR),
        ("fun", TokenType::FUN),
        ("if", TokenType::IF),
        ("nil", TokenType::NIL),
        ("or", TokenType::OR),
        ("print", TokenType::PRINT),
        ("return", TokenType::RETURN),
        ("super", TokenType::SUPER),
        ("this", TokenType::THIS),
        ("true", TokenType::TRUE),
        ("var", TokenType::VAR),
        ("while", TokenType::WHILE),
    ];
    for (text, expected) in cases {
        assert_eq!(Some(expected), keyword_token_type(text));
        let (tokens, _) = run(text);
        assert_eq!(1, tokens.len());
        assert_eq!(expected, tokens[0].get_type());
    }
    assert_eq!(None, keyword_token_type("And"));
    assert_eq!(None, keyword_token_type("an"));
    assert_eq!(None, keyword_token_type("whiles"));
}

#[test]
fn unterminated_string_reports_and_yields_no_token() {
    let (tokens, diags) = run("\"abc");
    assert_eq!(0, tokens.len());
    assert_eq!(1, diags.len());
    assert_eq!("unterminated string", diags[0].message);
    assert_eq!(1, diags[0].line);
}

#[test]
fn unterminated_string_reports_line_where_input_ran_out() {
    let (tokens, diags) = run("\"a\nbc");
    assert_eq!(0, tokens.len());
    assert_eq!(1, diags.len());
    assert_eq!("unterminated string", diags[0].message);
    assert_eq!(2, diags[0].line);
}

#[test]
fn scanning_twice_yields_identical_sequences() {
    let source = "var x = 1.5; // init\nprint \"x\" != y";
    let (t1, d1) = run(source);
    let (t2, d2) = run(source);
    assert_eq!(t1.len(), t2.len());
    for k in 0..t1.len() {
        assert_eq!(t1[k].get_type(), t2[k].get_type());
        assert_eq!(t1[k].get_lexeme(), t2[k].get_lexeme());
        assert_eq!(t1[k].get_line(), t2[k].get_line());
        assert_eq!(t1[k].literal.as_str(), t2[k].literal.as_str());
        assert_eq!(t1[k].literal.number_text(), t2[k].literal.number_text());
    }
    assert_eq!(d1.len(), d2.len());
    for k in 0..d1.len() {
        assert_eq!(d1[k].line, d2[k].line);
        assert_eq!(d1[k].message, d2[k].message);
    }
}

#[test]
fn scanner_state_does_not_leak_between_calls() {
    let mut scanner = Scanner::new("+");
    let first = scanner.scan_tokens();
    assert_eq!(1, first.len());
    // a second call on the same scanner finds no further input
    let second = scanner.scan_tokens();
    assert_eq!(1, second.len());
    assert_eq!(0, scanner.diagnostics.len());
}

#[test]
fn error_renders_the_report_line() {
    assert_eq!("[line 1 ] error : unterminated string", error(1, "unterminated string"));
    assert_eq!("[line 305 ] error : unexpected char", error(305, "unexpected char"));
}

#[test]
fn token_display_names_kind_lexeme_and_line() {
    let token = Token::new(TokenType::WHILE, Literal::Empty, "while", 12);
    assert_eq!("WHILE while 12", token.to_display_string());
    assert_eq!("WHILE", TokenType::WHILE.name());
}

#[test]
fn character_classes_are_ascii() {
    assert!(is_digit('0') && is_digit('9'));
    assert!(!is_digit('a'));
    assert!(is_alpha('a') && is_alpha('Z') && is_alpha('_'));
    assert!(!is_alpha('1'));
    assert!(is_alphanumeric('a') && is_alphanumeric('7') && is_alphanumeric('_'));
    assert!(!is_alphanumeric(' '));
}

#[test]
fn literal_accessors_default_to_empty_text() {
    let none = Literal::Empty;
    assert!(!none.is_some());
    assert_eq!("", none.as_str());
    assert_eq!("", none.number_text());
    let num = Literal::NumberLiteral(String::from("4.25"));
    assert!(num.is_some());
    assert_eq!("", num.as_str());
    assert_eq!("4.25", num.number_text());
}

#[test]
fn braces_dots_and_punctuation_scan_singly() {
    let (tokens, diags) = run("{},.-;*");
    assert_eq!(0, diags.len());
    let kinds: Vec<TokenType> = tokens.iter().map(|t| t.get_type()).collect();
    assert_eq!(
        vec![
            TokenType::LEFT_BRACE,
            TokenType::RIGHT_BRACE,
            TokenType::COMMA,
            TokenType::DOT,
            TokenType::MINUS,
            TokenType::SEMICOLON,
            TokenType::STAR,
        ],
        kinds
    );
}
