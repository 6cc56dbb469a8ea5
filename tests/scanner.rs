use tinylang::error::ErrorKind;
use tinylang::interpreter::{decimal_text, display_text, folded, is_int_text_exec, without_newline};
use tinylang::parser::Parser;
use tinylang::scanner::{reserved_keyword, Scanner};
use tinylang::tokens::{Token, TokenType, Value};

fn tokens(text: &str) -> Result<Vec<Token>, ErrorKind> {
    let mut scanner = Scanner::new(text.to_string());
    let mut out = Vec::new();
    loop {
        let t = scanner.get_next_token()?;
        let end = t.type_ == TokenType::EOF;
        out.push(t);
        if end {
            return Ok(out);
        }
    }
}

fn types(text: &str) -> Vec<TokenType> {
    tokens(text).unwrap().into_iter().map(|t| t.type_).collect()
}

#[test]
fn scans_declaration() {
    let ts = tokens("var x : int := 42;").unwrap();
    let kinds: Vec<TokenType> = ts.iter().map(|t| t.type_).collect();
    assert_eq!(
        kinds,
        vec![
            TokenType::Var,
            TokenType::ID,
            TokenType::Colon,
            TokenType::Integer,
            TokenType::Assign,
            TokenType::Integer,
            TokenType::Semi,
            TokenType::EOF
        ]
    );
    assert_eq!(ts[1].value, Value::String("x".to_string()));
    assert_eq!(ts[4].value, Value::String(":=".to_string()));
    assert_eq!(ts[5].value, Value::Number(42));
    assert_eq!(ts[6].value, Value::Char(';'));
    assert_eq!(ts[7].value, Value::Empty);
}

#[test]
fn scans_operators_and_keywords() {
    assert_eq!(
        types("for i in 0 .. 3 do end for if else print read bool string ! & = < + - * / ( )"),
        vec![
            TokenType::For,
            TokenType::ID,
            TokenType::In,
            TokenType::Integer,
            TokenType::To,
            TokenType::Integer,
            TokenType::Do,
            TokenType::End,
            TokenType::For,
            TokenType::If,
            TokenType::Else,
            TokenType::Print,
            TokenType::Read,
            TokenType::Bool,
            TokenType::Str,
            TokenType::Not,
            TokenType::And,
            TokenType::Equal,
            TokenType::LessThan,
            TokenType::Plus,
            TokenType::Minus,
            TokenType::Mul,
            TokenType::Div,
            TokenType::LeftParen,
            TokenType::RightParen,
            TokenType::EOF
        ]
    );
}

#[test]
fn keywords_are_case_sensitive() {
    let ts = tokens("Var FOR _x1").unwrap();
    assert_eq!(ts[0].type_, TokenType::ID);
    assert_eq!(ts[1].type_, TokenType::ID);
    assert_eq!(ts[2].value, Value::String("_x1".to_string()));
    assert_eq!(reserved_keyword(&"string".chars().collect()), TokenType::Str);
    assert_eq!(reserved_keyword(&"strings".chars().collect()), TokenType::ID);
}

#[test]
fn string_literal_escapes() {
    let ts = tokens(r#""a\"b\;c""#).unwrap();
    assert_eq!(ts[0].type_, TokenType::StringLiteral);
    assert_eq!(ts[0].value, Value::String("a\"b;c".to_string()));
    assert_eq!(ts[1].type_, TokenType::EOF);
}

#[test]
fn string_literal_errors() {
    assert_eq!(tokens("\"a;b\"").err(), Some(ErrorKind::Lexical));
    assert_eq!(tokens("\"a\nb\"").err(), Some(ErrorKind::Lexical));
    assert_eq!(tokens("\"abc\\").err(), Some(ErrorKind::Lexical));
}

#[test]
fn comments_and_division() {
    assert_eq!(types("6 / 2 // rest"), vec![TokenType::Integer, TokenType::Div, TokenType::Integer, TokenType::EOF]);
    assert_eq!(types("/* a * / b */ 1 /"), vec![TokenType::Integer, TokenType::Div, TokenType::EOF]);
    assert_eq!(types("/* never closed"), vec![TokenType::EOF]);
    assert_eq!(types(""), vec![TokenType::EOF]);
}

#[test]
fn integer_literal_limits() {
    let ts = tokens("2147483647").unwrap();
    assert_eq!(ts[0].value, Value::Number(2147483647));
    assert_eq!(tokens("2147483648").err(), Some(ErrorKind::Lexical));
    let ts = tokens("12ab").unwrap();
    assert_eq!(ts[0].value, Value::Number(12));
    assert_eq!(ts[1].value, Value::String("ab".to_string()));
}

#[test]
fn parser_needs_first_token() {
    assert!(Parser::new(Scanner::new("@".to_string())).is_err());
    assert!(Parser::new(Scanner::new("print x".to_string())).is_ok());
}

#[test]
fn text_helpers() {
    assert_eq!(decimal_text(0), "0");
    assert_eq!(decimal_text(-120), "-120");
    assert_eq!(decimal_text(i32::MIN), "-2147483648");
    assert_eq!(decimal_text(i32::MAX), "2147483647");
    assert_eq!(display_text(&Value::Boolean(false)), "false");
    assert_eq!(display_text(&Value::Char('z')), "z");
    assert_eq!(display_text(&Value::Empty), "");
    assert_eq!(folded("MiXed_9"), "mixed_9");
    assert_eq!(without_newline(&"line\n".to_string()), "line");
    assert_eq!(without_newline(&"line\n\n".to_string()), "line\n");
    assert_eq!(without_newline(&"line".to_string()), "line");
}

#[test]
fn integer_text() {
    let yes = ["0", "+7", "-2147483648", "2147483647", "0012"];
    let no = ["", "-", "+", "2147483648", "-2147483649", "1 ", "x1", "--1"];
    for t in yes {
        assert!(is_int_text_exec(&t.chars().collect()), "{}", t);
    }
    for t in no {
        assert!(!is_int_text_exec(&t.chars().collect()), "{}", t);
    }
}
