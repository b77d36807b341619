use hatchling::definitions::{Operation, Symbol, Token};
use hatchling::tokenizer::tokenizer;

fn float_value(t: &Token) -> f64 {
    match t {
        Token::NumericLiteral(digits) => digits.parse::<f64>().unwrap(),
        _ => panic!("expected a numeric literal"),
    }
}

fn num(digits: &str) -> Token {
    Token::NumericLiteral(String::from(digits))
}

fn text(s: &str) -> Token {
    Token::StringLiteral(String::from(s))
}

#[test]
fn simple_numberic_regex() {
    let program = String::from("42");

    let result = tokenizer(&program);
    assert_eq!(result.len(), 1);
    match &result[0] {
        Token::NumericLiteral(digits) => {
            assert_eq!(&digits[0..1], "4");
            assert_eq!(digits.len(), 2);
            assert_eq!(digits, "42");
        }
        _ => panic!("expected a numeric literal"),
    }
    assert_eq!(float_value(&result[0]), 42.0);
}

#[test]
fn simple_numberic_literal() {
    let program = String::from("42");

    let result = tokenizer(&program);
    assert_eq!(result, vec![num("42")]);
    assert_eq!(float_value(&result[0]), 42.0);
}

#[test]
fn simple_numberic_literal_with_whitespace() {
    let program = String::from("   42  ");

    let result = tokenizer(&program);
    assert_eq!(result, vec![num("42")]);
    assert_eq!(float_value(&result[0]), 42.0);
}

#[test]
fn simple_string_regex() {
    let program = String::from(r#""This is it""#);

    let result = tokenizer(&program);
    assert_eq!(result.len(), 1);
    match &result[0] {
        Token::StringLiteral(payload) => {
            assert_eq!(payload.len(), 12);
            assert_eq!(payload, r#""This is it""#);
        }
        _ => panic!("expected a string literal"),
    }
}

#[test]
fn simple_string_literal() {
    let program = String::from(r#""Hello World""#);

    let result = tokenizer(&program);
    assert_eq!(result, vec![text(r#""Hello World""#)]);
}

#[test]
fn simple_string_literal_with_whitespace() {
    let program = String::from(r#"     "   42  "    "#);

    let result = tokenizer(&program);
    assert_eq!(result, vec![text(r#""   42  ""#)]);
}

#[test]
fn simple_numeric_plus_string_literal() {
    let program = String::from(r#"9080"Hello Sally"321"#);

    let result = tokenizer(&program);
    assert_eq!(result, vec![num("9080"), text(r#""Hello Sally""#), num("321")]);
    assert_eq!(float_value(&result[0]), 9080.0);
    assert_eq!(float_value(&result[2]), 321.0);
}

#[test]
fn simple_numeric_plus_string_literal_with_whitespace() {
    let program = String::from(r#" 9781 " Howdy Y'all  "    124  "#);

    let result = tokenizer(&program);
    assert_eq!(result, vec![num("9781"), text(r#"" Howdy Y'all  ""#), num("124")]);
    assert_eq!(float_value(&result[0]), 9781.0);
    assert_eq!(float_value(&result[2]), 124.0);
}

#[test]
fn simple_comment() {
    let program = String::from(r#"//     "  lorem   "    "#);

    let result = tokenizer(&program);
    assert_eq!(result, vec![]);
}

#[test]
fn simple_string_literal_with_comment() {
    let program = String::from(r#""     This is a string"    // TODO: lorem      "#);

    let result = tokenizer(&program);
    assert_eq!(result, vec![text(r#""     This is a string""#)]);
}

#[test]
fn simple_numberic_literal_with_comment() {
    let program = String::from(r#"     7489327    // TODO: write more test      "#);

    let result = tokenizer(&program);
    assert_eq!(result, vec![num("7489327")]);
    assert_eq!(float_value(&result[0]), 7489327.0);
}

#[test]
fn multi_numberic_string_literal_with_single_comment() {
    let program = String::from(
        r#"     7489327
            // TODO: write more test
            //
            //
             " Another string literal" "#,
    );

    let result = tokenizer(&program);
    assert_eq!(result, vec![num("7489327"), text(r#"" Another string literal""#)]);
    assert_eq!(float_value(&result[0]), 7489327.0);
}

#[test]
fn multi_numberic_string_literal_with_multi_comment() {
    let program = String::from(
        r#" " Tyler was here "
            /* TODO: write more test
            *   Also make sure to add multi-line doc comments
            *
            */
            "president " 45 "#,
    );

    let result = tokenizer(&program);
    assert_eq!(result, vec![text(r#"" Tyler was here ""#), text(r#""president ""#), num("45")]);
    assert_eq!(float_value(&result[2]), 45.0);
}

#[test]
fn symbol_parens_l() {
    let program = String::from(r#"("#);

    let result = tokenizer(&program);
    assert_eq!(result, vec![Token::Symbol(Symbol::ParensL)]);
}

#[test]
fn symbol_parens_r() {
    let program = String::from(r#")"#);

    let result = tokenizer(&program);
    assert_eq!(result, vec![Token::Symbol(Symbol::ParensR)]);
}

#[test]
fn symbol_semicolon() {
    let program = String::from(r#";"#);

    let result = tokenizer(&program);
    assert_eq!(result, vec![Token::Symbol(Symbol::SemiColon)]);
}

#[test]
fn operator_modulus() {
    let program = String::from(r#"%"#);

    let result = tokenizer(&program);
    assert_eq!(result, vec![Token::Operator(Operation::Modulus)]);
}

#[test]
fn operator_divide() {
    let program = String::from(r#"/"#);

    let result = tokenizer(&program);
    assert_eq!(result, vec![Token::Operator(Operation::Divide)]);
}

#[test]
fn operator_multiply() {
    let program = String::from(r#"*"#);

    let result = tokenizer(&program);
    assert_eq!(result, vec![Token::Operator(Operation::Multiply)]);
}

#[test]
fn operator_minus() {
    let program = String::from(r#"-"#);

    let result = tokenizer(&program);
    assert_eq!(result, vec![Token::Operator(Operation::Minus)]);
}

#[test]
fn operator_plus() {
    let program = String::from(r#"+"#);

    let result = tokenizer(&program);
    assert_eq!(result, vec![Token::Operator(Operation::Plus)]);
}
