use hatchling::definitions::{Operation, Symbol, Token};
use hatchling::tokenizer::tokenizer;

fn num(digits: &str) -> Token {
    Token::NumericLiteral(String::from(digits))
}

fn text(s: &str) -> Token {
    Token::StringLiteral(String::from(s))
}

#[test]
fn empty_buffer_scans_to_nothing() {
    assert_eq!(tokenizer(""), vec![]);
}

#[test]
fn whitespace_only_scans_to_nothing() {
    assert_eq!(tokenizer(" \t\r\n  "), vec![]);
}

#[test]
fn formatting_insertion_keeps_tokens() {
    let plain = tokenizer("1 +2;");
    let padded = tokenizer("1 \t  + /* noise\n more noise */ 2 // trailing\n;");
    assert_eq!(plain, padded);
    assert_eq!(
        plain,
        vec![
            num("1"),
            Token::Operator(Operation::Plus),
            num("2"),
            Token::Symbol(Symbol::SemiColon),
        ]
    );
}

#[test]
fn concatenation_preserves_order() {
    let left = "1; ";
    let right = "\"two\" 3";
    let mut joined_tokens = tokenizer(left);
    joined_tokens.extend(tokenizer(right));
    assert_eq!(tokenizer(&format!("{}{}", left, right)), joined_tokens);
}

#[test]
fn digit_run_round_trip() {
    let result = tokenizer("0071");
    assert_eq!(result, vec![num("0071")]);
    match &result[0] {
        Token::NumericLiteral(digits) => assert_eq!(digits.parse::<f64>().unwrap(), 71.0),
        _ => panic!("expected a numeric literal"),
    }
}

#[test]
fn line_comment_elided() {
    assert_eq!(tokenizer("// anything"), vec![]);
}

#[test]
fn block_comment_elided_across_newlines() {
    assert_eq!(tokenizer("/* a\nb */"), vec![]);
}

#[test]
fn lone_slash_is_divide() {
    assert_eq!(tokenizer("/"), vec![Token::Operator(Operation::Divide)]);
}

#[test]
fn double_slash_is_no_token() {
    assert_eq!(tokenizer("//"), vec![]);
}

#[test]
fn closed_block_comment_is_no_token() {
    assert_eq!(tokenizer("/*x*/"), vec![]);
}

#[test]
fn mixed_punctuation() {
    assert_eq!(
        tokenizer("(;)"),
        vec![
            Token::Symbol(Symbol::ParensL),
            Token::Symbol(Symbol::SemiColon),
            Token::Symbol(Symbol::ParensR),
        ]
    );
}

#[test]
fn unterminated_string_yields_single_invalid() {
    assert_eq!(tokenizer("\"unterminated"), vec![Token::Symbol(Symbol::Invalid)]);
}

#[test]
fn unterminated_block_comment_yields_single_invalid() {
    assert_eq!(tokenizer("/* left open"), vec![Token::Symbol(Symbol::Invalid)]);
}

#[test]
fn unrecognized_character_yields_invalid_and_scan_goes_on() {
    assert_eq!(
        tokenizer("@ 5"),
        vec![Token::Symbol(Symbol::Invalid), num("5")]
    );
}

#[test]
fn multi_byte_character_yields_one_invalid() {
    assert_eq!(
        tokenizer("\u{e9}7"),
        vec![Token::Symbol(Symbol::Invalid), num("7")]
    );
}

#[test]
fn string_keeps_both_quotes() {
    assert_eq!(tokenizer("\"x\""), vec![text("\"x\"")]);
}

#[test]
fn adjacent_literals_need_no_separator() {
    assert_eq!(
        tokenizer("12\"a\"3"),
        vec![num("12"), text("\"a\""), num("3")]
    );
}
