use hatchling::definitions::{Character, Location, Message, Response, Token};
use hatchling::mock::{mock_count, mock_records};
use hatchling::parser::parser;

#[test]
fn simple_number() {
    let program = String::from("42");

    let result = parser(&program);
    assert_eq!(result, Token::NumericLiteral(String::from("42")));
    match &result {
        Token::NumericLiteral(digits) => assert_eq!(digits.parse::<f64>().unwrap(), 42.0),
        _ => panic!("expected a numeric literal"),
    }
}

#[test]
fn character_id_is_hyphenated_uuid_length() {
    let c = Character::new(
        String::from("hair"),
        String::from("eye"),
        String::from("skin"),
        String::from("outfit"),
    );
    assert_eq!(c.get_id().len(), 36);
}

#[test]
fn character_ids_are_distinct() {
    let a = Character::new(
        String::from("hair"),
        String::from("eye"),
        String::from("skin"),
        String::from("outfit"),
    );
    let b = Character::new(
        String::from("hair"),
        String::from("eye"),
        String::from("skin"),
        String::from("outfit"),
    );
    assert_ne!(a.get_id(), b.get_id());
}

#[test]
fn get_id_hands_out_copies() {
    let c = Character::new(
        String::from("h"),
        String::from("e"),
        String::from("s"),
        String::from("o"),
    );
    assert_eq!(c.get_id(), c.get_id());
}

#[test]
fn mock_count_stays_under_ten() {
    for _ in 0..100 {
        assert!(mock_count() < 10);
    }
}

#[test]
fn mock_records_builds_a_bundle() {
    let bundle = mock_records(3);
    let _unused: Response = bundle;
}

#[test]
fn records_are_constructible() {
    let c = Character::new(
        String::from("hair"),
        String::from("eye"),
        String::from("skin"),
        String::from("outfit"),
    );
    let id = c.get_id();
    let m = Message::new(String::from("message"), id.clone(), 0);
    let l = Location::new(1, 1, id, 1);
    let _bundle = Response::new(vec![c], vec![m], vec![l]);
}
