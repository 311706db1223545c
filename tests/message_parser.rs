use tp2::action::Action;
use tp2::errors::Error;
use tp2::message_parser::{encode, MessageParser};
use tp2::payment_method::Method;

#[test]
#[should_panic]
fn panic_on_wrong_message() {
    let s: String = "invalid".to_string();
    MessageParser::parse(s).unwrap();
}

#[test]
fn can_parse_block() {
    let s: String = "block 123 0".to_string();
    MessageParser::parse(s).unwrap();
}

#[test]
#[should_panic]
fn panic_on_non_numeric_client_id() {
    let s: String = "block persona".to_string();
    MessageParser::parse(s).unwrap();
}

#[test]
fn can_parse_complete_cash() {
    let s: String = "complete 123 10 cash 0".to_string();
    MessageParser::parse(s).unwrap();
}

#[test]
#[should_panic]
fn panic_on_non_numeric_price() {
    let s: String = "complete 123 dolares cash 0".to_string();
    MessageParser::parse(s).unwrap();
}

#[test]
fn can_parse_complete_points() {
    let s: String = "complete 123 10 points 0".to_string();
    MessageParser::parse(s).unwrap();
}

#[test]
#[should_panic]
fn panic_on_invalid_method() {
    let s: String = "complete 123 10 credit 0".to_string();
    MessageParser::parse(s).unwrap();
}

#[test]
fn can_parse_fail() {
    let s: String = "fail 123 0".to_string();
    MessageParser::parse(s).unwrap();
}

#[test]
fn can_parse_already_blocked() {
    let s: String = "alreadyBlocked 123".to_string();
    MessageParser::parse(s).unwrap();
}

#[test]
fn parse_gives_the_fields() {
    assert_eq!(
        MessageParser::parse("complete 123 10 points 4".to_string()),
        Ok(Action::CompleteOrder(123, 10, Method::Points, 4))
    );
    assert_eq!(MessageParser::parse("block 7 0".to_string()), Ok(Action::Block(7, 0)));
    assert_eq!(MessageParser::parse("fail 8 2".to_string()), Ok(Action::FailOrder(8, 2)));
    assert_eq!(MessageParser::parse("notEnough 7".to_string()), Ok(Action::NotEnoughPoints(7)));
    assert_eq!(MessageParser::parse("SYNC 12".to_string()), Ok(Action::Sync(12)));
    assert_eq!(MessageParser::parse("ACK".to_string()), Ok(Action::Ack));
    assert_eq!(MessageParser::parse("TRY".to_string()), Ok(Action::Try));
    assert_eq!(MessageParser::parse("UP".to_string()), Ok(Action::Up));
    assert_eq!(MessageParser::parse("DOWN".to_string()), Ok(Action::Down));
    assert_eq!(MessageParser::parse("SYNCSTART".to_string()), Ok(Action::SyncStart));
    assert_eq!(MessageParser::parse("SYNCEND".to_string()), Ok(Action::SyncEnd));
}

#[test]
fn parse_reads_numbers_as_u32_from_str_does() {
    assert_eq!(MessageParser::parse("block +5 0".to_string()), Ok(Action::Block(5, 0)));
    assert_eq!(
        MessageParser::parse("block 4294967295 0".to_string()),
        Ok(Action::Block(4294967295, 0))
    );
    assert_eq!(
        MessageParser::parse("block 4294967296 0".to_string()),
        Err(Error::InvalidMessageFormat)
    );
    assert_eq!(MessageParser::parse("block -1 0".to_string()), Err(Error::InvalidMessageFormat));
    assert_eq!(MessageParser::parse("block + 0".to_string()), Err(Error::InvalidMessageFormat));
}

#[test]
fn parse_rejects_a_wrong_arity() {
    assert_eq!(MessageParser::parse("block 1".to_string()), Err(Error::InvalidMessageFormat));
    assert_eq!(MessageParser::parse("block 1 2 3".to_string()), Err(Error::InvalidMessageFormat));
    assert_eq!(MessageParser::parse("block  1 2".to_string()), Err(Error::InvalidMessageFormat));
    assert_eq!(MessageParser::parse("ACK ".to_string()), Err(Error::InvalidMessageFormat));
    assert_eq!(MessageParser::parse("".to_string()), Err(Error::InvalidMessageFormat));
    assert_eq!(MessageParser::parse("ack".to_string()), Err(Error::InvalidMessageFormat));
}

#[test]
fn encode_writes_the_wire_text() {
    assert_eq!(encode(&Action::Block(7, 0)), "block 7 0");
    assert_eq!(encode(&Action::CompleteOrder(7, 500, Method::Points, 0)), "complete 7 500 points 0");
    assert_eq!(encode(&Action::CompleteOrder(9, 100, Method::Cash, 1)), "complete 9 100 cash 1");
    assert_eq!(encode(&Action::FailOrder(3, 2)), "fail 3 2");
    assert_eq!(encode(&Action::NotEnoughPoints(7)), "notEnough 7");
    assert_eq!(encode(&Action::ClientAlreadyBlocked(7)), "alreadyBlocked 7");
    assert_eq!(encode(&Action::Sync(40)), "SYNC 40");
    assert_eq!(encode(&Action::Ack), "ACK");
    assert_eq!(encode(&Action::SyncPart("fail 1 1".to_string())), "fail 1 1");
}

#[test]
fn decode_of_encode_is_the_action() {
    let actions = vec![
        Action::Block(0, 0),
        Action::Block(4294967295, 12),
        Action::CompleteOrder(1, 2, Method::Cash, 3),
        Action::CompleteOrder(10, 200, Method::Points, 30),
        Action::FailOrder(99, 1),
        Action::ClientAlreadyBlocked(5),
        Action::NotEnoughPoints(6),
        Action::Ack,
        Action::Try,
        Action::Up,
        Action::Down,
        Action::Sync(0),
        Action::SyncStart,
        Action::SyncEnd,
    ];
    for a in actions {
        assert_eq!(MessageParser::parse(encode(&a)), Ok(a));
    }
}
