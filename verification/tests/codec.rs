use redis_conn::reply::{classify_reply, same_bytes, starts_with, ReplyClass};
use redis_conn::decimal::push_decimal;
use redis_conn::resp::{
    encode_auth, encode_ping, encode_set_name, push_array_header, push_bulk, RedisCmd,
};

fn decimal_of(n: u128) -> Vec<u8> {
    let mut out = Vec::new();
    push_decimal(&mut out, n);
    out
}

#[test]
fn decimal_of_zero_is_one_digit() {
    assert_eq!(decimal_of(0), b"0".to_vec());
}

#[test]
fn decimal_of_single_digits() {
    assert_eq!(decimal_of(7), b"7".to_vec());
    assert_eq!(decimal_of(9), b"9".to_vec());
}

#[test]
fn decimal_of_round_numbers_keeps_zeros() {
    assert_eq!(decimal_of(10), b"10".to_vec());
    assert_eq!(decimal_of(100), b"100".to_vec());
    assert_eq!(decimal_of(9000), b"9000".to_vec());
}

#[test]
fn decimal_of_many_digits() {
    assert_eq!(decimal_of(1234567890), b"1234567890".to_vec());
    assert_eq!(
        decimal_of(u128::MAX),
        b"340282366920938463463374607431768211455".to_vec()
    );
}

#[test]
fn decimal_appends_to_what_is_there() {
    let mut out = b"n=".to_vec();
    push_decimal(&mut out, 42);
    assert_eq!(out, b"n=42".to_vec());
}

#[test]
fn array_header_has_star_count_and_line_end() {
    let mut out = Vec::new();
    push_array_header(&mut out, 3);
    assert_eq!(out, b"*3\r\n".to_vec());
    let mut out = Vec::new();
    push_array_header(&mut out, 12);
    assert_eq!(out, b"*12\r\n".to_vec());
}

#[test]
fn bulk_has_length_then_payload() {
    let mut out = Vec::new();
    push_bulk(&mut out, b"auth");
    assert_eq!(out, b"$4\r\nauth\r\n".to_vec());
}

#[test]
fn bulk_of_nothing_has_length_zero() {
    let mut out = Vec::new();
    push_bulk(&mut out, b"");
    assert_eq!(out, b"$0\r\n\r\n".to_vec());
}

#[test]
fn bulk_is_binary_safe() {
    let mut out = Vec::new();
    push_bulk(&mut out, b"a\r\nb\0c");
    assert_eq!(out, b"$6\r\na\r\nb\0c\r\n".to_vec());
}

#[test]
fn auth_command_carries_the_password() {
    assert_eq!(
        encode_auth("secret"),
        b"*2\r\n$4\r\nauth\r\n$6\r\nsecret\r\n".to_vec()
    );
}

#[test]
fn auth_command_counts_bytes_not_characters() {
    assert_eq!(
        encode_auth("p\u{e4}ss"),
        b"*2\r\n$4\r\nauth\r\n$5\r\np\xc3\xa4ss\r\n".to_vec()
    );
}

#[test]
fn auth_command_with_empty_password() {
    assert_eq!(encode_auth(""), b"*2\r\n$4\r\nauth\r\n$0\r\n\r\n".to_vec());
}

#[test]
fn auth_command_with_long_password_has_two_digit_length() {
    assert_eq!(
        encode_auth("0123456789ab"),
        b"*2\r\n$4\r\nauth\r\n$12\r\n0123456789ab\r\n".to_vec()
    );
}

#[test]
fn ping_is_an_inline_command() {
    assert_eq!(encode_ping(), b"PING\r\n".to_vec());
}

#[test]
fn set_name_command_is_fixed() {
    assert_eq!(
        encode_set_name(),
        b"*3\r\n$6\r\nCLIENT\r\n$7\r\nSETNAME\r\n$8\r\nflodgatt\r\n".to_vec()
    );
}

#[test]
fn subscribe_to_one_channel() {
    let names = vec!["timeline:public".to_string()];
    let (primary, secondary) = RedisCmd::Subscribe.into_sendable(&names);
    assert_eq!(
        primary,
        b"*2\r\n$9\r\nsubscribe\r\n$15\r\ntimeline:public\r\n".to_vec()
    );
    assert_eq!(
        secondary,
        b"*3\r\n$4\r\nMSET\r\n$26\r\nsubscribed:timeline:public\r\n$1\r\n1\r\n".to_vec()
    );
}

#[test]
fn unsubscribe_from_one_channel() {
    let names = vec!["timeline:public".to_string()];
    let (primary, secondary) = RedisCmd::Unsubscribe.into_sendable(&names);
    assert_eq!(
        primary,
        b"*2\r\n$11\r\nunsubscribe\r\n$15\r\ntimeline:public\r\n".to_vec()
    );
    assert_eq!(
        secondary,
        b"*3\r\n$4\r\nMSET\r\n$26\r\nsubscribed:timeline:public\r\n$1\r\n0\r\n".to_vec()
    );
}

#[test]
fn subscribe_to_several_channels() {
    let names = vec!["timeline:1".to_string(), "timeline:list:22".to_string()];
    let (primary, secondary) = RedisCmd::Subscribe.into_sendable(&names);
    assert_eq!(
        primary,
        b"*3\r\n$9\r\nsubscribe\r\n$10\r\ntimeline:1\r\n$16\r\ntimeline:list:22\r\n".to_vec()
    );
    assert_eq!(
        secondary,
        b"*5\r\n$4\r\nMSET\r\n$21\r\nsubscribed:timeline:1\r\n$1\r\n1\r\n$27\r\nsubscribed:timeline:list:22\r\n$1\r\n1\r\n"
            .to_vec()
    );
}

#[test]
fn command_over_no_channels_has_the_verb_alone() {
    let names: Vec<String> = Vec::new();
    let (primary, secondary) = RedisCmd::Unsubscribe.into_sendable(&names);
    assert_eq!(primary, b"*1\r\n$11\r\nunsubscribe\r\n".to_vec());
    assert_eq!(secondary, b"*1\r\n$4\r\nMSET\r\n".to_vec());
}

#[test]
fn command_over_ten_channels_has_two_digit_counts() {
    let names: Vec<String> = (0..10).map(|i| format!("c{}", i)).collect();
    let (primary, secondary) = RedisCmd::Subscribe.into_sendable(&names);
    assert!(primary.starts_with(b"*11\r\n$9\r\nsubscribe\r\n$2\r\nc0\r\n"));
    assert!(primary.ends_with(b"$2\r\nc9\r\n"));
    assert!(secondary.starts_with(b"*21\r\n$4\r\nMSET\r\n$13\r\nsubscribed:c0\r\n$1\r\n1\r\n"));
    assert!(secondary.ends_with(b"$13\r\nsubscribed:c9\r\n$1\r\n1\r\n"));
}

#[test]
fn starts_with_compares_the_leading_bytes() {
    assert!(starts_with(b"+PONG\r\n\0\0", b"+PONG\r\n"));
    assert!(starts_with(b"abc", b""));
    assert!(starts_with(b"abc", b"abc"));
    assert!(!starts_with(b"ab", b"abc"));
    assert!(!starts_with(b"abd", b"abc"));
    assert!(!starts_with(b"", b"a"));
}

#[test]
fn same_bytes_wants_equal_length_and_content() {
    assert!(same_bytes(b"+OK\r\n", b"+OK\r\n"));
    assert!(same_bytes(b"", b""));
    assert!(!same_bytes(b"+OK\r\n\0", b"+OK\r\n"));
    assert!(!same_bytes(b"+OK\r", b"+OK\r\n"));
    assert!(!same_bytes(b"-OK\r\n", b"+OK\r\n"));
}

#[test]
fn reply_with_the_expected_token_is_expected() {
    assert_eq!(
        classify_reply(b"+PONG\r\n", b"+PONG\r\n"),
        ReplyClass::Expected
    );
    assert_eq!(
        classify_reply(b"+OK\r\nmore", b"+OK\r\n"),
        ReplyClass::Expected
    );
}

#[test]
fn reply_noauth_asks_for_a_password() {
    assert_eq!(
        classify_reply(b"-NOAUTH Authentication required.\r\n", b"+PONG\r\n"),
        ReplyClass::AuthRequired
    );
}

#[test]
fn reply_http_is_another_protocol() {
    assert_eq!(
        classify_reply(b"HTTP/1.1 400 Bad Request\r\n", b"+PONG\r\n"),
        ReplyClass::NotThisProtocol
    );
    assert_eq!(
        classify_reply(b"HTTP/1.0 200 OK\r\n", b"+OK\r\n"),
        ReplyClass::NotThisProtocol
    );
    assert_eq!(
        classify_reply(b"HTTP/1.", b"+PONG\r\n"),
        ReplyClass::NotThisProtocol
    );
}

#[test]
fn reply_of_anything_else_is_unrecognized() {
    assert_eq!(
        classify_reply(b"-ERR unknown command\r\n", b"+PONG\r\n"),
        ReplyClass::Unrecognized
    );
    assert_eq!(classify_reply(b"", b"+PONG\r\n"), ReplyClass::Unrecognized);
    assert_eq!(
        classify_reply(b"HTTP/2 200\r\n", b"+PONG\r\n"),
        ReplyClass::Unrecognized
    );
    assert_eq!(
        classify_reply(b"+PON", b"+PONG\r\n"),
        ReplyClass::Unrecognized
    );
    assert_eq!(
        classify_reply(b"+OK\r\n", b"+PONG\r\n"),
        ReplyClass::Unrecognized
    );
}
