use scaproust_core::codec::{decode, encode};
use scaproust_core::message::Message;

#[test]
fn decode_appends_big_endian_stamp() {
    let raw = Message::with_header_and_body(vec![9], vec![65, 66, 67]);
    let msg = decode(raw, 0x0102_0304);
    assert_eq!(vec![9, 1, 2, 3, 4], *msg.get_header());
    assert_eq!(vec![65, 66, 67], *msg.get_body());
}

#[test]
fn decode_keeps_low_32_bits_of_token() {
    let raw = Message::from_body(vec![1]);
    let msg = decode(raw, 7);
    assert_eq!(vec![0, 0, 0, 7], *msg.get_header());
}

#[test]
fn encode_short_header_has_no_origin() {
    let msg = Message::with_header_and_body(vec![1, 2, 3], vec![4]);
    let (raw, origin) = encode(msg);
    assert_eq!(None, origin);
    assert_eq!(vec![1, 2, 3], *raw.get_header());
    assert_eq!(vec![4], *raw.get_body());
}

#[test]
fn encode_strips_leading_origin() {
    let msg = Message::with_header_and_body(vec![0, 0, 1, 2, 77], vec![5, 6]);
    let (raw, origin) = encode(msg);
    assert_eq!(Some(258), origin);
    assert_eq!(vec![77], *raw.get_header());
    assert_eq!(vec![5, 6], *raw.get_body());
}

#[test]
fn stamp_round_trip_on_empty_header() {
    let raw = Message::from_body(vec![10, 20]);
    let stamped = decode(raw, 42);
    let (back, origin) = encode(stamped);
    assert_eq!(Some(42), origin);
    assert_eq!(Message::from_body(vec![10, 20]), back);
}

#[test]
fn message_explode_and_duplicate() {
    let msg = Message::with_header_and_body(vec![1], vec![2, 3]);
    assert_eq!(3, msg.len());
    let copy = msg.duplicate();
    let (h, b) = msg.explode();
    assert_eq!(vec![1], h);
    assert_eq!(vec![2, 3], b);
    assert_eq!(vec![1], *copy.get_header());
}

#[test]
fn decode_truncates_wide_token_to_32_bits() {
    let msg = decode(Message::from_body(vec![]), 0x1_0000_0005);
    assert_eq!(vec![0, 0, 0, 5], *msg.get_header());
}
