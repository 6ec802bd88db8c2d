use steam_protobuf_dumper::wire::{consume_one_message, read_varint, skip_field};

#[test]
fn varint_single_byte() {
    assert_eq!(read_varint(&[0x08], 0), Some((8, 1)));
}

#[test]
fn varint_two_bytes() {
    assert_eq!(read_varint(&[0x00, 0x96, 0x01], 1), Some((150, 3)));
}

#[test]
fn varint_truncated() {
    assert_eq!(read_varint(&[0x80, 0x80], 0), None);
    assert_eq!(read_varint(&[0x01], 1), None);
}

#[test]
fn varint_longest() {
    let mut data = vec![0xFFu8; 9];
    data.push(0x01);
    assert_eq!(read_varint(&data, 0), Some((u64::MAX, 10)));
}

#[test]
fn varint_too_long() {
    let data = vec![0x80u8; 11];
    assert_eq!(read_varint(&data, 0), None);
}

#[test]
fn skip_each_wire_type() {
    let data = [0u8; 16];
    assert_eq!(skip_field(&[0x96, 0x01], 0, 0), Some(2));
    assert_eq!(skip_field(&data, 2, 1), Some(10));
    assert_eq!(skip_field(&data, 10, 1), None);
    assert_eq!(skip_field(&[0x03, 1, 2, 3], 0, 2), Some(4));
    assert_eq!(skip_field(&[0x04, 1, 2, 3], 0, 2), None);
    assert_eq!(skip_field(&data, 5, 4), Some(5));
    assert_eq!(skip_field(&data, 12, 5), Some(16));
    assert_eq!(skip_field(&data, 13, 5), None);
    assert_eq!(skip_field(&data, 0, 6), None);
    assert_eq!(skip_field(&data, 0, 7), None);
}

#[test]
fn skip_group() {
    // a varint field (tag 0x08, value 5), then the end-group tag (0x0C)
    assert_eq!(skip_field(&[0x08, 0x05, 0x0C, 0xFF], 0, 3), Some(3));
    // the group never ends
    assert_eq!(skip_field(&[0x08, 0x05], 0, 3), None);
}

#[test]
fn message_ends_at_second_name() {
    let data = [0x0A, 0x01, b'a', 0x12, 0x00, 0x0A, 0x01, b'b'];
    assert_eq!(consume_one_message(&data), Some(5));
}

#[test]
fn message_runs_to_end_of_data() {
    let data = [0x0A, 0x01, b'a', 0x12, 0x00];
    assert_eq!(consume_one_message(&data), Some(5));
}

#[test]
fn message_ends_at_zero_tag() {
    let data = [0x0A, 0x01, b'a', 0x00, 0x0A];
    assert_eq!(consume_one_message(&data), Some(3));
}

#[test]
fn message_ends_at_truncated_field() {
    let data = [0x0A, 0x01, b'a', 0x12, 0x05, 0x01];
    assert_eq!(consume_one_message(&data), Some(3));
}

#[test]
fn message_of_nothing() {
    assert_eq!(consume_one_message(&[]), Some(0));
    assert_eq!(consume_one_message(&[0x00]), Some(0));
}
