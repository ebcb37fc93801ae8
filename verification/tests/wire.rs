use grpc_probe::wire::{frame_message, list_services_frame, parse_varint};

#[test]
fn varint_of_one_byte() {
    assert_eq!(parse_varint(&[0x00]), Some((0, 1)));
    assert_eq!(parse_varint(&[0x7f, 0xff]), Some((127, 1)));
}

#[test]
fn varint_of_several_bytes() {
    assert_eq!(parse_varint(&[0xac, 0x02]), Some((300, 2)));
    assert_eq!(parse_varint(&[0x80, 0x80, 0x01, 0x55]), Some((16384, 3)));
}

#[test]
fn varint_without_an_end() {
    assert_eq!(parse_varint(&[]), None);
    assert_eq!(parse_varint(&[0x80]), None);
    assert_eq!(parse_varint(&[0xff, 0xff, 0xff]), None);
}

#[test]
fn varint_of_ten_bytes() {
    let largest = [0xff, 0xff, 0xff, 0xff, 0xff, 0xff, 0xff, 0xff, 0xff, 0x01];
    assert_eq!(parse_varint(&largest), Some((u64::MAX, 10)));
    let top_bit = [0x80, 0x80, 0x80, 0x80, 0x80, 0x80, 0x80, 0x80, 0x80, 0x01];
    assert_eq!(parse_varint(&top_bit), Some((1 << 63, 10)));
}

#[test]
fn varint_drops_bits_beyond_the_64th() {
    let bytes = [0x81, 0x80, 0x80, 0x80, 0x80, 0x80, 0x80, 0x80, 0x80, 0x7e];
    assert_eq!(parse_varint(&bytes), Some((1, 10)));
}

#[test]
fn varint_of_eleven_bytes_is_refused() {
    let bytes = [0x80, 0x80, 0x80, 0x80, 0x80, 0x80, 0x80, 0x80, 0x80, 0x80, 0x00];
    assert_eq!(parse_varint(&bytes), None);
}

#[test]
fn varint_may_be_padded() {
    assert_eq!(parse_varint(&[0x85, 0x80, 0x00]), Some((5, 3)));
}

#[test]
fn frame_gives_its_message() {
    assert_eq!(frame_message(&[0, 0, 0, 0, 2, 7, 8, 9]), Some(&[7u8, 8][..]));
}

#[test]
fn frame_length_is_big_endian() {
    let mut data = vec![0, 0, 0, 1, 2];
    data.extend_from_slice(&[5; 258]);
    assert_eq!(frame_message(&data).map(|m| m.len()), Some(258));
    data.pop();
    assert_eq!(frame_message(&data), None);
}

#[test]
fn frame_that_is_short_compressed_or_empty() {
    assert_eq!(frame_message(&[0, 0, 0, 0]), None);
    assert_eq!(frame_message(&[1, 0, 0, 0, 1, 7]), None);
    assert_eq!(frame_message(&[0, 0, 0, 0, 0, 7]), None);
    assert_eq!(frame_message(&[0, 0xff, 0xff, 0xff, 0xff, 7]), None);
}

#[test]
fn request_frame_is_well_formed() {
    let frame = list_services_frame();
    assert_eq!(frame, vec![0x00, 0x00, 0x00, 0x00, 0x02, 0x22, 0x00]);
    assert_eq!(frame_message(&frame), Some(&[0x22u8, 0x00][..]));
}

#[test]
fn varint_is_decided_by_its_first_bytes() {
    assert_eq!(parse_varint(&[0xac, 0x02]), Some((300, 2)));
    assert_eq!(parse_varint(&[0xac, 0x02, 0xff, 0x01]), Some((300, 2)));
    let mut long = vec![0x80; 10];
    assert_eq!(parse_varint(&long), None);
    long.push(0x00);
    assert_eq!(parse_varint(&long), None);
}
