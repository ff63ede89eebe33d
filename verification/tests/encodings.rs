use pool::bytes::{be_bytes, put_le, reversed};
use pool::hexadecimal::{decode, encode, parse_u32};
use pool::messages::{framed, read_open_channel};

#[test]
fn integers_have_their_bytes() {
    let mut buf = vec![9];
    put_le(&mut buf, 0x0102_0304_0506_0708, 8);
    assert_eq!(buf, vec![9, 8, 7, 6, 5, 4, 3, 2, 1]);
    put_le(&mut buf, 0x1234, 1);
    assert_eq!(buf[9..], [0x34]);
    assert_eq!(be_bytes(0x1234, 4), vec![0, 0, 0x12, 0x34]);
    assert_eq!(reversed(&vec![1, 2, 3]), vec![3, 2, 1]);
}

#[test]
fn hexadecimal_text_is_read_and_written() {
    assert_eq!(encode(&[0x00, 0x0f, 0xa5, 0xff]), "000fa5ff");
    assert_eq!(decode("000FA5ff"), Some(vec![0x00, 0x0f, 0xa5, 0xff]));
    assert_eq!(decode(""), Some(vec![]));
    assert_eq!(decode("0"), None);
    assert_eq!(decode("0g"), None);
    assert_eq!(decode("é"), None);
    let all: Vec<u8> = (0..=255).collect();
    assert_eq!(decode(&encode(&all)), Some(all));
}

#[test]
fn base_sixteen_numbers_are_read_as_std_reads_them() {
    for text in [
        "", "+", "-", "0", "207fffff", "FFFFFFFF", "ffffffff", "100000000", "+1f", "-1", "++1",
        "1 ", " 1", "0x1", "g", "00000000000000001", "99999999999999999999999999999999", "1_0", "é",
    ] {
        assert_eq!(parse_u32(text), u32::from_str_radix(text, 16).ok(), "{text}");
    }
}

#[test]
fn frames_carry_type_channel_bit_and_length() {
    assert_eq!(framed(0x20, true, &vec![7; 3]), vec![0x00, 0x80, 0x20, 3, 0, 0, 7, 7, 7]);
    let long = framed(1, false, &vec![0; 0x01_0203]);
    assert_eq!(long[..6], [0, 0, 1, 3, 2, 1]);
}

#[test]
fn open_requests_are_read_from_the_front() {
    let mut payload = vec![1, 0, 0, 0, 2, b'h', b'i'];
    payload.extend_from_slice(&[0; 38]);
    let request = read_open_channel(&payload).unwrap();
    assert_eq!((request.request_id, request.user_identity), (1, b"hi".to_vec()));
    payload.push(1);
    assert!(read_open_channel(&payload).is_some());
    payload.truncate(44);
    assert!(read_open_channel(&payload).is_none());
}
