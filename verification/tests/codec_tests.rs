use mc_sentinel::codec::{
    read_frame, read_string, read_string16, read_u16, read_u32, read_varint, write_frame,
    write_string, write_string16, write_u16, write_varint,
};
use mc_sentinel::ProtocolError;

#[test]
fn varint_round_trip_values() {
    for v in [0u32, 1, 127, 128, 300, 758, 25565, 0x7FFF_FFFF, u32::MAX] {
        let mut buf: Vec<u8> = Vec::new();
        write_varint(&mut buf, v);
        let (back, consumed) = read_varint(&buf, 0).expect("round trip must decode");
        assert_eq!(back, v);
        assert_eq!(consumed, buf.len());
    }
}

#[test]
fn varint_known_encodings() {
    let mut buf: Vec<u8> = Vec::new();
    write_varint(&mut buf, 0);
    assert_eq!(buf, vec![0x00]);
    let mut buf: Vec<u8> = Vec::new();
    write_varint(&mut buf, 300);
    assert_eq!(buf, vec![0xAC, 0x02]);
    let mut buf: Vec<u8> = Vec::new();
    write_varint(&mut buf, 758);
    assert_eq!(buf, vec![0xF6, 0x05]);
}

#[test]
fn varint_trailing_bytes_untouched() {
    let mut buf: Vec<u8> = Vec::new();
    write_varint(&mut buf, 300);
    let header = buf.len();
    buf.extend([0xAA, 0xBB]);
    let (back, consumed) = read_varint(&buf, 0).unwrap();
    assert_eq!(back, 300);
    assert_eq!(consumed, header);
    assert_eq!(&buf[consumed..], &[0xAA, 0xBB]);
}

#[test]
fn varint_malformed_when_too_wide() {
    let buf = vec![0x80, 0x80, 0x80, 0x80, 0x80, 0x01];
    assert_eq!(read_varint(&buf, 0), Err(ProtocolError::MalformedVarint));
}

#[test]
fn varint_malformed_when_out_of_32_bit_range() {
    // Five data bytes carrying 2^35 - 1.
    let buf = vec![0xFF, 0xFF, 0xFF, 0xFF, 0x7F];
    assert_eq!(read_varint(&buf, 0), Err(ProtocolError::MalformedVarint));
}

#[test]
fn varint_truncated_when_input_ends_mid_value() {
    let buf = vec![0x80, 0x80];
    assert_eq!(read_varint(&buf, 0), Err(ProtocolError::TruncatedInput));
}

#[test]
fn string_round_trip_utf8() {
    for s in ["", "localhost", "h\u{e9}llo \u{2713}", "\u{1D11E} clef"] {
        let mut buf: Vec<u8> = Vec::new();
        assert!(write_string(&mut buf, s));
        let (back, consumed) = read_string(&buf, 0).expect("round trip must decode");
        assert_eq!(back, s);
        assert_eq!(consumed, buf.len());
    }
}

#[test]
fn string_invalid_utf8_rejected() {
    let buf = vec![0x02, 0xFF, 0xFE];
    assert_eq!(
        read_string(&buf, 0).map(|(s, n)| (s, n)),
        Err(ProtocolError::InvalidEncoding)
    );
}

#[test]
fn string_truncated_when_shorter_than_declared() {
    let buf = vec![0x05, b'a'];
    assert_eq!(
        read_string(&buf, 0).map(|(s, n)| (s, n)),
        Err(ProtocolError::TruncatedInput)
    );
}

#[test]
fn string16_round_trip() {
    for s in ["", "abc", "You triggered a server start!", "\u{1D11E}"] {
        let mut buf: Vec<u8> = Vec::new();
        assert!(write_string16(&mut buf, s));
        let (units, consumed) = read_string16(&buf, 0).expect("round trip must decode");
        let expected: Vec<u16> = s.encode_utf16().collect();
        assert_eq!(units, expected);
        assert_eq!(consumed, buf.len());
    }
}

#[test]
fn string16_known_layout() {
    let mut buf: Vec<u8> = Vec::new();
    assert!(write_string16(&mut buf, "abc"));
    assert_eq!(buf, vec![0x00, 0x03, 0x00, 0x61, 0x00, 0x62, 0x00, 0x63]);
}

#[test]
fn u16_and_u32_big_endian() {
    let mut buf: Vec<u8> = Vec::new();
    write_u16(&mut buf, 25565);
    assert_eq!(buf, vec![0x63, 0xDD]);
    let (v, n) = read_u16(&buf, 0).unwrap();
    assert_eq!((v, n), (25565, 2));

    let buf = vec![0x00, 0x00, 0x02, 0xF6, 0x99];
    let (v, n) = read_u32(&buf, 0).unwrap();
    assert_eq!((v, n), (758, 4));
}

#[test]
fn frame_round_trip_and_boundary() {
    let payload = vec![1u8, 2, 3, 4, 5];
    let mut buf: Vec<u8> = Vec::new();
    assert!(write_frame(&mut buf, 0, &payload));
    let frame_len = buf.len();
    // The declared length covers the id varint and the payload.
    assert_eq!(buf[0] as usize, frame_len - 1);
    buf.extend([0xEE, 0xFF]);
    let (id, back, consumed) = read_frame(&buf, 0).expect("complete frame must decode");
    assert_eq!(id, 0);
    assert_eq!(back, payload);
    assert_eq!(consumed, frame_len);
    assert_eq!(&buf[consumed..], &[0xEE, 0xFF]);
}

#[test]
fn frame_truncated_when_declared_length_exceeds_input() {
    // Declared length 10, only 3 bytes of body present.
    let buf = vec![0x0A, 0x00, 0x01, 0x02];
    match read_frame(&buf, 0) {
        Err(ProtocolError::TruncatedInput) => {}
        other => panic!("expected TruncatedInput, got {:?}", other.map(|_| ())),
    }
}

#[test]
fn frame_with_nonzero_id() {
    let payload = vec![9u8];
    let mut buf: Vec<u8> = Vec::new();
    assert!(write_frame(&mut buf, 7, &payload));
    let (id, back, _) = read_frame(&buf, 0).unwrap();
    assert_eq!(id, 7);
    assert_eq!(back, payload);
}
