use mc_sentinel::codec::{read_frame, read_string, write_frame, write_string, write_u16,
    write_varint};
use mc_sentinel::dispatch::{ConnectionOutcome, DispatchStep, Dispatcher};
use mc_sentinel::packets::HandshakePacket;
use mc_sentinel::sentinel::SentinelState;

fn handshake_frame(proto: u32, addr: &str, port: u16, next_state: u32) -> Vec<u8> {
    let mut payload: Vec<u8> = Vec::new();
    write_varint(&mut payload, proto);
    assert!(write_string(&mut payload, addr));
    write_u16(&mut payload, port);
    write_varint(&mut payload, next_state);
    let mut frame: Vec<u8> = Vec::new();
    assert!(write_frame(&mut frame, 0, &payload));
    frame
}

#[test]
fn handshake_payload_decodes_in_declared_order() {
    let frame = handshake_frame(758, "localhost", 25565, 1);
    let (id, payload, _) = read_frame(&frame, 0).unwrap();
    assert_eq!(id, 0);
    let packet = HandshakePacket::read_from_buffer(&payload).unwrap();
    assert_eq!(packet.protocol_version, 758);
    assert_eq!(packet.server_address, "localhost");
    assert_eq!(packet.port, 25565);
    assert_eq!(packet.next_state, 1);
}

#[test]
fn framed_handshake_reads_as_one_packet() {
    let frame = handshake_frame(758, "localhost", 25565, 2);
    let (packet, consumed) = HandshakePacket::read_packet(&frame, 0).unwrap();
    assert_eq!(packet.next_state, 2);
    assert_eq!(packet.server_address, "localhost");
    assert_eq!(consumed, frame.len());
}

#[test]
fn framed_handshake_under_other_id_is_unexpected() {
    let mut payload: Vec<u8> = Vec::new();
    write_varint(&mut payload, 758);
    let mut frame: Vec<u8> = Vec::new();
    assert!(write_frame(&mut frame, 1, &payload));
    match HandshakePacket::read_packet(&frame, 0) {
        Err(mc_sentinel::ProtocolError::UnexpectedPacketId) => {}
        other => panic!("expected UnexpectedPacketId, got {:?}", other.map(|_| ())),
    }
}

#[test]
fn status_handshake_continues_without_reply() {
    let frame = handshake_frame(758, "localhost", 25565, 1);
    let mut d = Dispatcher::new();
    match d.on_data(&frame, false) {
        DispatchStep::Outcome { outcome } => assert_eq!(outcome, ConnectionOutcome::Continue),
        _ => panic!("expected a plain Continue outcome"),
    }
}

#[test]
fn login_handshake_replies_disconnect_and_triggers() {
    let frame = handshake_frame(758, "localhost", 25565, 2);
    let mut d = Dispatcher::new();
    match d.on_data(&frame, false) {
        DispatchStep::Reply { bytes, outcome } => {
            assert_eq!(outcome, ConnectionOutcome::Trigger);
            let (id, payload, consumed) = read_frame(&bytes, 0).unwrap();
            assert_eq!(id, 0);
            assert_eq!(consumed, bytes.len());
            let (reason, _) = read_string(&payload, 0).unwrap();
            assert_eq!(reason, "\"You triggered a server start!\"");
        }
        _ => panic!("expected a Disconnect reply with a Trigger outcome"),
    }
}

#[test]
fn legacy_login_replies_kick_marker_and_utf16_message() {
    let chunk = vec![0x01, 0x00, 0x00, 0x02, 0xF6];
    let mut d = Dispatcher::new();
    match d.on_data(&chunk, false) {
        DispatchStep::Reply { bytes, outcome } => {
            assert_eq!(outcome, ConnectionOutcome::Continue);
            assert_eq!(bytes[0], 0xFF);
            let msg = "You triggered a server start!";
            let units: Vec<u16> = msg.encode_utf16().collect();
            assert_eq!(&bytes[1..3], &[0x00, units.len() as u8]);
            let mut expected: Vec<u8> = Vec::new();
            for u in units {
                expected.push((u >> 8) as u8);
                expected.push((u & 0xFF) as u8);
            }
            assert_eq!(&bytes[3..], &expected[..]);
        }
        _ => panic!("expected the legacy kick reply"),
    }
}

#[test]
fn legacy_ping_continues_without_reply() {
    let chunk = vec![0x02];
    let mut d = Dispatcher::new();
    match d.on_data(&chunk, false) {
        DispatchStep::Outcome { outcome } => assert_eq!(outcome, ConnectionOutcome::Continue),
        _ => panic!("expected a plain Continue outcome"),
    }
}

#[test]
fn classification_first_byte_selects_path() {
    // 0x01 with nothing behind it: the legacy login path waits for the rest.
    let mut d = Dispatcher::new();
    assert!(matches!(d.on_data(&vec![0x01], false), DispatchStep::NeedMore));
    // 0x02: the legacy ping path acknowledges by doing nothing further.
    let mut d = Dispatcher::new();
    assert!(matches!(
        d.on_data(&vec![0x02], false),
        DispatchStep::Outcome { outcome: ConnectionOutcome::Continue }
    ));
    // Any other first byte: the modern path, which waits for the frame.
    let mut d = Dispatcher::new();
    assert!(matches!(d.on_data(&vec![0x10], false), DispatchStep::NeedMore));
}

#[test]
fn partial_delivery_matches_whole_delivery() {
    let frame = handshake_frame(758, "localhost", 25565, 2);
    for split in 1..frame.len() {
        let first = frame[..split].to_vec();
        let second = frame[split..].to_vec();
        let mut d = Dispatcher::new();
        match d.on_data(&first, false) {
            DispatchStep::NeedMore => {}
            _ => panic!("a strict prefix must not decode"),
        }
        match d.on_data(&second, false) {
            DispatchStep::Reply { bytes, outcome } => {
                assert_eq!(outcome, ConnectionOutcome::Trigger);
                let (id, _, _) = read_frame(&bytes, 0).unwrap();
                assert_eq!(id, 0);
            }
            _ => panic!("the completed frame must decode as when delivered whole"),
        }
    }
}

#[test]
fn consumed_frame_leaves_following_frame_intact() {
    let mut both = handshake_frame(758, "localhost", 25565, 1);
    both.extend(handshake_frame(758, "localhost", 25565, 2));
    let mut d = Dispatcher::new();
    match d.on_data(&both, false) {
        DispatchStep::Outcome { outcome } => assert_eq!(outcome, ConnectionOutcome::Continue),
        _ => panic!("first frame must decode to Continue"),
    }
    match d.on_data(&Vec::new(), false) {
        DispatchStep::Reply { outcome, .. } => assert_eq!(outcome, ConnectionOutcome::Trigger),
        _ => panic!("second frame must decode from the leftover bytes"),
    }
}

#[test]
fn truncated_frame_at_eof_closes() {
    // Declared length exceeds what arrives before end of stream.
    let chunk = vec![0x0A, 0x00, 0x01];
    let mut d = Dispatcher::new();
    assert!(matches!(d.on_data(&chunk, false), DispatchStep::NeedMore));
    assert!(matches!(
        d.on_data(&Vec::new(), true),
        DispatchStep::Outcome { outcome: ConnectionOutcome::Closed }
    ));
}

#[test]
fn invalid_utf8_address_closes_connection() {
    // A handshake frame whose string field holds invalid UTF-8.
    let mut payload: Vec<u8> = Vec::new();
    write_varint(&mut payload, 758);
    payload.extend([0x02, 0xFF, 0xFE]);
    write_u16(&mut payload, 25565);
    write_varint(&mut payload, 2);
    let mut frame: Vec<u8> = Vec::new();
    assert!(write_frame(&mut frame, 0, &payload));
    let mut d = Dispatcher::new();
    assert!(matches!(
        d.on_data(&frame, false),
        DispatchStep::Outcome { outcome: ConnectionOutcome::Closed }
    ));
    // The listener goes on: a fresh connection still dispatches.
    let mut d2 = Dispatcher::new();
    let good = handshake_frame(758, "localhost", 25565, 2);
    assert!(matches!(d2.on_data(&good, false), DispatchStep::Reply { .. }));
}

#[test]
fn unexpected_packet_id_closes_connection() {
    let mut payload: Vec<u8> = Vec::new();
    write_varint(&mut payload, 758);
    let mut frame: Vec<u8> = Vec::new();
    assert!(write_frame(&mut frame, 3, &payload));
    let mut d = Dispatcher::new();
    assert!(matches!(
        d.on_data(&frame, false),
        DispatchStep::Outcome { outcome: ConnectionOutcome::Closed }
    ));
}

#[test]
fn trigger_fires_after_disconnect_is_handed_over() {
    // The dispatcher hands the Disconnect bytes and the Trigger outcome in
    // one step, so the caller writes the packet before reporting the
    // outcome; the sentinel then launches exactly once.
    let frame = handshake_frame(758, "localhost", 25565, 2);
    let mut d = Dispatcher::new();
    let mut state = SentinelState::new();
    match d.on_data(&frame, false) {
        DispatchStep::Reply { bytes, outcome } => {
            assert!(!bytes.is_empty());
            assert!(state.on_outcome(outcome));
            assert!(!state.on_outcome(ConnectionOutcome::Trigger));
        }
        _ => panic!("expected a Disconnect reply with a Trigger outcome"),
    }
}
