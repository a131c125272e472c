//! The packets the sentinel understands: the modern Handshake it reads, the
//! Disconnect it writes, and the legacy fixed-layout login request.

use vstd::prelude::*;
use vstd::utf8::encode_utf8;
use crate::ProtocolError;
use crate::codec::{
    frame_encoding, read_string, read_u16, read_u32, read_varint, spec_read_string, spec_read_u16,
    spec_read_u32, spec_read_varint, string16_encoding, string_encoding, utf16_encoding,
    write_frame, write_string, write_string16, lemma_utf16_encoding_len,
};

verus! {

/// Opcode that opens a legacy login request.
pub const LEGACY_LOGIN_OPCODE: u8 = 0x01;

/// Opcode that opens a legacy server-list ping.
pub const LEGACY_PING_OPCODE: u8 = 0x02;

/// Status byte that opens the reply to a legacy login request.
pub const LEGACY_KICK_MARKER: u8 = 0xFF;

/// Ghost image of a decoded handshake.
pub struct SpecHandshake {
    pub protocol_version: nat,
    pub server_address: Seq<char>,
    pub port: u16,
    pub next_state: nat,
}

/// The first modern-protocol packet a client sends: the protocol version it
/// speaks, the address it dialled, the port, and the phase it wants next
/// (`1` status, `2` login).
pub struct HandshakePacket {
    pub protocol_version: u32,
    pub server_address: String,
    pub port: u16,
    pub next_state: u32,
}

impl View for HandshakePacket {
    type V = SpecHandshake;

    open spec fn view(&self) -> SpecHandshake {
        SpecHandshake {
            protocol_version: self.protocol_version as nat,
            server_address: self.server_address@,
            port: self.port,
            next_state: self.next_state as nat,
        }
    }
}

/// Parse a handshake's fields, in declared order, from a frame payload (the
/// bytes after the packet id); whatever follows the last field is ignored.
pub open spec fn spec_parse_handshake(p: Seq<u8>) -> Result<SpecHandshake, ProtocolError> {
    match spec_read_varint(p) {
        Err(e) => Err(e),
        Ok((pv, n1)) => match spec_read_string(p.skip(n1 as int)) {
            Err(e) => Err(e),
            Ok((addr, n2)) => match spec_read_u16(p.skip((n1 + n2) as int)) {
                Err(e) => Err(e),
                Ok((port, _)) => match spec_read_varint(p.skip((n1 + n2 + 2) as int)) {
                    Err(e) => Err(e),
                    Ok((ns, _)) => Ok(
                        SpecHandshake {
                            protocol_version: pv,
                            server_address: addr,
                            port: port,
                            next_state: ns,
                        },
                    ),
                },
            },
        },
    }
}

impl HandshakePacket {
    /// The one packet id a handshake may carry.
    pub fn get_expected_packet_id() -> (id: u32)
        ensures
            id == 0,
    {
        0
    }

    /// Decode the handshake fields from a frame payload.
    pub fn read_from_buffer(buffer: &Vec<u8>) -> (r: Result<HandshakePacket, ProtocolError>)
        ensures
            match r {
                Ok(p) => spec_parse_handshake(buffer@) == Ok::<_, ProtocolError>(p@),
                Err(e) => spec_parse_handshake(buffer@) == Err::<SpecHandshake, _>(e),
            },
    {
        proof {
            assert(buffer@.skip(0) =~= buffer@);
        }
        let (pv, p1) = match read_varint(buffer, 0) {
            Ok(v) => v,
            Err(e) => {
                return Err(e);
            },
        };
        let (addr, p2) = match read_string(buffer, p1) {
            Ok(v) => v,
            Err(e) => {
                return Err(e);
            },
        };
        let (port, p3) = match read_u16(buffer, p2) {
            Ok(v) => v,
            Err(e) => {
                return Err(e);
            },
        };
        let (ns, _p4) = match read_varint(buffer, p3) {
            Ok(v) => v,
            Err(e) => {
                return Err(e);
            },
        };
        Ok(
            HandshakePacket {
                protocol_version: pv,
                server_address: addr,
                port: port,
                next_state: ns,
            },
        )
    }
}

/// Parse one whole handshake from the front of `s`: the frame, the expected
/// packet id, then the fields. A complete frame under any other id is an
/// `UnexpectedPacketId` failure.
pub open spec fn spec_read_handshake_packet(s: Seq<u8>) -> Result<
    (SpecHandshake, nat),
    ProtocolError,
> {
    match crate::codec::spec_read_frame(s) {
        Err(e) => Err(e),
        Ok((id, payload, n)) => if id != 0 {
            Err(ProtocolError::UnexpectedPacketId)
        } else {
            match spec_parse_handshake(payload) {
                Err(e) => Err(e),
                Ok(h) => Ok((h, n)),
            }
        },
    }
}

impl HandshakePacket {
    /// Read one framed handshake from `buf` at `pos`.
    pub fn read_packet(buf: &Vec<u8>, pos: usize) -> (r: Result<
        (HandshakePacket, usize),
        ProtocolError,
    >)
        requires
            pos <= buf.len(),
        ensures
            match r {
                Ok((p, newpos)) => spec_read_handshake_packet(buf@.skip(pos as int)) == Ok::<
                    _,
                    ProtocolError,
                >((p@, (newpos - pos) as nat)) && pos < newpos <= buf.len(),
                Err(e) => spec_read_handshake_packet(buf@.skip(pos as int)) == Err::<
                    (SpecHandshake, nat),
                    _,
                >(e),
            },
    {
        let (id, payload, newpos) = match crate::codec::read_frame(buf, pos) {
            Ok(v) => v,
            Err(e) => {
                return Err(e);
            },
        };
        if id != HandshakePacket::get_expected_packet_id() {
            return Err(ProtocolError::UnexpectedPacketId);
        }
        match HandshakePacket::read_from_buffer(&payload) {
            Ok(p) => Ok((p, newpos)),
            Err(e) => Err(e),
        }
    }
}

/// The packet the sentinel writes to turn a joining client away, its reason
/// a JSON-quoted chat string.
pub struct DisconnectPacket {
    pub packet_id: u32,
    pub reason: String,
}

impl DisconnectPacket {
    /// The id this packet is framed under.
    pub fn get_packet_id(&self) -> (id: u32)
        ensures
            id == self.packet_id,
    {
        self.packet_id
    }

    /// Encode the packet's payload: one length-prefixed UTF-8 string. The
    /// only failure is a reason whose UTF-8 form is out of the length
    /// varint's 32-bit range.
    pub fn write_to_buffer(&self) -> (r: Result<Vec<u8>, ProtocolError>)
        ensures
            match r {
                Ok(b) => encode_utf8(self.reason@).len() < 0x1_0000_0000 && b@ == string_encoding(
                    encode_utf8(self.reason@),
                ),
                Err(e) => encode_utf8(self.reason@).len() >= 0x1_0000_0000 && e
                    == ProtocolError::MalformedVarint,
            },
    {
        let mut buffer: Vec<u8> = Vec::new();
        if write_string(&mut buffer, self.reason.as_str()) {
            Ok(buffer)
        } else {
            Err(ProtocolError::MalformedVarint)
        }
    }
}

/// The legacy login request: opcode `0x01`, then a 4-byte big-endian
/// protocol version.
#[derive(Clone, Copy, Debug, PartialEq, Eq, Structural)]
pub struct LegacyLoginRequest {
    pub protocol_version: u32,
}

/// Parse a legacy login request from the front of `s`: the packet and the
/// bytes consumed (always 5).
pub open spec fn spec_parse_legacy_login(s: Seq<u8>) -> Result<
    (LegacyLoginRequest, nat),
    ProtocolError,
> {
    if s.len() == 0 {
        Err(ProtocolError::TruncatedInput)
    } else if s[0] != LEGACY_LOGIN_OPCODE {
        Err(ProtocolError::UnexpectedPacketId)
    } else {
        match spec_read_u32(s.skip(1)) {
            Err(e) => Err(e),
            Ok((v, _)) => Ok((LegacyLoginRequest { protocol_version: v }, 5)),
        }
    }
}

impl LegacyLoginRequest {
    /// Decode a legacy login request from `buf` at `pos`.
    pub fn read_from_buffer(buf: &Vec<u8>, pos: usize) -> (r: Result<
        (LegacyLoginRequest, usize),
        ProtocolError,
    >)
        requires
            pos <= buf.len(),
        ensures
            match r {
                Ok((p, newpos)) => spec_parse_legacy_login(buf@.skip(pos as int)) == Ok::<
                    _,
                    ProtocolError,
                >((p, (newpos - pos) as nat)) && pos < newpos <= buf.len(),
                Err(e) => spec_parse_legacy_login(buf@.skip(pos as int)) == Err::<
                    (LegacyLoginRequest, nat),
                    _,
                >(e),
            },
    {
        if pos == buf.len() {
            return Err(ProtocolError::TruncatedInput);
        }
        if buf[pos] != LEGACY_LOGIN_OPCODE {
            return Err(ProtocolError::UnexpectedPacketId);
        }
        proof {
            assert(buf@.skip(pos as int).skip(1) =~= buf@.skip(pos + 1));
        }
        match read_u32(buf, pos + 1) {
            Ok((v, newpos)) => Ok((LegacyLoginRequest { protocol_version: v }, newpos)),
            Err(e) => Err(e),
        }
    }
}

/// The reason string the Disconnect packet carries, as the consuming client
/// expects it: a minimal JSON string literal.
pub open spec fn disconnect_reason() -> Seq<char> {
    "\"You triggered a server start!\""@
}

/// The message carried in the reply to a legacy login request.
pub open spec fn legacy_kick_message() -> Seq<char> {
    "You triggered a server start!"@
}

/// The full outbound Disconnect frame: id 0, one string field.
pub open spec fn spec_disconnect_frame() -> Seq<u8> {
    frame_encoding(0, string_encoding(encode_utf8(disconnect_reason())))
}

/// The full reply to a legacy login request: the kick marker byte, then the
/// message as a legacy 16-bit-length-prefixed UTF-16 string.
pub open spec fn spec_legacy_login_reply() -> Seq<u8> {
    seq![LEGACY_KICK_MARKER] + string16_encoding(utf16_encoding(legacy_kick_message()))
}

/// The UTF-8 form of a string takes at most four bytes per character.
pub proof fn lemma_encode_utf8_len(s: Seq<char>)
    ensures
        encode_utf8(s).len() <= 4 * s.len(),
    decreases s.len(),
{
    if s.len() > 0 {
        lemma_encode_utf8_len(s.drop_first());
    }
}

/// Build the Disconnect frame the sentinel answers a join attempt with.
pub fn build_disconnect_frame() -> (b: Vec<u8>)
    ensures
        b@ == spec_disconnect_frame(),
{
    let reason = "\"You triggered a server start!\"";
    proof {
        reveal_strlit("\"You triggered a server start!\"");
        lemma_encode_utf8_len(reason@);
    }
    let packet = DisconnectPacket { packet_id: 0, reason: reason.to_owned() };
    let payload = match packet.write_to_buffer() {
        Ok(p) => p,
        Err(_) => {
            proof {
                assert(false);
            }
            Vec::new()
        },
    };
    let mut b: Vec<u8> = Vec::new();
    assert(payload@.len() < 0x80);
    let ok = write_frame(&mut b, 0, &payload);
    if !ok {
        proof {
            assert(false);
        }
    }
    assert(b@ =~= spec_disconnect_frame());
    b
}

/// Build the reply to a legacy login request.
pub fn build_legacy_login_reply() -> (b: Vec<u8>)
    ensures
        b@ == spec_legacy_login_reply(),
{
    let msg = "You triggered a server start!";
    proof {
        reveal_strlit("You triggered a server start!");
        lemma_utf16_encoding_len(msg@);
    }
    let mut b: Vec<u8> = Vec::new();
    b.push(LEGACY_KICK_MARKER);
    let ok = write_string16(&mut b, msg);
    if !ok {
        proof {
            assert(false);
        }
    }
    assert(b@ =~= spec_legacy_login_reply());
    b
}

} // verus!
