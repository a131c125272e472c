//! Per-connection dispatch: buffer inbound bytes, classify the stream as
//! legacy or modern on its first byte, decode packets as they complete, and
//! decide an outcome for the connection.

use vstd::prelude::*;
use crate::ProtocolError;
use crate::codec::{copy_range, append_bytes, read_frame_body, split_packet, spec_read_frame_body,
    spec_split_packet};
use crate::packets::{
    build_disconnect_frame, build_legacy_login_reply, spec_disconnect_frame,
    spec_legacy_login_reply, spec_parse_handshake, spec_parse_legacy_login, HandshakePacket,
    LegacyLoginRequest, LEGACY_LOGIN_OPCODE, LEGACY_PING_OPCODE,
};

verus! {

/// The protocol family a connection commits to on its first byte, for the
/// rest of its lifetime.
#[derive(Clone, Copy, Debug, PartialEq, Eq, Structural)]
pub enum ProtocolFamily {
    LegacyLogin,
    LegacyPing,
    ModernFrame,
}

/// The result of handling one connection.
#[derive(Clone, Copy, Debug, PartialEq, Eq, Structural)]
pub enum ConnectionOutcome {
    /// Keep reading from this connection.
    Continue,
    /// A login attempt was confirmed: fire the launch trigger.
    Trigger,
    /// The peer is done or the stream failed to decode; no trigger.
    Closed,
}

/// Ghost image of a dispatcher step.
pub enum SpecStep {
    NeedMore,
    Reply { bytes: Seq<u8>, outcome: ConnectionOutcome },
    Outcome { outcome: ConnectionOutcome },
}

/// What the dispatcher asks of its caller after a batch of bytes.
pub enum DispatchStep {
    /// Nothing decodes yet: read more bytes from the peer.
    NeedMore,
    /// Write `bytes` to the peer, then treat the connection per `outcome`.
    Reply { bytes: Vec<u8>, outcome: ConnectionOutcome },
    /// No reply owed; treat the connection per `outcome`.
    Outcome { outcome: ConnectionOutcome },
}

impl View for DispatchStep {
    type V = SpecStep;

    open spec fn view(&self) -> SpecStep {
        match self {
            DispatchStep::NeedMore => SpecStep::NeedMore,
            DispatchStep::Reply { bytes, outcome } => SpecStep::Reply {
                bytes: bytes@,
                outcome: *outcome,
            },
            DispatchStep::Outcome { outcome } => SpecStep::Outcome { outcome: *outcome },
        }
    }
}

/// The family the first byte of a connection selects.
pub open spec fn classify(b: u8) -> ProtocolFamily {
    if b == LEGACY_LOGIN_OPCODE {
        ProtocolFamily::LegacyLogin
    } else if b == LEGACY_PING_OPCODE {
        ProtocolFamily::LegacyPing
    } else {
        ProtocolFamily::ModernFrame
    }
}

/// One dispatcher step over the bytes buffered so far: the step to take, the
/// bytes consumed from the front of the buffer, and the family the
/// connection is committed to afterwards.
pub open spec fn spec_step(family: Option<ProtocolFamily>, buf: Seq<u8>, eof: bool) -> (
    SpecStep,
    nat,
    Option<ProtocolFamily>,
) {
    if buf.len() == 0 {
        (
            if eof {
                SpecStep::Outcome { outcome: ConnectionOutcome::Closed }
            } else {
                SpecStep::NeedMore
            },
            0,
            family,
        )
    } else {
        let fam = if family is Some {
            family->0
        } else {
            classify(buf[0])
        };
        match fam {
            ProtocolFamily::LegacyLogin => match spec_parse_legacy_login(buf) {
                Ok((_req, n)) => (
                    SpecStep::Reply {
                        bytes: spec_legacy_login_reply(),
                        outcome: ConnectionOutcome::Continue,
                    },
                    n,
                    Some(fam),
                ),
                Err(ProtocolError::TruncatedInput) => (
                    if eof {
                        SpecStep::Outcome { outcome: ConnectionOutcome::Closed }
                    } else {
                        SpecStep::NeedMore
                    },
                    0,
                    Some(fam),
                ),
                Err(_) => (SpecStep::Outcome { outcome: ConnectionOutcome::Closed }, 0, Some(fam)),
            },
            ProtocolFamily::LegacyPing => (
                SpecStep::Outcome { outcome: ConnectionOutcome::Continue },
                buf.len(),
                Some(fam),
            ),
            ProtocolFamily::ModernFrame => match spec_read_frame_body(buf) {
                Err(ProtocolError::TruncatedInput) => (
                    if eof {
                        SpecStep::Outcome { outcome: ConnectionOutcome::Closed }
                    } else {
                        SpecStep::NeedMore
                    },
                    0,
                    Some(fam),
                ),
                Err(_) => (SpecStep::Outcome { outcome: ConnectionOutcome::Closed }, 0, Some(fam)),
                Ok((body, n)) => match spec_split_packet(body) {
                    Err(_) => (
                        SpecStep::Outcome { outcome: ConnectionOutcome::Closed },
                        0,
                        Some(fam),
                    ),
                    Ok((id, payload)) => if id != 0 {
                        (SpecStep::Outcome { outcome: ConnectionOutcome::Closed }, 0, Some(fam))
                    } else {
                        match spec_parse_handshake(payload) {
                            Err(_) => (
                                SpecStep::Outcome { outcome: ConnectionOutcome::Closed },
                                0,
                                Some(fam),
                            ),
                            Ok(hs) => if hs.next_state == 2 {
                                (
                                    SpecStep::Reply {
                                        bytes: spec_disconnect_frame(),
                                        outcome: ConnectionOutcome::Trigger,
                                    },
                                    n,
                                    Some(fam),
                                )
                            } else {
                                (
                                    SpecStep::Outcome { outcome: ConnectionOutcome::Continue },
                                    n,
                                    Some(fam),
                                )
                            },
                        }
                    },
                },
            },
        }
    }
}

fn drop_front(v: &mut Vec<u8>, n: usize)
    requires
        n <= old(v).len(),
    ensures
        final(v)@ == old(v)@.skip(n as int),
{
    let tail = copy_range(v, n, v.len());
    *v = tail;
    assert(final(v)@ =~= old(v)@.skip(n as int));
}

/// One connection's dispatcher: its read buffer and the protocol family it
/// has committed to.
pub struct Dispatcher {
    buf: Vec<u8>,
    family: Option<ProtocolFamily>,
}

impl Dispatcher {
    /// Bytes received but not yet consumed.
    pub closed spec fn buffered(&self) -> Seq<u8> {
        self.buf@
    }

    /// The family the connection committed to when its first byte arrived.
    pub closed spec fn committed_family(&self) -> Option<ProtocolFamily> {
        self.family
    }

    /// A dispatcher for a fresh connection.
    pub fn new() -> (d: Dispatcher)
        ensures
            d.buffered() == Seq::<u8>::empty(),
            d.committed_family() is None,
    {
        Dispatcher { buf: Vec::new(), family: None }
    }

    /// Feed the bytes of one read (`eof` when the peer has closed its side)
    /// and take one dispatch step over everything buffered so far.
    pub fn on_data(&mut self, chunk: &Vec<u8>, eof: bool) -> (step: DispatchStep)
        ensures
            ({
                let combined = old(self).buffered() + chunk@;
                let r = spec_step(old(self).committed_family(), combined, eof);
                &&& step@ == r.0
                &&& final(self).buffered() == combined.skip(r.1 as int)
                &&& final(self).committed_family() == r.2
            }),
    {
        append_bytes(&mut self.buf, chunk);
        let ghost combined = self.buf@;
        proof {
            assert(combined.skip(0) =~= combined);
        }
        if self.buf.len() == 0 {
            if eof {
                return DispatchStep::Outcome { outcome: ConnectionOutcome::Closed };
            } else {
                return DispatchStep::NeedMore;
            }
        }
        let fam = match self.family {
            Some(f) => f,
            None => {
                let b0 = self.buf[0];
                if b0 == LEGACY_LOGIN_OPCODE {
                    ProtocolFamily::LegacyLogin
                } else if b0 == LEGACY_PING_OPCODE {
                    ProtocolFamily::LegacyPing
                } else {
                    ProtocolFamily::ModernFrame
                }
            },
        };
        self.family = Some(fam);
        match fam {
            ProtocolFamily::LegacyLogin => {
                match LegacyLoginRequest::read_from_buffer(&self.buf, 0) {
                    Ok((_req, n)) => {
                        drop_front(&mut self.buf, n);
                        DispatchStep::Reply {
                            bytes: build_legacy_login_reply(),
                            outcome: ConnectionOutcome::Continue,
                        }
                    },
                    Err(ProtocolError::TruncatedInput) => {
                        if eof {
                            DispatchStep::Outcome { outcome: ConnectionOutcome::Closed }
                        } else {
                            DispatchStep::NeedMore
                        }
                    },
                    Err(_) => DispatchStep::Outcome { outcome: ConnectionOutcome::Closed },
                }
            },
            ProtocolFamily::LegacyPing => {
                let n = self.buf.len();
                drop_front(&mut self.buf, n);
                DispatchStep::Outcome { outcome: ConnectionOutcome::Continue }
            },
            ProtocolFamily::ModernFrame => {
                match read_frame_body(&self.buf, 0) {
                    Err(ProtocolError::TruncatedInput) => {
                        if eof {
                            DispatchStep::Outcome { outcome: ConnectionOutcome::Closed }
                        } else {
                            DispatchStep::NeedMore
                        }
                    },
                    Err(_) => DispatchStep::Outcome { outcome: ConnectionOutcome::Closed },
                    Ok((body, n)) => {
                        match split_packet(&body) {
                            Err(_) => DispatchStep::Outcome {
                                outcome: ConnectionOutcome::Closed,
                            },
                            Ok((id, payload)) => {
                                if id != HandshakePacket::get_expected_packet_id() {
                                    DispatchStep::Outcome { outcome: ConnectionOutcome::Closed }
                                } else {
                                    match HandshakePacket::read_from_buffer(&payload) {
                                        Err(_) => DispatchStep::Outcome {
                                            outcome: ConnectionOutcome::Closed,
                                        },
                                        Ok(hs) => {
                                            if hs.next_state == 2 {
                                                drop_front(&mut self.buf, n);
                                                DispatchStep::Reply {
                                                    bytes: build_disconnect_frame(),
                                                    outcome: ConnectionOutcome::Trigger,
                                                }
                                            } else {
                                                drop_front(&mut self.buf, n);
                                                DispatchStep::Outcome {
                                                    outcome: ConnectionOutcome::Continue,
                                                }
                                            }
                                        },
                                    }
                                }
                            },
                        }
                    },
                }
            },
        }
    }
}

/// Dispatch classification: the first byte alone selects the path — `0x01`
/// the legacy login path, `0x02` the legacy ping path, anything else the
/// modern frame path — and the connection stays committed to it.
pub proof fn lemma_dispatch_classification(buf: Seq<u8>, eof: bool)
    requires
        buf.len() > 0,
    ensures
        spec_step(None, buf, eof).2 == Some(classify(buf[0])),
        buf[0] == LEGACY_LOGIN_OPCODE ==> classify(buf[0]) == ProtocolFamily::LegacyLogin,
        buf[0] == LEGACY_PING_OPCODE ==> classify(buf[0]) == ProtocolFamily::LegacyPing,
        buf[0] != LEGACY_LOGIN_OPCODE && buf[0] != LEGACY_PING_OPCODE ==> classify(buf[0])
            == ProtocolFamily::ModernFrame,
{
}

/// Partial delivery: a step that asked for more bytes consumed nothing and
/// committed only the family, so delivering a valid byte sequence in two
/// arbitrary chunks ends in the same step as delivering it whole.
pub proof fn lemma_partial_delivery(
    family: Option<ProtocolFamily>,
    buf: Seq<u8>,
    more: Seq<u8>,
    eof: bool,
)
    requires
        spec_step(family, buf, false).0 is NeedMore,
    ensures
        spec_step(family, buf, false).1 == 0,
        spec_step(spec_step(family, buf, false).2, buf + more, eof) == spec_step(
            family,
            buf + more,
            eof,
        ),
{
    if buf.len() > 0 {
        assert((buf + more)[0] == buf[0]);
    }
}

} // verus!
