//! A passive sentinel for an on-demand game server.
//!
//! The crate speaks just enough of the server's wire protocol to tell idle
//! status probes from genuine login attempts: a byte-level codec for varints,
//! length-prefixed strings and frames, the small set of packets the sentinel
//! understands, a per-connection dispatcher that classifies and decodes the
//! inbound stream, and the single-shot trigger state that arbitrates the
//! hand-off to an external launcher.

use vstd::prelude::*;

pub mod codec;
pub mod dispatch;
pub mod packets;
pub mod sentinel;
pub mod service;

verus! {

/// The errors a decode can end in. They are scoped to one connection and
/// never abort the listener.
#[derive(Clone, Copy, Debug, PartialEq, Eq, Structural)]
pub enum ProtocolError {
    /// A varint ran past the widest encoding the protocol allows.
    MalformedVarint,
    /// The input ended before the declared length was reached.
    TruncatedInput,
    /// A string field held bytes that are not valid UTF-8.
    InvalidEncoding,
    /// A frame carried a packet id other than the one expected here.
    UnexpectedPacketId,
}

} // verus!
