//! The handshake that bootstraps a transfer.
//!
//! The requesting side performs exactly one request/response exchange:
//! it sends a read or write request with its proposed options, then
//! interprets the peer's single response. Every active option must come
//! out of that response — a plain acknowledgement reverts the whole set
//! to protocol defaults, and an option-acknowledgement is applied onto
//! defaults, never onto the proposal.

use crate::message::Message;
use crate::options::apply_result;
use crate::options::entries_view;
use crate::options::NegotiationError;
use crate::options::OptionSet;
use vstd::prelude::*;

verus! {

/// Whether the transfer sends or receives the file.
#[derive(Clone, Copy, Debug, PartialEq, Eq, Structural)]
pub enum Mode {
    /// Send a local file to the peer.
    Upload,
    /// Receive a remote file from the peer.
    Download,
}

/// Why the handshake failed before any data moved.
#[derive(Debug)]
pub enum HandshakeError {
    /// The peer's accepted options were unsolicited or malformed.
    Negotiation(NegotiationError),
    /// The peer reported an error of its own.
    Peer {
        /// The protocol error code.
        code: u16,
        /// The peer's human-readable reason.
        message: Vec<u8>,
    },
    /// The peer answered with a message the handshake does not allow.
    Protocol,
}

/// Interprets the peer's one response to a write request. An
/// option-acknowledgement is applied onto defaults; a plain
/// acknowledgement of block zero reverts to defaults entirely; an error
/// or any other packet fails the handshake.
pub fn upload_response(proposed: &OptionSet, response: &Message) -> (r: Result<
    OptionSet,
    HandshakeError,
>)
    ensures
        match *response {
            Message::OptionAck { options: o } => match apply_result(*proposed, entries_view(o@)) {
                Ok(s) => r == Ok::<OptionSet, HandshakeError>(s),
                Err(e) => r matches Err(HandshakeError::Negotiation(e2)) && e2 == e,
            },
            Message::Ack { block } => if block == 0 {
                r == Ok::<OptionSet, HandshakeError>(OptionSet::default_spec())
            } else {
                r matches Err(HandshakeError::Protocol)
            },
            Message::Error { code, message } => r matches Err(
                HandshakeError::Peer { code: c, message: m },
            ) && c == code && m@ == message@,
            _ => r matches Err(HandshakeError::Protocol),
        },
{
    match response {
        Message::OptionAck { options } => {
            match proposed.apply(options) {
                Ok(s) => Ok(s),
                Err(e) => Err(HandshakeError::Negotiation(e)),
            }
        },
        Message::Ack { block } => {
            if *block == 0 {
                Ok(OptionSet::defaults())
            } else {
                Err(HandshakeError::Protocol)
            }
        },
        Message::Error { code, message } => {
            Err(HandshakeError::Peer { code: *code, message: message.clone() })
        },
        _ => Err(HandshakeError::Protocol),
    }
}

/// Interprets the peer's one response to a read request. An
/// option-acknowledgement is applied onto defaults and must be confirmed
/// by acknowledging block zero, so the accepted set comes back with the
/// acknowledgement to send. A server that answers with raw data skips
/// negotiation, which this engine does not support: that fails the
/// handshake rather than falling back to stop-and-wait.
pub fn download_response(proposed: &OptionSet, response: &Message) -> (r: Result<
    (OptionSet, Message),
    HandshakeError,
>)
    ensures
        match *response {
            Message::OptionAck { options: o } => match apply_result(*proposed, entries_view(o@)) {
                Ok(s) => r matches Ok(p) && p.0 == s && (p.1 matches Message::Ack { block } && block
                    == 0),
                Err(e) => r matches Err(HandshakeError::Negotiation(e2)) && e2 == e,
            },
            Message::Error { code, message } => r matches Err(
                HandshakeError::Peer { code: c, message: m },
            ) && c == code && m@ == message@,
            _ => r matches Err(HandshakeError::Protocol),
        },
{
    match response {
        Message::OptionAck { options } => {
            match proposed.apply(options) {
                Ok(s) => Ok((s, Message::Ack { block: 0 })),
                Err(e) => Err(HandshakeError::Negotiation(e)),
            }
        },
        Message::Error { code, message } => {
            Err(HandshakeError::Peer { code: *code, message: message.clone() })
        },
        _ => Err(HandshakeError::Protocol),
    }
}

} // verus!
