//! The protocol's message alphabet.
//!
//! Wire encoding and decoding live outside the crate; the engine works on
//! this closed set of packets. Filenames and peer-supplied texts are
//! carried as opaque byte strings, and option lists as pairs of an option
//! kind and the decimal byte string of its value.

use crate::options::OptionKind;
use crate::options::OptionSet;
use vstd::prelude::*;

verus! {

/// The single transfer mode this engine speaks.
#[derive(Clone, Copy, Debug, PartialEq, Eq, Structural)]
pub enum TransferMode {
    /// Raw bytes, transferred verbatim.
    Octet,
}

/// One protocol packet.
#[derive(Debug)]
pub enum Message {
    /// Asks the peer to send the named file.
    ReadRequest {
        /// The remote name of the wanted file.
        filename: Vec<u8>,
        /// The transfer mode requested.
        mode: TransferMode,
        /// The options proposed, with decimal values.
        options: Vec<(OptionKind, Vec<u8>)>,
    },
    /// Asks the peer to receive the named file.
    WriteRequest {
        /// The remote name to store the file under.
        filename: Vec<u8>,
        /// The transfer mode requested.
        mode: TransferMode,
        /// The options proposed, with decimal values.
        options: Vec<(OptionKind, Vec<u8>)>,
    },
    /// One block of file content. A payload shorter than the negotiated
    /// block size is the protocol's only end-of-file signal.
    Data {
        /// The block's sequence number, starting at 1 and wrapping.
        block: u16,
        /// The block's bytes, at most `block_size` of them.
        payload: Vec<u8>,
    },
    /// Acknowledges every block up to and including `block`.
    Ack {
        /// The highest block received in order.
        block: u16,
    },
    /// Echoes the subset of proposed options the peer accepts.
    OptionAck {
        /// The accepted options, with decimal values.
        options: Vec<(OptionKind, Vec<u8>)>,
    },
    /// Aborts the transfer with a peer-supplied reason.
    Error {
        /// The protocol error code.
        code: u16,
        /// The peer's human-readable reason.
        message: Vec<u8>,
    },
}

impl Message {
    /// Builds the read request that solicits `filename` under the options
    /// `options` proposes.
    pub fn read_request(filename: Vec<u8>, options: &OptionSet) -> (m: Message)
        ensures
            m matches Message::ReadRequest { filename: f, mode: tm, options: o } && f@ == filename@
                && tm == TransferMode::Octet && crate::options::entries_view(o@)
                == options.prepare_seq(),
    {
        Message::ReadRequest { filename, mode: TransferMode::Octet, options: options.prepare() }
    }

    /// Builds the write request that announces `filename` under the
    /// options `options` proposes.
    pub fn write_request(filename: Vec<u8>, options: &OptionSet) -> (m: Message)
        ensures
            m matches Message::WriteRequest { filename: f, mode: tm, options: o } && f@ == filename@
                && tm == TransferMode::Octet && crate::options::entries_view(o@)
                == options.prepare_seq(),
    {
        Message::WriteRequest { filename, mode: TransferMode::Octet, options: options.prepare() }
    }
}

} // verus!
