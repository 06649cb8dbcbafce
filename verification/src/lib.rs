//! A verified TFTP transfer engine with option negotiation and the
//! RFC 7440 sliding-window extension.
//!
//! The crate models one direction of a TFTP transfer: the bounded window
//! buffers that decouple file bytes from datagram cadence (`window`), the
//! negotiable option set and its accept/reject rules (`options`), the
//! protocol message alphabet (`message`), the block-sequencing engines
//! for upload and download (`engine`), and the handshake that interprets
//! the peer's first response (`handshake`).
//!
//! All datagram and file I/O stays outside the crate: callers hand the
//! engine plain bytes and protocol messages and perform the sends, receives
//! and disk writes that the engine's decisions call for.

pub mod engine;
pub mod handshake;
pub mod message;
pub mod options;
pub mod window;

pub use handshake::HandshakeError;
pub use handshake::Mode;
pub use message::Message;
pub use message::TransferMode;
pub use options::NegotiationError;
pub use options::OptionKind;
pub use options::OptionSet;
pub use window::WindowError;
pub use window::WindowRead;
pub use window::WindowWrite;
