//! Length-prefixed binary protocol for client-server communication over Unix sockets.
//! Messages travel in frames: a 4-byte big-endian length, and that many bytes.

pub mod codec;
pub mod messages;

pub use codec::{decode_frame, encode, FrameReader, ProtocolError};
pub use messages::{ClientMsg, ConnectMode, ServerMsg, SessionInfo};
