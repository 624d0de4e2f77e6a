//! What the server decides: where its socket is, how a client is answered, and how
//! a client is bridged to a session.

pub mod client_handler;
pub mod session_bridge;
pub mod socket;

pub use socket::socket_path;
