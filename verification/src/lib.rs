//! Terminal session multiplexer core: a verified terminal screen model with its
//! renderer, the framing of the client/server protocol, and the decisions that
//! the server and the client take around them.

pub mod bytes;
pub mod cli;
pub mod client;
pub mod protocol;
pub mod screen;
pub mod server;
pub mod session;
pub mod text;
