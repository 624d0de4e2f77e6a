//! What the client decides: what it makes of keyboard input, and what it shows for
//! each message of the server.

pub mod input;
pub mod launcher;
pub mod output;

pub use input::StdinFilter;
