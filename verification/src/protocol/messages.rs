//! The messages that client and server exchange.

use vstd::prelude::*;

verus! {

/// What a client wants when it connects to a session.
#[derive(Copy, Clone, Debug, PartialEq, Eq, Structural)]
pub enum ConnectMode {
    /// Attach if the session exists, create it if not
    CreateOrAttach,
    /// Create a new session; fail if it exists
    CreateOnly,
    /// Attach to an existing session; fail if there is none
    AttachOnly,
}

/// Message sent from a client to the server.
#[derive(Debug)]
pub enum ClientMsg {
    /// Keyboard input from client
    Input(Vec<u8>),
    /// Terminal resized
    Resize { cols: u16, rows: u16 },
    /// Client wants to detach
    Detach,
    /// Request session list
    ListSessions,
    /// Create or attach to session
    Connect { name: String, history: usize, cols: u16, rows: u16, mode: ConnectMode },
    /// Kill a session
    KillSession { name: String },
    /// Client asks for a full redraw
    RefreshScreen,
}

/// Message sent from the server to a client.
#[derive(Debug)]
pub enum ServerMsg {
    /// Scrollback line (passthrough to terminal)
    ScrollbackLine(Vec<u8>),
    /// Full screen redraw (ANSI bytes)
    ScreenUpdate(Vec<u8>),
    /// Scrollback history on reattach
    History(Vec<Vec<u8>>),
    /// Session list response
    SessionList(Vec<SessionInfo>),
    /// Session ended (shell exited)
    SessionEnded,
    /// Error
    Error(String),
    /// Connected successfully
    Connected { name: String, new_session: bool },
    /// Session killed successfully
    SessionKilled { name: String },
    /// Escape sequences for the outer terminal
    Passthrough(Vec<u8>),
}

/// Snapshot of a session's metadata, used in list responses.
#[derive(Debug)]
pub struct SessionInfo {
    pub name: String,
    pub pid: u32,
    pub cols: u16,
    pub rows: u16,
}

impl Clone for SessionInfo {
    fn clone(&self) -> (res: Self)
        ensures
            res == *self,
    {
        SessionInfo { name: self.name.clone(), pid: self.pid, cols: self.cols, rows: self.rows }
    }
}

} // verus!
