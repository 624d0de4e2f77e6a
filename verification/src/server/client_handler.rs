//! How the server answers the first message of a client.

use vstd::prelude::*;
use vstd::string::*;

use super::session_bridge::ConnectRequest;
use crate::protocol::ClientMsg;

verus! {

/// What the first message of a client asks for.
pub enum Request {
    /// A session.
    Session(ConnectRequest),
    /// The list of sessions.
    List,
    /// The end of a session.
    Kill(String),
    /// Nothing that a client can ask for first, with the answer to that.
    Refused(String),
}

/// Decide what the first message of a client asks for. Bytes that came behind it
/// stay with a session.
pub fn first_request(msg: ClientMsg, leftover: Vec<u8>) -> (res: Request)
    ensures
        match msg {
            ClientMsg::Connect { name, history, cols, rows, mode } => res == Request::Session(
                (ConnectRequest { name, history, cols, rows, leftover, mode }),
            ),
            ClientMsg::ListSessions => res is List,
            ClientMsg::KillSession { name } => res == Request::Kill(name),
            _ => res matches Request::Refused(text) && text@
                == "expected Connect, ListSessions, or KillSession"@,
        },
{
    match msg {
        ClientMsg::Connect { name, history, cols, rows, mode } => Request::Session(
            ConnectRequest { name, history, cols, rows, leftover, mode },
        ),
        ClientMsg::ListSessions => Request::List,
        ClientMsg::KillSession { name } => Request::Kill(name),
        _ => Request::Refused("expected Connect, ListSessions, or KillSession".to_owned()),
    }
}

} // verus!
