//! What the client shows for the messages of the server.

use vstd::prelude::*;
use vstd::string::*;
use vstd::utf8::*;

use crate::bytes;
use crate::bytes::push_str;
use crate::protocol::{ServerMsg, SessionInfo};
use crate::screen::grid;
use crate::screen::render;
use crate::screen::{replay, restore};
use crate::text;
use crate::text::{concat3, push_decimal};

verus! {

/// What a message of the server leads to.
#[derive(Debug)]
pub struct Shown {
    /// Bytes for the terminal.
    pub stdout: Vec<u8>,
    /// Whether to flush them at once.
    pub flush: bool,
    /// A line for the user.
    pub notice: Option<String>,
    /// Whether the connection is over.
    pub done: bool,
}

/// Lines for the terminal, each ended.
pub open spec fn lines_shown(lines: Seq<Seq<u8>>) -> Seq<u8>
    decreases lines.len(),
{
    if lines.len() == 0 {
        seq![]
    } else {
        lines_shown(lines.drop_last()) + lines.last() + "\r\n".spec_bytes()
    }
}

/// The bytes that a message puts on the terminal.
pub open spec fn stdout_of(msg: ServerMsg) -> Seq<u8> {
    match msg {
        ServerMsg::ScrollbackLine(line) => line@ + "\r\n".spec_bytes(),
        ServerMsg::ScreenUpdate(data) => data@,
        ServerMsg::Passthrough(data) => data@,
        ServerMsg::History(lines) => lines_shown(bytes::lines_view(lines@)),
        _ => seq![],
    }
}

/// The line that a message tells the user.
pub open spec fn notice_of(msg: ServerMsg) -> Option<Seq<char>> {
    match msg {
        ServerMsg::SessionEnded => Some("[retach: session ended]"@),
        ServerMsg::Error(e) => Some("[retach error: "@ + e@ + "]"@),
        _ => None,
    }
}

/// Whether the terminal is flushed after a message.
pub open spec fn flushes(msg: ServerMsg) -> bool {
    msg is Passthrough || msg is SessionEnded || msg is Error
}

/// What an optional line says.
pub open spec fn notice_view(notice: Option<String>) -> Option<Seq<char>> {
    match notice {
        Some(text) => Some(text@),
        None => None,
    }
}

/// Write lines, each ended.
fn write_lines(out: &mut Vec<u8>, lines: &Vec<Vec<u8>>)
    ensures
        final(out)@ == old(out)@ + lines_shown(bytes::lines_view(lines@)),
{
    let ghost all = bytes::lines_view(lines@);
    let mut i: usize = 0;
    assert(all.take(0) =~= seq![]);
    assert(out@ =~= old(out)@ + lines_shown(all.take(0)));
    while i < lines.len()
        invariant
            i <= lines@.len(),
            all == bytes::lines_view(lines@),
            out@ == old(out)@ + lines_shown(all.take(i as int)),
        decreases lines@.len() - i,
    {
        out.extend_from_slice(lines[i].as_slice());
        push_str(out, "\r\n");
        proof {
            assert(all.take(i + 1).drop_last() =~= all.take(i as int));
            assert(all.take(i + 1).last() == lines@[i as int]@);
            assert(out@ =~= old(out)@ + lines_shown(all.take(i + 1)));
        }
        i += 1;
    }
    assert(all.take(i as int) =~= all);
}

/// Decide what to show for a message of the server. The end of a session and an
/// error are the last messages; what does not belong here is ignored.
pub fn dispatch_server_msg(msg: &ServerMsg) -> (res: Shown)
    ensures
        res.stdout@ == stdout_of(*msg),
        res.flush == flushes(*msg),
        notice_view(res.notice) == notice_of(*msg),
        res.done == (*msg is SessionEnded || *msg is Error),
{
    let mut stdout: Vec<u8> = Vec::new();
    let mut flush = false;
    let mut notice: Option<String> = None;
    match msg {
        ServerMsg::ScrollbackLine(line) => {
            stdout.extend_from_slice(line.as_slice());
            push_str(&mut stdout, "\r\n");
        },
        ServerMsg::ScreenUpdate(data) => {
            stdout.extend_from_slice(data.as_slice());
        },
        ServerMsg::Passthrough(data) => {
            stdout.extend_from_slice(data.as_slice());
            flush = true;
        },
        ServerMsg::History(lines) => {
            write_lines(&mut stdout, lines);
        },
        ServerMsg::SessionEnded => {
            flush = true;
            notice = Some("[retach: session ended]".to_owned());
        },
        ServerMsg::Error(e) => {
            flush = true;
            notice = Some(concat3("[retach error: ", e.as_str(), "]"));
        },
        _ => {},
    }
    assert(stdout@ =~= stdout_of(*msg));
    let done = notice.is_some();
    Shown { stdout, flush, notice, done }
}

/// The line that the answer to a request for a session tells the user.
pub open spec fn handshake_notice(msg: ServerMsg) -> Seq<char> {
    match msg {
        ServerMsg::Connected { name, new_session } => (if new_session {
            "[retach: new session '"@
        } else {
            "[retach: reattached to '"@
        }) + name@ + "' (detach: Ctrl+\\)]"@,
        ServerMsg::Error(e) => "[retach error: "@ + e@ + "]"@,
        _ => "[retach: unexpected response from server]"@,
    }
}

/// Read the answer to a request for a session: the line for the user, and whether
/// the session is there.
pub fn handshake(msg: &ServerMsg) -> (res: (String, bool))
    ensures
        res.0@ == handshake_notice(*msg),
        res.1 == (*msg is Connected),
{
    match msg {
        ServerMsg::Connected { name, new_session } => {
            let start = if *new_session {
                "[retach: new session '"
            } else {
                "[retach: reattached to '"
            };
            (concat3(start, name.as_str(), "' (detach: Ctrl+\\)]"), true)
        },
        ServerMsg::Error(e) => (concat3("[retach error: ", e.as_str(), "]"), false),
        _ => ("[retach: unexpected response from server]".to_owned(), false),
    }
}

/// What resets the terminal once the client is done with it: cursor, autowrap,
/// cursor keys, bracketed paste, mouse, focus, output, keypad, cursor shape and
/// attributes.
pub open spec fn cleanup_text() -> Seq<char> {
    "\x1b[?25h\x1b[?7h\x1b[?1l\x1b[?2004l\x1b[?1000l\x1b[?1002l\x1b[?1003l\x1b[?1005l\x1b[?1006l\x1b[?1004l\x1b[?2026l\x1b>\x1b[0 q\x1b[0m"@
}

/// Bytes that reset the terminal, so that the user's shell is not left with a hidden
/// cursor, mouse capture, bracketed paste and the like.
pub fn cleanup_terminal() -> (res: Vec<u8>)
    ensures
        res@ == encode_utf8(cleanup_text()),
{
    let mut res: Vec<u8> = Vec::new();
    push_str(
        &mut res,
        "\x1b[?25h\x1b[?7h\x1b[?1l\x1b[?2004l\x1b[?1000l\x1b[?1002l\x1b[?1003l\x1b[?1005l\x1b[?1006l\x1b[?1004l\x1b[?2026l\x1b>\x1b[0 q\x1b[0m",
    );
    assert(res@ =~= encode_utf8(cleanup_text()));
    res
}

/// The bytes of a private mode of one to four digits.
proof fn lemma_mode_bytes(code: u16, on: bool)
    requires
        code <= 9999,
    ensures
        render::dec_mode(code, on) == seq![0x1bu8, 0x5b, 0x3f] + bytes::decimal(code as nat)
            + seq![
            if on {
                0x68u8
            } else {
                0x6c
            },
        ],
{
    reveal_strlit("\x1b[?");
    reveal_strlit("h");
    reveal_strlit("l");
    is_ascii_chars_encode_utf8("\x1b[?"@);
    is_ascii_chars_encode_utf8("h"@);
    is_ascii_chars_encode_utf8("l"@);
    assert("\x1b[?".spec_bytes() =~= seq![0x1bu8, 0x5b, 0x3f]);
    assert("h".spec_bytes() =~= seq![0x68u8]);
    assert("l".spec_bytes() =~= seq![0x6cu8]);
}

proof fn lemma_modes_text(a: u16, b: u16, on: bool)
    ensures
        replay::events_text(seq![replay::dec_event(a, on), replay::dec_event(b, on)])
            == render::dec_mode(a, on) + render::dec_mode(b, on),
{
    replay::lemma_two_texts(replay::dec_event(a, on), replay::dec_event(b, on));
    replay::lemma_dec_text(a, on);
    replay::lemma_dec_text(b, on);
}

proof fn lemma_cleanup_modes()
    ensures
        replay::events_text(seq![replay::dec_event(25, true), replay::dec_event(7, true)])
            == "\x1b[?25h\x1b[?7h".spec_bytes(),
        replay::events_text(seq![replay::dec_event(1, false), replay::dec_event(2004, false)])
            == "\x1b[?1l\x1b[?2004l".spec_bytes(),
        replay::events_text(seq![replay::dec_event(1000, false), replay::dec_event(1002, false)])
            == "\x1b[?1000l\x1b[?1002l".spec_bytes(),
        replay::events_text(seq![replay::dec_event(1003, false), replay::dec_event(1005, false)])
            == "\x1b[?1003l\x1b[?1005l".spec_bytes(),
        replay::events_text(seq![replay::dec_event(1006, false), replay::dec_event(1004, false)])
            == "\x1b[?1006l\x1b[?1004l".spec_bytes(),
{
    reveal_with_fuel(bytes::decimal, 5);
    lemma_modes_text(25, 7, true);
    lemma_mode_bytes(25, true);
    lemma_mode_bytes(7, true);
    reveal_strlit("\x1b[?25h\x1b[?7h");
    is_ascii_chars_encode_utf8("\x1b[?25h\x1b[?7h"@);
    assert(bytes::decimal(25) =~= seq![0x32u8, 0x35]);
    assert(bytes::decimal(7) =~= seq![0x37u8]);
    assert("\x1b[?25h\x1b[?7h".spec_bytes() =~= render::dec_mode(25, true) + render::dec_mode(7, true));
    lemma_modes_text(1, 2004, false);
    lemma_mode_bytes(1, false);
    lemma_mode_bytes(2004, false);
    reveal_strlit("\x1b[?1l\x1b[?2004l");
    is_ascii_chars_encode_utf8("\x1b[?1l\x1b[?2004l"@);
    assert(bytes::decimal(1) =~= seq![0x31u8]);
    assert(bytes::decimal(2004) =~= seq![0x32u8, 0x30, 0x30, 0x34]);
    assert("\x1b[?1l\x1b[?2004l".spec_bytes() =~= render::dec_mode(1, false) + render::dec_mode(2004, false));
    lemma_modes_text(1000, 1002, false);
    lemma_mode_bytes(1000, false);
    lemma_mode_bytes(1002, false);
    reveal_strlit("\x1b[?1000l\x1b[?1002l");
    is_ascii_chars_encode_utf8("\x1b[?1000l\x1b[?1002l"@);
    assert(bytes::decimal(1000) =~= seq![0x31u8, 0x30, 0x30, 0x30]);
    assert(bytes::decimal(1002) =~= seq![0x31u8, 0x30, 0x30, 0x32]);
    assert("\x1b[?1000l\x1b[?1002l".spec_bytes() =~= render::dec_mode(1000, false) + render::dec_mode(1002, false));
    lemma_modes_text(1003, 1005, false);
    lemma_mode_bytes(1003, false);
    lemma_mode_bytes(1005, false);
    reveal_strlit("\x1b[?1003l\x1b[?1005l");
    is_ascii_chars_encode_utf8("\x1b[?1003l\x1b[?1005l"@);
    assert(bytes::decimal(1003) =~= seq![0x31u8, 0x30, 0x30, 0x33]);
    assert(bytes::decimal(1005) =~= seq![0x31u8, 0x30, 0x30, 0x35]);
    assert("\x1b[?1003l\x1b[?1005l".spec_bytes() =~= render::dec_mode(1003, false) + render::dec_mode(1005, false));
    lemma_modes_text(1006, 1004, false);
    lemma_mode_bytes(1006, false);
    lemma_mode_bytes(1004, false);
    reveal_strlit("\x1b[?1006l\x1b[?1004l");
    is_ascii_chars_encode_utf8("\x1b[?1006l\x1b[?1004l"@);
    assert(bytes::decimal(1006) =~= seq![0x31u8, 0x30, 0x30, 0x36]);
    assert(bytes::decimal(1004) =~= seq![0x31u8, 0x30, 0x30, 0x34]);
    assert("\x1b[?1006l\x1b[?1004l".spec_bytes() =~= render::dec_mode(1006, false) + render::dec_mode(1004, false));
}

proof fn lemma_cleanup_end()
    ensures
        replay::events_text(seq![replay::dec_event(2026, false), replay::keypad_event(false)])
            == "\x1b[?2026l\x1b>".spec_bytes(),
        replay::events_text(
            seq![
                replay::shape_event(grid::CursorShape::Default),
                replay::control(seq![seq![0u16]], 'm'),
            ],
        ) == "\x1b[0 q\x1b[0m".spec_bytes(),
{
    let (a, b) = (replay::dec_event(2026, false), replay::keypad_event(false));
    let (c, d) = (
        replay::shape_event(grid::CursorShape::Default),
        replay::control(seq![seq![0u16]], 'm'),
    );
    replay::lemma_two_texts(a, b);
    replay::lemma_two_texts(c, d);
    replay::lemma_dec_text(2026, false);
    replay::lemma_shape_text(grid::CursorShape::Default);
    replay::lemma_groups_one(0);
    lemma_mode_bytes(2026, false);
    reveal_with_fuel(bytes::decimal, 5);
    reveal_strlit("\x1b[?2026l\x1b>");
    reveal_strlit("\x1b[0 q\x1b[0m");
    reveal_strlit("\x1b[");
    reveal_strlit(" q");
    is_ascii_chars_encode_utf8("\x1b[?2026l\x1b>"@);
    is_ascii_chars_encode_utf8("\x1b[0 q\x1b[0m"@);
    is_ascii_chars_encode_utf8("\x1b["@);
    is_ascii_chars_encode_utf8(" q"@);
    is_ascii_chars_encode_utf8(seq!['m']);
    assert("\x1b[".spec_bytes() =~= seq![0x1bu8, 0x5b]);
    assert(" q".spec_bytes() =~= seq![0x20u8, 0x71]);
    assert(bytes::decimal(2026) =~= seq![0x32u8, 0x30, 0x32, 0x36]);
    assert(bytes::decimal(0) =~= seq![0x30u8]);
    assert(replay::ascii('m') =~= seq![0x6du8]);
    assert(replay::event_text(b) =~= seq![0x1bu8, 0x3e]);
    assert(replay::event_text(c) =~= seq![0x1bu8, 0x5b, 0x30, 0x20, 0x71]);
    assert(replay::event_text(d) =~= seq![0x1bu8, 0x5b, 0x30, 0x6d]);
    assert("\x1b[?2026l\x1b>".spec_bytes() =~= replay::event_text(a) + replay::event_text(b));
    assert("\x1b[0 q\x1b[0m".spec_bytes() =~= replay::event_text(c) + replay::event_text(d));
}

/// What resets the terminal is the text of the events that do.
pub proof fn law_cleanup_is_text_of_events()
    ensures
        encode_utf8(cleanup_text()) == replay::events_text(restore::cleanup_events()),
{
    lemma_cleanup_modes();
    lemma_cleanup_end();
    let e1 = seq![replay::dec_event(25, true), replay::dec_event(7, true)];
    let e2 = seq![replay::dec_event(1, false), replay::dec_event(2004, false)];
    let e3 = seq![replay::dec_event(1000, false), replay::dec_event(1002, false)];
    let e4 = seq![replay::dec_event(1003, false), replay::dec_event(1005, false)];
    let e5 = seq![replay::dec_event(1006, false), replay::dec_event(1004, false)];
    let e6 = seq![replay::dec_event(2026, false), replay::keypad_event(false)];
    let e7 = seq![
        replay::shape_event(grid::CursorShape::Default),
        replay::control(seq![seq![0u16]], 'm'),
    ];
    replay::lemma_text_append(e1 + e2 + e3 + e4 + e5 + e6, e7);
    replay::lemma_text_append(e1 + e2 + e3 + e4 + e5, e6);
    replay::lemma_text_append(e1 + e2 + e3 + e4, e5);
    replay::lemma_text_append(e1 + e2 + e3, e4);
    replay::lemma_text_append(e1 + e2, e3);
    replay::lemma_text_append(e1, e2);
    lemma_cleanup_text();
}

proof fn lemma_cleanup_text()
    ensures
        encode_utf8(cleanup_text()) == "\x1b[?25h\x1b[?7h".spec_bytes()
            + "\x1b[?1l\x1b[?2004l".spec_bytes()
            + "\x1b[?1000l\x1b[?1002l".spec_bytes()
            + "\x1b[?1003l\x1b[?1005l".spec_bytes()
            + "\x1b[?1006l\x1b[?1004l".spec_bytes()
            + "\x1b[?2026l\x1b>".spec_bytes()
            + "\x1b[0 q\x1b[0m".spec_bytes(),
{
    reveal_strlit("\x1b[?25h\x1b[?7h");
    reveal_strlit("\x1b[?1l\x1b[?2004l");
    reveal_strlit("\x1b[?1000l\x1b[?1002l");
    reveal_strlit("\x1b[?1003l\x1b[?1005l");
    reveal_strlit("\x1b[?1006l\x1b[?1004l");
    reveal_strlit("\x1b[?2026l\x1b>");
    reveal_strlit("\x1b[0 q\x1b[0m");
    reveal_strlit("\x1b[?25h\x1b[?7h\x1b[?1l\x1b[?2004l\x1b[?1000l\x1b[?1002l\x1b[?1003l\x1b[?1005l\x1b[?1006l\x1b[?1004l\x1b[?2026l\x1b>\x1b[0 q\x1b[0m");
    let t1 = "\x1b[?25h\x1b[?7h"@;
    let t2 = "\x1b[?1l\x1b[?2004l"@;
    let t3 = "\x1b[?1000l\x1b[?1002l"@;
    let t4 = "\x1b[?1003l\x1b[?1005l"@;
    let t5 = "\x1b[?1006l\x1b[?1004l"@;
    let t6 = "\x1b[?2026l\x1b>"@;
    let t7 = "\x1b[0 q\x1b[0m"@;
    bytes::lemma_encode_append(t1, t2);
    bytes::lemma_encode_append(t1 + t2, t3);
    bytes::lemma_encode_append(t1 + t2 + t3, t4);
    bytes::lemma_encode_append(t1 + t2 + t3 + t4, t5);
    bytes::lemma_encode_append(t1 + t2 + t3 + t4 + t5, t6);
    bytes::lemma_encode_append(t1 + t2 + t3 + t4 + t5 + t6, t7);
    assert(cleanup_text() =~= t1 + t2 + t3 + t4 + t5 + t6 + t7);
}

/// A session in a list: its name and size.
pub open spec fn session_line(s: SessionInfo) -> Seq<char> {
    s.name@ + " ("@ + text::decimal_text(s.cols as nat) + "x"@ + text::decimal_text(s.rows as nat)
        + ")"@
}

/// Write a session in a list.
fn format_session(s: &SessionInfo) -> (res: String)
    ensures
        res@ == session_line(*s),
{
    let mut res: String = s.name.clone();
    res.append(" (");
    push_decimal(&mut res, s.cols as u64);
    res.append("x");
    push_decimal(&mut res, s.rows as u64);
    res.append(")");
    res
}

/// Sessions as lines.
pub open spec fn session_lines(list: Seq<SessionInfo>) -> Seq<Seq<char>> {
    if list.len() == 0 {
        seq!["No active sessions"@]
    } else {
        list.map_values(|s: SessionInfo| session_line(s))
    }
}

/// What lines of text say.
pub open spec fn texts_view(lines: Seq<String>) -> Seq<Seq<char>> {
    lines.map_values(|l: String| l@)
}

/// The lines that the answer to a request for the list of sessions is shown as.
/// Without an answer, because no server is running, there are no sessions; an
/// answer that does not belong here is shown as nothing.
pub fn list_lines(reply: Option<ServerMsg>) -> (res: Vec<String>)
    ensures
        texts_view(res@) == (match reply {
            None => session_lines(seq![]),
            Some(ServerMsg::SessionList(list)) => session_lines(list@),
            Some(_) => seq![],
        }),
{
    let mut res: Vec<String> = Vec::new();
    match reply {
        Some(ServerMsg::SessionList(list)) => {
            while res.len() < list.len()
                invariant
                    res@.len() <= list@.len(),
                    forall|i: int|
                        0 <= i < res@.len() ==> #[trigger] res@[i]@ == session_line(list@[i]),
                decreases list@.len() - res@.len(),
            {
                res.push(format_session(&list[res.len()]));
            }
            if list.len() == 0 {
                res.push("No active sessions".to_owned());
            }
            assert(texts_view(res@) =~= session_lines(list@));
        },
        None => {
            res.push("No active sessions".to_owned());
            assert(texts_view(res@) =~= session_lines(seq![]));
        },
        Some(_) => {
            assert(texts_view(res@) =~= seq![]);
        },
    }
    res
}

/// The line that the answer to a request to kill a session is shown as; none for an
/// answer that does not belong here.
pub fn kill_line(msg: &ServerMsg) -> (res: Option<String>)
    ensures
        notice_view(res) == (match *msg {
            ServerMsg::SessionKilled { name } => Some("killed session '"@ + name@ + "'"@),
            ServerMsg::Error(e) => Some("error: "@ + e@),
            _ => None,
        }),
{
    match msg {
        ServerMsg::SessionKilled { name } => Some(concat3("killed session '", name.as_str(), "'")),
        ServerMsg::Error(e) => {
            let mut line: String = "error: ".to_owned();
            line.append(e.as_str());
            Some(line)
        },
        _ => None,
    }
}

/// Lines are shown in order, each followed by CR LF.
pub proof fn law_lines_are_ended(lines: Seq<Seq<u8>>, line: Seq<u8>)
    ensures
        lines_shown(seq![]) == Seq::<u8>::empty(),
        lines_shown(lines.push(line)) == lines_shown(lines) + line + seq![0x0du8, 0x0a],
{
    reveal_strlit("\r\n");
    is_ascii_chars_encode_utf8("\r\n"@);
    assert("\r\n".spec_bytes() =~= seq![0x0du8, 0x0a]);
    assert(lines.push(line).drop_last() =~= lines);
}

/// What reaches the terminal of each message: the bytes of an update or of what passes
/// through as they are, lines ended, and nothing of other messages.
pub proof fn law_message_bytes(data: Vec<u8>, lines: Vec<Vec<u8>>, msg: ServerMsg)
    ensures
        stdout_of(ServerMsg::ScreenUpdate(data)) == data@,
        stdout_of(ServerMsg::Passthrough(data)) == data@,
        stdout_of(ServerMsg::ScrollbackLine(data)) == data@ + "\r\n".spec_bytes(),
        stdout_of(ServerMsg::History(lines)) == lines_shown(bytes::lines_view(lines@)),
        msg is SessionList || msg is SessionEnded || msg is Error || msg is Connected
            || msg is SessionKilled ==> stdout_of(msg).len() == 0,
{
}

/// What the user is told, and when output is flushed: at the end of a session, on an
/// error, and for what passes through.
pub proof fn law_notices(text: String, name: String, msg: ServerMsg)
    ensures
        notice_of(ServerMsg::SessionEnded) == Some("[retach: session ended]"@),
        notice_of(ServerMsg::Error(text)) == Some("[retach error: "@ + text@ + "]"@),
        !(msg is SessionEnded) && !(msg is Error) ==> notice_of(msg) is None,
        flushes(msg) <==> msg is SessionEnded || msg is Error || msg is Passthrough,
        handshake_notice(ServerMsg::Connected { name, new_session: true })
            == "[retach: new session '"@ + name@ + "' (detach: Ctrl+\\)]"@,
        handshake_notice(ServerMsg::Connected { name, new_session: false })
            == "[retach: reattached to '"@ + name@ + "' (detach: Ctrl+\\)]"@,
        handshake_notice(ServerMsg::Error(text)) == "[retach error: "@ + text@ + "]"@,
        !(msg is Connected) && !(msg is Error) ==> handshake_notice(msg)
            == "[retach: unexpected response from server]"@,
{
}

/// Sessions are listed one in a line, in order, each by name, columns and rows; without any
/// there is a line that says so.
pub proof fn law_session_lines(list: Seq<SessionInfo>, i: int)
    requires
        0 <= i < list.len(),
    ensures
        session_lines(list).len() == list.len(),
        session_lines(list)[i] == list[i].name@ + " ("@ + text::decimal_text(list[i].cols as nat)
            + "x"@ + text::decimal_text(list[i].rows as nat) + ")"@,
        session_lines(seq![]) == seq!["No active sessions"@],
{
}

/// The bytes that leave the terminal as it was: a visible cursor, and all that a session
/// may have switched on switched off.
pub proof fn law_cleanup_text()
    ensures
        cleanup_text()
            == "\x1b[?25h\x1b[?7h\x1b[?1l\x1b[?2004l\x1b[?1000l\x1b[?1002l\x1b[?1003l\x1b[?1005l\x1b[?1006l\x1b[?1004l\x1b[?2026l\x1b>\x1b[0 q\x1b[0m"@,
{
}

} // verus!
