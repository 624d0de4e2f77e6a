use retach::cli::{generate_name, parse_history, Cli, Command, Task};
use retach::client::input::{resize_messages, terminal_size_or_default};
use retach::client::launcher::{LaunchAction, Launcher};
use retach::client::output::{
    cleanup_terminal, dispatch_server_msg, handshake, kill_line, list_lines,
};
use retach::client::StdinFilter;
use retach::protocol::{ClientMsg, ConnectMode, ServerMsg, SessionInfo};

#[test]
fn plain_input_passes() {
    let mut filter = StdinFilter::new();
    let step = filter.feed(b"hello");
    assert_eq!(step.input, b"hello");
    assert_eq!(step.refreshes, 0);
    assert!(!step.detach);
}

#[test]
fn detach_key_ends_input() {
    let mut filter = StdinFilter::new();
    let step = filter.feed(b"ab\x1ccd");
    assert!(step.detach);
    assert_eq!(step.input, b"ab");
    let step = StdinFilter::new().feed(b"\x1c");
    assert!(step.detach);
    assert!(step.input.is_empty());
}

#[test]
fn focus_events_are_filtered() {
    let mut filter = StdinFilter::new();
    let step = filter.feed(b"a\x1b[Ib\x1b[Oc\x1b[A\x1bx\x1b[I");
    assert_eq!(step.refreshes, 2);
    assert_eq!(step.input, b"abc\x1b[A\x1bx");
    assert!(filter.finish().is_empty());
}

#[test]
fn split_focus_event_is_carried() {
    let mut filter = StdinFilter::new();
    let step = filter.feed(b"a\x1b");
    assert_eq!(step.input, b"a");
    let step = filter.feed(b"[");
    assert!(step.input.is_empty());
    let step = filter.feed(b"Ib");
    assert_eq!(step.refreshes, 1);
    assert_eq!(step.input, b"b");
    filter.feed(b"\x1b[");
    let step = filter.feed(b"A");
    assert_eq!(step.input, b"\x1b[A");
    filter.feed(b"\x1b");
    assert_eq!(filter.finish(), b"\x1b");
}

#[test]
fn resize_asks_for_redraw() {
    let messages = resize_messages(100, 30);
    assert_eq!(messages.len(), 2);
    assert!(matches!(messages[0], ClientMsg::Resize { cols: 100, rows: 30 }));
    assert!(matches!(messages[1], ClientMsg::RefreshScreen));
    assert_eq!(terminal_size_or_default(None), (80, 24));
    assert_eq!(terminal_size_or_default(Some((100, 30))), (100, 30));
}

#[test]
fn server_messages_are_shown() {
    let shown = dispatch_server_msg(&ServerMsg::ScrollbackLine(b"line".to_vec()));
    assert_eq!(shown.stdout, b"line\r\n");
    assert!(!shown.flush && !shown.done && shown.notice.is_none());
    let shown = dispatch_server_msg(&ServerMsg::ScreenUpdate(b"data".to_vec()));
    assert_eq!(shown.stdout, b"data");
    let shown = dispatch_server_msg(&ServerMsg::Passthrough(b"\x07".to_vec()));
    assert_eq!(shown.stdout, b"\x07");
    assert!(shown.flush && !shown.done);
    let shown = dispatch_server_msg(&ServerMsg::History(vec![b"a".to_vec(), b"b".to_vec()]));
    assert_eq!(shown.stdout, b"a\r\nb\r\n");
    let shown = dispatch_server_msg(&ServerMsg::SessionEnded);
    assert_eq!(shown.notice.unwrap(), "[retach: session ended]");
    assert!(shown.flush && shown.done && shown.stdout.is_empty());
    let shown = dispatch_server_msg(&ServerMsg::Error("evicted by new client".into()));
    assert_eq!(shown.notice.unwrap(), "[retach error: evicted by new client]");
    assert!(shown.done);
    let shown = dispatch_server_msg(&ServerMsg::SessionList(vec![]));
    assert!(!shown.done && shown.notice.is_none() && shown.stdout.is_empty());
}

#[test]
fn handshake_tells_the_user() {
    let (text, ok) = handshake(&ServerMsg::Connected { name: "s".into(), new_session: true });
    assert_eq!(text, "[retach: new session 's' (detach: Ctrl+\\)]");
    assert!(ok);
    let (text, ok) = handshake(&ServerMsg::Connected { name: "s".into(), new_session: false });
    assert_eq!(text, "[retach: reattached to 's' (detach: Ctrl+\\)]");
    assert!(ok);
    let (text, ok) = handshake(&ServerMsg::Error("no".into()));
    assert_eq!(text, "[retach error: no]");
    assert!(!ok);
    let (text, ok) = handshake(&ServerMsg::SessionEnded);
    assert_eq!(text, "[retach: unexpected response from server]");
    assert!(!ok);
}

#[test]
fn cleanup_resets_terminal() {
    let bytes = cleanup_terminal();
    let parts: Vec<&[u8]> = vec![
        b"\x1b[?25h",
        b"\x1b[?7h",
        b"\x1b[?1l",
        b"\x1b[?2004l",
        b"\x1b[?1000l",
        b"\x1b[?1002l",
        b"\x1b[?1003l",
        b"\x1b[?1005l",
        b"\x1b[?1006l",
        b"\x1b[?1004l",
        b"\x1b[?2026l",
        b"\x1b>",
        b"\x1b[0 q",
        b"\x1b[0m",
    ];
    assert_eq!(bytes, parts.concat());
}

#[test]
fn lists_and_kills_are_printed() {
    assert_eq!(list_lines(None), vec!["No active sessions"]);
    assert_eq!(list_lines(Some(ServerMsg::SessionList(vec![]))), vec!["No active sessions"]);
    let info = SessionInfo { name: "s".into(), pid: 1, cols: 80, rows: 24 };
    assert_eq!(list_lines(Some(ServerMsg::SessionList(vec![info.clone()]))), vec!["s (80x24)"]);
    assert!(list_lines(Some(ServerMsg::SessionEnded)).is_empty());
    assert_eq!(
        kill_line(&ServerMsg::SessionKilled { name: "s".into() }).unwrap(),
        "killed session 's'"
    );
    assert_eq!(kill_line(&ServerMsg::Error("e".into())).unwrap(), "error: e");
    assert!(kill_line(&ServerMsg::SessionEnded).is_none());
}

#[test]
fn launcher_starts_the_server_once() {
    let mut launcher = Launcher::new();
    assert_eq!(launcher.on_attempt(true), LaunchAction::Ready);
    assert_eq!(launcher.on_attempt(false), LaunchAction::Spawn);
    for _ in 0..49 {
        assert_eq!(launcher.on_attempt(false), LaunchAction::Retry);
    }
    assert_eq!(launcher.on_attempt(false), LaunchAction::GiveUp);
    assert_eq!(launcher.on_attempt(true), LaunchAction::Ready);
}

#[test]
fn history_sizes_are_checked() {
    assert_eq!(parse_history("0"), Ok(0));
    assert_eq!(parse_history("+10000"), Ok(10000));
    assert_eq!(parse_history("1000000"), Ok(1000000));
    for bad in ["", "+", "-1", "12x", "99999999999999999999999", "99999999999999999999999x"] {
        assert_eq!(parse_history(bad), bad.parse::<usize>().map_err(|e| e.to_string()));
    }
    assert_eq!(
        parse_history("1000001"),
        Err("history size must be at most 1000000".to_string())
    );
}

#[test]
fn names_are_hexadecimal() {
    assert_eq!(generate_name(0), "s-0000000000000000");
    assert_eq!(generate_name(0xfedc_ba98_7654_3210), "s-fedcba9876543210");
}

#[test]
fn commands_become_tasks() {
    let task = Cli { command: Command::Open { name: "s".into(), history: 5 } }.task(0);
    assert!(matches!(
        task,
        Task::Connect { name, history: 5, mode: ConnectMode::CreateOrAttach } if name == "s"
    ));
    let task = Cli { command: Command::New { name: None, history: 5 } }.task(1);
    assert!(matches!(
        task,
        Task::Connect { name, history: 5, mode: ConnectMode::CreateOnly }
            if name == "s-0000000000000001"
    ));
    let task = Cli { command: Command::New { name: Some("n".into()), history: 5 } }.task(1);
    assert!(matches!(task, Task::Connect { name, .. } if name == "n"));
    let task = Cli { command: Command::Attach { name: "s".into() } }.task(0);
    assert!(matches!(
        task,
        Task::Connect { name, history: 0, mode: ConnectMode::AttachOnly } if name == "s"
    ));
    assert!(matches!(Cli { command: Command::List }.task(0), Task::List));
    let task = Cli { command: Command::Kill { name: "k".into() } }.task(0);
    assert!(matches!(task, Task::Kill { name } if name == "k"));
    assert!(matches!(Cli { command: Command::Server }.task(0), Task::Serve));
}
