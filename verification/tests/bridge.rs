use retach::protocol::{ClientMsg, ConnectMode};
use retach::screen::{RenderCache, Screen};
use retach::server::client_handler::{first_request, Request};
use retach::server::session_bridge::{
    clears_client, client_action, history_chunks, initial_state, prepend_passthrough, reattach,
    screen_update, ClientAction, Reattach, Relay, RelayAction, RelayEvent,
};
use retach::server::socket::{judge_dir, lock_path, socket_dir, socket_path, DirVerdict};

#[test]
fn prepend_passthrough_empty() {
    let render = b"render-data".to_vec();
    let result = prepend_passthrough(vec![], render.clone());
    assert_eq!(result, render);
}

#[test]
fn prepend_passthrough_single() {
    let pt = vec![b"\x1b[3J".to_vec()];
    let render = b"\x1b[?2026hcontent\x1b[?2026l".to_vec();
    let result = prepend_passthrough(pt, render);
    assert_eq!(&result[..4], b"\x1b[3J");
    assert_eq!(&result[4..], b"\x1b[?2026hcontent\x1b[?2026l");
}

#[test]
fn prepend_passthrough_multiple() {
    let pt = vec![vec![0x07], b"\x1b[3J".to_vec()];
    let render = b"screen".to_vec();
    let result = prepend_passthrough(pt, render);
    assert_eq!(result, b"\x07\x1b[3Jscreen");
}

/// ED mode 3 passthrough is prepended to the render buffer,
/// ensuring the terminal processes clear + redraw atomically.
#[test]
fn ed3_included_in_screen_update() {
    let mut screen = Screen::new(80, 24, 100);
    screen.process(b"hello world");
    screen.process(b"\x1b[3J");

    let passthrough = screen.take_passthrough();
    assert_eq!(passthrough.len(), 1);
    assert_eq!(passthrough[0], b"\x1b[3J");

    let mut cache = RenderCache::new();
    let render_data = screen.render(true, &mut cache);

    let combined = prepend_passthrough(passthrough, render_data.clone());
    assert!(combined.starts_with(b"\x1b[3J"), "passthrough should prefix screen data");
    assert_eq!(&combined[4..], &render_data[..]);
}

#[test]
fn reattach_resizes_or_nudges() {
    assert_eq!(reattach(true, (80, 24), 100, 30), Reattach::Keep);
    assert_eq!(reattach(false, (80, 24), 100, 30), Reattach::Resize { cols: 100, rows: 30 });
    assert_eq!(reattach(false, (80, 24), 80, 24), Reattach::Nudge { cols: 80, rows: 24 });
    assert_eq!(reattach(false, (80, 24), 0, 24), Reattach::Resize { cols: 1, rows: 24 });
}

#[test]
fn initial_state_flushes_history() {
    let mut screen = Screen::new(10, 3, 100);
    let mut cache = RenderCache::new();
    let (history, data) = initial_state(&screen, &mut cache);
    assert!(history.is_empty());
    assert!(data.starts_with(b"\x1b[?2026h"));
    screen.process(b"one\r\ntwo\r\nthree\r\nfour");
    let mut cache = RenderCache::new();
    let (history, data) = initial_state(&screen, &mut cache);
    assert_eq!(history, vec![b"one".to_vec()]);
    assert!(data.starts_with(b"\x1b[3;1H\n\n\x1b[?2026h"));
    // The history does not belong to the alternate screen
    screen.process(b"\x1b[?1049h");
    let mut cache = RenderCache::new();
    let (history, data) = initial_state(&screen, &mut cache);
    assert!(history.is_empty());
    assert!(data.starts_with(b"\x1b[?2026h"));
}

#[test]
fn history_is_split_into_chunks() {
    assert!(history_chunks(vec![]).is_empty());
    let small: Vec<Vec<u8>> = vec![b"a".to_vec(), Vec::new(), b"c".to_vec()];
    assert_eq!(history_chunks(small.clone()), vec![small]);
    let big = vec![b'x'; 3 * 1024 * 1024];
    let lines: Vec<Vec<u8>> = vec![big; 5];
    let chunks = history_chunks(lines.clone());
    let sizes: Vec<usize> = chunks.iter().map(|c| c.len()).collect();
    assert_eq!(sizes, vec![2, 2, 1]);
    assert_eq!(chunks.concat(), lines);
    // A line over the limit is sent alone
    let huge = vec![b'x'; 9 * 1024 * 1024];
    let chunks = history_chunks(vec![b"a".to_vec(), huge, b"b".to_vec()]);
    let sizes: Vec<usize> = chunks.iter().map(|c| c.len()).collect();
    assert_eq!(sizes, vec![1, 1, 1]);
}

#[test]
fn screen_update_takes_what_is_pending() {
    let mut screen = Screen::new(10, 2, 100);
    let mut cache = RenderCache::new();
    screen.process(b"one\r\ntwo\r\nthree\x07");
    let update = screen_update(&mut screen, &mut cache);
    assert!(update.starts_with(b"\x07\x1b[?25l\x1b[r\x1b[1;1H\x1b[0mone\x1b[K"));
    // Nothing is left for a second update but the cursor
    let update = screen_update(&mut screen, &mut cache);
    assert_eq!(update, b"\x1b[?2026h\x1b[?25l\x1b[2;6H\x1b[?25h\x1b[?2026l");
}

#[test]
fn relay_spaces_out_updates() {
    let (mut relay, action) = Relay::start(true);
    assert_eq!(action, RelayAction::Wait);
    assert_eq!(relay.on(RelayEvent::TimerElapsed), RelayAction::Wait);
    let alive = RelayEvent::Notified { reader_alive: true };
    assert_eq!(relay.on(alive), RelayAction::StartTimer);
    assert_eq!(relay.on(RelayEvent::RefreshRequested), RelayAction::SendFull);
    assert_eq!(relay.on(alive), RelayAction::StartTimer);
    assert_eq!(relay.on(RelayEvent::TimerElapsed), RelayAction::SendUpdate);
    assert_eq!(relay.on(RelayEvent::TimerElapsed), RelayAction::Wait);
    let ended = relay.on(RelayEvent::Notified { reader_alive: false });
    assert_eq!(ended, RelayAction::SendUpdateAndEnd);
    assert!(ended.ends());
    let evicted = relay.on(RelayEvent::Evicted);
    assert_eq!(evicted, RelayAction::SendEvicted);
    assert!(evicted.ends());
    assert!(!RelayAction::SendUpdate.ends());
    let (_, action) = Relay::start(false);
    assert_eq!(action, RelayAction::SendFullAndEnd);
    assert!(action.ends());
    assert!(clears_client(Some(RelayAction::SendUpdateAndEnd), false));
    assert!(clears_client(None, false));
    assert!(!clears_client(None, true));
    assert!(!clears_client(Some(RelayAction::SendEvicted), true));
    assert!(clears_client(Some(RelayAction::SendFullAndEnd), true));
}

#[test]
fn client_messages_become_actions() {
    assert!(matches!(client_action(ClientMsg::Input(vec![1, 2])), ClientAction::Write(d) if d == [1, 2]));
    assert!(matches!(
        client_action(ClientMsg::Resize { cols: 0, rows: 5 }),
        ClientAction::Resize { cols: 1, rows: 5 }
    ));
    assert!(matches!(client_action(ClientMsg::RefreshScreen), ClientAction::Refresh));
    assert!(matches!(client_action(ClientMsg::Detach), ClientAction::Detach));
    assert!(matches!(client_action(ClientMsg::ListSessions), ClientAction::Ignore));
}

#[test]
fn first_message_is_routed() {
    let connect = ClientMsg::Connect {
        name: "s".into(),
        history: 5,
        cols: 80,
        rows: 24,
        mode: ConnectMode::AttachOnly,
    };
    match first_request(connect, vec![9]) {
        Request::Session(req) => {
            assert_eq!(req.name, "s");
            assert_eq!((req.history, req.cols, req.rows), (5, 80, 24));
            assert_eq!(req.leftover, vec![9]);
            assert_eq!(req.mode, ConnectMode::AttachOnly);
        }
        _ => panic!("expected a session request"),
    }
    assert!(matches!(first_request(ClientMsg::ListSessions, vec![]), Request::List));
    let kill = ClientMsg::KillSession { name: "k".into() };
    assert!(matches!(first_request(kill, vec![]), Request::Kill(name) if name == "k"));
    match first_request(ClientMsg::Detach, vec![]) {
        Request::Refused(text) => {
            assert_eq!(text, "expected Connect, ListSessions, or KillSession")
        }
        _ => panic!("expected a refusal"),
    }
}

#[test]
fn socket_path_ends_with_sock() {
    let path = std::path::PathBuf::from(socket_path(&socket_dir(None, 1000)));
    assert!(
        path.ends_with("retach.sock"),
        "socket_path should end with 'retach.sock', got: {:?}",
        path
    );
}

#[test]
fn socket_dir_prefers_runtime_dir() {
    assert_eq!(socket_dir(Some("/run/user/1000".into()), 1000), "/run/user/1000/retach");
    assert_eq!(socket_dir(Some("/run/".into()), 1000), "/run/retach");
    assert_eq!(socket_dir(Some("".into()), 1000), "retach");
    assert_eq!(socket_dir(None, 1000), "/tmp/retach-1000");
    assert_eq!(socket_dir(None, 0), "/tmp/retach-0");
    assert_eq!(socket_path("/tmp/retach-0"), "/tmp/retach-0/retach.sock");
    assert_eq!(lock_path("/tmp/retach-0"), "/tmp/retach-0/retach.lock");
}

#[test]
fn socket_dir_must_be_private() {
    assert_eq!(judge_dir(false, 5, 5, 0o40700), DirVerdict::Accept);
    assert_eq!(judge_dir(false, 5, 5, 0o40755), DirVerdict::FixPermissions);
    assert_eq!(judge_dir(false, 6, 5, 0o40700), DirVerdict::WrongOwner);
    assert_eq!(judge_dir(true, 5, 5, 0o120777), DirVerdict::Symlink);
}
