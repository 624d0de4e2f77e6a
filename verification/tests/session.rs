use retach::protocol::{ConnectMode, ServerMsg};
use retach::screen::Screen;
use retach::server::session_bridge::{clears_client, RelayAction};
use retach::session::{
    is_child_alive, reader_step, Attached, ChildPoll, Session, SessionError, SessionManager,
};

#[test]
fn session_manager_create_and_list() {
    let mut mgr = SessionManager::new();
    mgr.create("test1".into(), 80, 24, 1000).unwrap();
    let list = mgr.list();
    assert_eq!(list.len(), 1);
    assert_eq!(list[0].name, "test1");
}

#[test]
fn session_manager_duplicate_create_fails() {
    let mut mgr = SessionManager::new();
    mgr.create("test".into(), 80, 24, 1000).unwrap();
    assert!(mgr.create("test".into(), 80, 24, 1000).is_err());
}

#[test]
fn session_manager_get_or_create() {
    let mut mgr = SessionManager::new();
    let (session, is_new) = mgr.get_or_create("test", 80, 24, 1000).unwrap();
    assert_eq!(session.name, "test");
    assert!(is_new);
    // Should return existing session
    let (session, is_new) = mgr.get_or_create("test", 80, 24, 1000).unwrap();
    assert_eq!(session.name, "test");
    assert!(!is_new);
    assert_eq!(mgr.list().len(), 1);
}

#[test]
fn session_manager_remove() {
    let mut mgr = SessionManager::new();
    mgr.create("test".into(), 80, 24, 1000).unwrap();
    assert!(mgr.remove("test").is_some());
    assert!(mgr.remove("test").is_none());
    assert_eq!(mgr.list().len(), 0);
}

#[test]
fn session_manager_get_or_create_zero_dimensions() {
    let mut mgr = SessionManager::new();
    let (session, is_new) = mgr.get_or_create("test", 0, 0, 1000).unwrap();
    // Should clamp to 80x24 defaults
    let (cols, rows) = session.dims;
    assert_eq!(cols, 80);
    assert_eq!(rows, 24);
    assert!(is_new);
}

#[test]
fn list_shows_dimensions_and_process() {
    let mut mgr = SessionManager::new();
    mgr.create("a".into(), 100, 30, 10).unwrap();
    mgr.create("b".into(), 50, 20, 10).unwrap();
    let session = mgr.get("b").unwrap();
    session.pid = Some(1234);
    session.dims = (60, 25);
    assert!(mgr.get("c").is_none());
    let list = mgr.list();
    assert_eq!((list[0].pid, list[0].cols, list[0].rows), (0, 100, 30));
    assert_eq!((list[1].pid, list[1].cols, list[1].rows), (1234, 60, 25));
}

#[test]
fn dead_sessions_are_taken_out() {
    let mut mgr = SessionManager::new();
    for name in ["a", "b", "c", "d"] {
        mgr.create(name.into(), 80, 24, 10).unwrap();
    }
    mgr.get("b").unwrap().child = ChildPoll::Exited;
    mgr.get("c").unwrap().child = ChildPoll::Busy;
    mgr.get("d").unwrap().child = ChildPoll::Poisoned;
    let dead: Vec<String> = mgr.take_dead_sessions().into_iter().map(|s| s.name).collect();
    assert_eq!(dead, vec!["b", "d"]);
    let left: Vec<String> = mgr.list().into_iter().map(|s| s.name).collect();
    assert_eq!(left, vec!["a", "c"]);
    assert!(mgr.take_dead_sessions().is_empty());
}

#[test]
fn child_is_alive_unless_it_exited() {
    assert!(is_child_alive(ChildPoll::Running));
    assert!(is_child_alive(ChildPoll::Busy));
    assert!(is_child_alive(ChildPoll::WaitFailed));
    assert!(!is_child_alive(ChildPoll::Exited));
    assert!(!is_child_alive(ChildPoll::Poisoned));
    let mut session = Session::new("s".into(), 80, 24, 5);
    assert!(session.is_alive());
    assert_eq!(session.child_pid(), None);
    session.child = ChildPoll::Exited;
    session.pid = Some(7);
    assert!(!session.is_alive());
    assert_eq!(session.child_pid(), Some(7));
}

#[test]
fn connect_follows_its_mode() {
    let mut mgr = SessionManager::new();
    match mgr.connect("s", 80, 24, 10, ConnectMode::AttachOnly) {
        Err(e) => assert_eq!(e.to_text(), "session 's' not found"),
        Ok(_) => panic!("there is nothing to attach to"),
    }
    assert!(mgr.connect("s", 0, 50, 10, ConnectMode::CreateOrAttach).unwrap().is_new);
    assert_eq!(mgr.get("s").unwrap().dims, (80, 50));
    assert!(!mgr.connect("s", 1, 1, 10, ConnectMode::CreateOrAttach).unwrap().is_new);
    assert!(!mgr.connect("s", 1, 1, 10, ConnectMode::AttachOnly).unwrap().is_new);
    assert_eq!(mgr.get("s").unwrap().dims, (80, 50));
    match mgr.connect("s", 80, 24, 10, ConnectMode::CreateOnly) {
        Err(SessionError::AlreadyExists(name)) => assert_eq!(name, "s"),
        other => panic!("expected AlreadyExists, got {:?}", other),
    }
    assert!(mgr.connect("t", 0, 0, 10, ConnectMode::CreateOnly).unwrap().is_new);
    assert_eq!(mgr.get("t").unwrap().dims, (0, 0));
    assert_eq!(
        SessionError::AlreadyExists("s".to_string()).to_text(),
        "session 's' already exists"
    );
}

#[test]
fn kill_answers_with_the_name_or_an_error() {
    let mut mgr = SessionManager::new();
    mgr.create("s".into(), 80, 24, 10).unwrap();
    let (session, reply) = mgr.kill("s".into());
    assert_eq!(session.unwrap().name, "s");
    assert!(matches!(reply, ServerMsg::SessionKilled { name } if name == "s"));
    let (session, reply) = mgr.kill("s".into());
    assert!(session.is_none());
    assert!(matches!(reply, ServerMsg::Error(text) if text == "session 's' not found"));
}

#[test]
fn reader_step_replies_and_drains_without_client() {
    let mut screen = Screen::new(10, 2, 100);
    let replies = reader_step(&mut screen, b"a\r\nb\r\nc\x07\x1b[6n", true);
    assert_eq!(replies, vec![b"\x1b[2;2R".to_vec()]);
    assert_eq!(screen.take_pending_scrollback(), vec![b"a".to_vec()]);
    assert_eq!(screen.take_passthrough(), vec![vec![7u8]]);
    let replies = reader_step(&mut screen, b"\r\nd\x07", false);
    assert!(replies.is_empty());
    assert!(screen.take_pending_scrollback().is_empty());
    assert!(screen.take_passthrough().is_empty());
    assert_eq!(screen.get_history(), vec![b"a".to_vec(), b"b".to_vec()]);
}

#[test]
fn attaching_evicts_the_client_before() {
    let mut mgr = SessionManager::new();
    let first = mgr.connect("s", 80, 24, 10, ConnectMode::CreateOnly).unwrap();
    assert_eq!(first, Attached { is_new: true, evicts: false });
    assert!(mgr.get("s").unwrap().has_client);
    let second = mgr.connect("s", 80, 24, 10, ConnectMode::AttachOnly).unwrap();
    assert_eq!(second, Attached { is_new: false, evicts: true });
    // The relay of the first one ends: the mark stays
    assert!(!clears_client(Some(RelayAction::SendEvicted), true));
    assert!(mgr.get("s").unwrap().has_client);
    // The second one leaves by itself: the mark goes
    assert!(clears_client(None, false));
    mgr.get("s").unwrap().has_client = false;
    let third = mgr.connect("s", 80, 24, 10, ConnectMode::CreateOrAttach).unwrap();
    assert_eq!(third, Attached { is_new: false, evicts: true });
    assert!(mgr.get("s").unwrap().has_client);
    // A refused request attaches nobody
    assert!(mgr.create("t".into(), 80, 24, 10).is_ok());
    assert!(mgr.connect("t", 80, 24, 10, ConnectMode::CreateOnly).is_err());
    assert!(!mgr.get("t").unwrap().has_client);
    let only = mgr.connect("t", 80, 24, 10, ConnectMode::AttachOnly).unwrap();
    assert_eq!(only, Attached { is_new: false, evicts: false });
}

#[test]
fn new_session_has_no_client() {
    let mut session = Session::new("s".into(), 80, 24, 5);
    assert!(!session.has_client);
    assert!(!session.attach());
    assert!(session.has_client);
    assert!(session.attach());
}
