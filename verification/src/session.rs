//! The registry of sessions.

use vstd::prelude::*;
use vstd::string::*;

use crate::protocol::{ConnectMode, ServerMsg, SessionInfo};
use crate::screen::Screen;
use crate::text::concat3;

verus! {

/// Columns of a session whose client does not know its size.
pub const DEFAULT_COLS: u16 = 80;

/// Rows of a session whose client does not know its size.
pub const DEFAULT_ROWS: u16 = 24;

/// What polling a child process gave.
#[derive(Copy, Clone, Debug, PartialEq, Eq, Structural)]
pub enum ChildPoll {
    /// It is still running.
    Running,
    /// It has exited.
    Exited,
    /// Its state could not be read.
    WaitFailed,
    /// Someone else holds its handle just now.
    Busy,
    /// Its handle is unusable: a holder of it crashed.
    Poisoned,
}

/// Check if a child process is still alive, as far as a poll tells. One that could
/// not be polled counts as alive; one whose handle is unusable does not.
pub fn is_child_alive(poll: ChildPoll) -> (res: bool)
    ensures
        res == (poll != ChildPoll::Exited && poll != ChildPoll::Poisoned),
{
    match poll {
        ChildPoll::Running | ChildPoll::WaitFailed => true,
        // Assume alive if contended
        ChildPoll::Busy => true,
        ChildPoll::Exited | ChildPoll::Poisoned => false,
    }
}

/// A single terminal session, as the registry knows it.
#[derive(Debug)]
pub struct Session {
    pub name: String,
    /// Columns and rows.
    pub dims: (u16, u16),
    /// Scrollback line limit.
    pub history: usize,
    /// The process of its shell, where that is known.
    pub pid: Option<u32>,
    /// What the last poll of its shell gave.
    pub child: ChildPoll,
    /// Whether a client is currently connected (used by reader to decide draining).
    pub has_client: bool,
    /// Whether a client has attached that the next one evicts. It stays so when that
    /// client leaves by itself: the notice then reaches nobody.
    pub evictable: bool,
}

impl Session {
    /// Create a new session.
    pub fn new(name: String, cols: u16, rows: u16, history: usize) -> (res: Self)
        ensures
            res.name == name,
            res.dims == (cols, rows),
            res.history == history,
            res.pid is None,
            res.child == ChildPoll::Running,
            !res.has_client,
            !res.evictable,
    {
        Session {
            name,
            dims: (cols, rows),
            history,
            pid: None,
            child: ChildPoll::Running,
            has_client: false,
            evictable: false,
        }
    }

    /// A session once a client has attached to it.
    pub open spec fn attached(self) -> Session {
        Session { has_client: true, evictable: true, ..self }
    }

    /// Attach a client. The session is marked as having one before another is told to
    /// leave, so that nothing meant for the new client is dropped. Tells whether there
    /// is one to evict.
    pub fn attach(&mut self) -> (evicts: bool)
        ensures
            *final(self) == old(self).attached(),
            evicts == old(self).evictable,
    {
        let evicts = self.evictable;
        self.has_client = true;
        self.evictable = true;
        evicts
    }

    /// Check if the session's child process is still alive.
    pub fn is_alive(&self) -> (res: bool)
        ensures
            res == self.alive(),
    {
        is_child_alive(self.child)
    }

    pub open spec fn alive(self) -> bool {
        self.child != ChildPoll::Exited && self.child != ChildPoll::Poisoned
    }

    /// Get the child process PID (if available).
    pub fn child_pid(&self) -> (res: Option<u32>)
        ensures
            res == self.pid,
    {
        self.pid
    }
}

/// Why a session could not be created or attached to.
#[derive(Debug)]
pub enum SessionError {
    /// There is a session of that name.
    AlreadyExists(String),
    /// There is no session of that name.
    NotFound(String),
}

impl SessionError {
    /// The error as text.
    pub open spec fn text(self) -> Seq<char> {
        match self {
            SessionError::AlreadyExists(name) => "session '"@ + name@ + "' already exists"@,
            SessionError::NotFound(name) => "session '"@ + name@ + "' not found"@,
        }
    }

    /// The error as text.
    pub fn to_text(&self) -> (res: String)
        ensures
            res@ == self.text(),
    {
        match self {
            SessionError::AlreadyExists(name) => concat3(
                "session '",
                name.as_str(),
                "' already exists",
            ),
            SessionError::NotFound(name) => concat3("session '", name.as_str(), "' not found"),
        }
    }
}

/// What became of a client that asked for a session.
#[derive(Copy, Clone, Debug, PartialEq, Eq, Structural)]
pub struct Attached {
    /// The session was created for it.
    pub is_new: bool,
    /// A client that attached before is evicted.
    pub evicts: bool,
}

/// Registry of named sessions with create, lookup, and cleanup operations.
pub struct SessionManager {
    pub sessions: Vec<Session>,
}

/// No two sessions have the same name.
pub open spec fn names_distinct(sessions: Seq<Session>) -> bool {
    forall|i: int, j: int|
        #![trigger sessions[i], sessions[j]]
        0 <= i < j < sessions.len() ==> sessions[i].name@ != sessions[j].name@
}

/// There is a session of that name.
pub open spec fn has_session(sessions: Seq<Session>, name: Seq<char>) -> bool {
    exists|i: int| 0 <= i < sessions.len() && #[trigger] sessions[i].name@ == name
}

/// A client is attached to the session of that name, and the next one evicts it.
pub open spec fn has_attached(sessions: Seq<Session>, name: Seq<char>) -> bool {
    exists|i: int|
        {
            &&& 0 <= i < sessions.len()
            &&& #[trigger] sessions[i].name@ == name
            &&& sessions[i].has_client
            &&& sessions[i].evictable
        }
}

/// The columns or rows of a new session: zero stands for the default.
pub open spec fn dimension(asked: u16, default: u16) -> u16 {
    if asked > 0 {
        asked
    } else {
        default
    }
}

/// What a list says of a session; an unknown process is zero.
pub open spec fn info_matches(info: SessionInfo, s: Session) -> bool {
    &&& info.name@ == s.name@
    &&& info.cols == s.dims.0
    &&& info.rows == s.dims.1
    &&& info.pid == (match s.pid {
        Some(pid) => pid,
        None => 0,
    })
}

impl SessionManager {
    /// The invariant of the registry.
    pub open spec fn wf(&self) -> bool {
        names_distinct(self.sessions@)
    }

    /// Create an empty session manager.
    pub fn new() -> (res: Self)
        ensures
            res.wf(),
            res.sessions@ == Seq::<Session>::empty(),
    {
        SessionManager { sessions: Vec::new() }
    }

    /// Where a session stands in the registry.
    pub fn position(&self, name: &str) -> (res: Option<usize>)
        ensures
            res is Some <==> has_session(self.sessions@, name@),
            res matches Some(i) ==> i < self.sessions@.len() && self.sessions@[i as int].name@
                == name@,
    {
        let wanted: String = name.to_owned();
        let mut i: usize = 0;
        while i < self.sessions.len()
            invariant
                i <= self.sessions@.len(),
                wanted@ == name@,
                forall|k: int| 0 <= k < i ==> #[trigger] self.sessions@[k].name@ != name@,
            decreases self.sessions@.len() - i,
        {
            if self.sessions[i].name == wanted {
                return Some(i);
            }
            i += 1;
        }
        None
    }

    /// Create a new session with the given name, failing if it already exists.
    pub fn create(&mut self, name: String, cols: u16, rows: u16, history: usize) -> (res: Result<
        (),
        SessionError,
    >)
        requires
            old(self).wf(),
        ensures
            final(self).wf(),
            res is Err <==> has_session(old(self).sessions@, name@),
            res matches Err(e) ==> {
                &&& e == SessionError::AlreadyExists(name)
                &&& final(self).sessions@ == old(self).sessions@
            },
            res is Ok ==> {
                &&& final(self).sessions@ == old(self).sessions@.push(
                    final(self).sessions@.last(),
                )
                &&& final(self).sessions@.last() == (Session {
                    name,
                    dims: (cols, rows),
                    history,
                    pid: None,
                    child: ChildPoll::Running,
                    has_client: false,
                    evictable: false,
                })
            },
    {
        if self.position(name.as_str()).is_some() {
            return Err(SessionError::AlreadyExists(name));
        }
        let session = Session::new(name, cols, rows, history);
        self.sessions.push(session);
        Ok(())
    }

    /// Get existing session or create a new one.
    /// Returns (session, is_new).
    pub fn get_or_create(
        &mut self,
        name: &str,
        cols: u16,
        rows: u16,
        history: usize,
    ) -> (res: Result<(&mut Session, bool), SessionError>)
        requires
            old(self).wf(),
        ensures
            res is Ok,
            res->Ok_0.1 == !has_session(old(self).sessions@, name@),
            res->Ok_0.0.name@ == name@,
            res->Ok_0.1 ==> {
                let s = res->Ok_0.0;
                &&& s.dims == (dimension(cols, DEFAULT_COLS), dimension(rows, DEFAULT_ROWS))
                &&& s.history == history
                &&& s.pid is None
                &&& s.child == ChildPoll::Running
                &&& !s.has_client
                &&& !s.evictable
                &&& final(self).sessions@ == old(self).sessions@.push(*final(s))
            },
            !res->Ok_0.1 ==> exists|i: int|
                {
                    &&& 0 <= i < old(self).sessions@.len()
                    &&& *res->Ok_0.0 == #[trigger] old(self).sessions@[i]
                    &&& final(self).sessions@ == old(self).sessions@.update(
                        i,
                        *final(res->Ok_0.0),
                    )
                },
    {
        match self.position(name) {
            Some(i) => Ok((&mut self.sessions[i], false)),
            None => {
                let c: u16 = if cols > 0 {
                    cols
                } else {
                    DEFAULT_COLS
                };
                let r: u16 = if rows > 0 {
                    rows
                } else {
                    DEFAULT_ROWS
                };
                let session = Session::new(name.to_owned(), c, r, history);
                let last: usize = self.sessions.len();
                self.sessions.push(session);
                proof {
                    let before = old(self).sessions@;
                    assert forall|s: Session| #[trigger]
                        self.sessions@.update(last as int, s) == before.push(s) by {
                        assert(self.sessions@.update(last as int, s) =~= before.push(s));
                    }
                }
                Ok((&mut self.sessions[last], true))
            },
        }
    }

    /// Get an existing session by name.
    pub fn get(&mut self, name: &str) -> (res: Option<&mut Session>)
        ensures
            res is Some <==> has_session(old(self).sessions@, name@),
            res matches Some(s) ==> exists|i: int|
                {
                    &&& 0 <= i < old(self).sessions@.len()
                    &&& s.name@ == name@
                    &&& *s == #[trigger] old(self).sessions@[i]
                    &&& final(self).sessions@ == old(self).sessions@.update(i, *final(s))
                },
            res is None ==> final(self).sessions@ == old(self).sessions@,
    {
        match self.position(name) {
            Some(i) => Some(&mut self.sessions[i]),
            None => None,
        }
    }

    /// Remove and return a session by name, or `None` if not found.
    pub fn remove(&mut self, name: &str) -> (res: Option<Session>)
        requires
            old(self).wf(),
        ensures
            final(self).wf(),
            !has_session(final(self).sessions@, name@),
            res is Some <==> has_session(old(self).sessions@, name@),
            res matches Some(s) ==> {
                &&& s.name@ == name@
                &&& exists|i: int|
                    {
                        &&& 0 <= i < old(self).sessions@.len()
                        &&& s == #[trigger] old(self).sessions@[i]
                        &&& final(self).sessions@ == old(self).sessions@.remove(i)
                    }
            },
            res is None ==> final(self).sessions@ == old(self).sessions@,
    {
        match self.position(name) {
            Some(i) => {
                let ghost before = self.sessions@;
                let s = self.sessions.remove(i);
                proof {
                    assert(s == before[i as int]);
                    assert forall|k: int| 0 <= k < self.sessions@.len() implies #[trigger]
                        self.sessions@[k].name@ != name@ by {
                        let at = if k < i {
                            k
                        } else {
                            k + 1
                        };
                        assert(self.sessions@[k] == before[at]);
                    }
                }
                Some(s)
            },
            None => None,
        }
    }

    /// Return metadata for all active sessions.
    pub fn list(&self) -> (res: Vec<SessionInfo>)
        ensures
            res@.len() == self.sessions@.len(),
            forall|i: int|
                0 <= i < res@.len() ==> info_matches(#[trigger] res@[i], self.sessions@[i]),
    {
        let mut res: Vec<SessionInfo> = Vec::new();
        while res.len() < self.sessions.len()
            invariant
                res@.len() <= self.sessions@.len(),
                forall|i: int|
                    0 <= i < res@.len() ==> info_matches(#[trigger] res@[i], self.sessions@[i]),
            decreases self.sessions@.len() - res@.len(),
        {
            let s = &self.sessions[res.len()];
            let pid: u32 = match s.child_pid() {
                Some(pid) => pid,
                None => 0,
            };
            res.push(SessionInfo { name: s.name.clone(), pid, cols: s.dims.0, rows: s.dims.1 });
        }
        res
    }

    /// Remove dead sessions and return them for cleanup outside the lock.
    pub fn take_dead_sessions(&mut self) -> (res: Vec<Session>)
        requires
            old(self).wf(),
        ensures
            final(self).wf(),
            res@ == old(self).sessions@.filter(|s: Session| !s.alive()),
            final(self).sessions@ == old(self).sessions@.filter(|s: Session| s.alive()),
    {
        let ghost before = self.sessions@;
        let mut rest: Vec<Session> = Vec::new();
        std::mem::swap(&mut rest, &mut self.sessions);
        let mut dead: Vec<Session> = Vec::new();
        let ghost mut n: int = 0;
        assert(before.take(0) =~= seq![]);
        assert(before.skip(0) =~= before);
        while rest.len() > 0
            invariant
                0 <= n <= before.len(),
                rest@ == before.skip(n),
                dead@ == before.take(n).filter(|s: Session| !s.alive()),
                self.sessions@ == before.take(n).filter(|s: Session| s.alive()),
            decreases rest@.len(),
        {
            let s = rest.remove(0);
            proof {
                assert(s == before[n]);
                assert(before.take(n + 1) =~= before.take(n).push(s));
                assert(before.take(n + 1).drop_last() =~= before.take(n));
                reveal(Seq::filter);
                n = n + 1;
                assert(rest@ =~= before.skip(n));
            }
            if s.is_alive() {
                self.sessions.push(s);
            } else {
                dead.push(s);
            }
        }
        proof {
            assert(before.take(n) =~= before);
            lemma_filter_distinct(before);
        }
        dead
    }

    /// Find or create the session that a client asks for, by its mode, and attach the
    /// client to it.
    pub fn connect(
        &mut self,
        name: &str,
        cols: u16,
        rows: u16,
        history: usize,
        mode: ConnectMode,
    ) -> (res: Result<Attached, SessionError>)
        requires
            old(self).wf(),
        ensures
            final(self).wf(),
            res is Ok <==> match mode {
                ConnectMode::CreateOrAttach => true,
                ConnectMode::CreateOnly => !has_session(old(self).sessions@, name@),
                ConnectMode::AttachOnly => has_session(old(self).sessions@, name@),
            },
            res matches Err(e) ==> {
                &&& final(self).sessions@ == old(self).sessions@
                &&& match mode {
                    ConnectMode::AttachOnly => e matches SessionError::NotFound(n) && n@ == name@,
                    _ => e matches SessionError::AlreadyExists(n) && n@ == name@,
                }
            },
            res is Ok ==> has_session(final(self).sessions@, name@) && has_attached(
                final(self).sessions@,
                name@,
            ),
            res matches Ok(a) ==> a.is_new == !has_session(old(self).sessions@, name@),
            res matches Ok(a) ==> a.is_new ==> {
                let s = final(self).sessions@.last();
                &&& final(self).sessions@ == old(self).sessions@.push(s)
                &&& s.name@ == name@
                &&& s.history == history
                &&& s.pid is None
                &&& s.child == ChildPoll::Running
                &&& s.dims == (if mode == ConnectMode::CreateOrAttach {
                    (dimension(cols, DEFAULT_COLS), dimension(rows, DEFAULT_ROWS))
                } else {
                    (cols, rows)
                })
                &&& s.has_client
                &&& s.evictable
                &&& !a.evicts
            },
            res matches Ok(a) ==> !a.is_new ==> exists|i: int|
                {
                    &&& 0 <= i < old(self).sessions@.len()
                    &&& (#[trigger] old(self).sessions@[i]).name@ == name@
                    &&& final(self).sessions@ == old(self).sessions@.update(
                        i,
                        old(self).sessions@[i].attached(),
                    )
                    &&& a.evicts == old(self).sessions@[i].evictable
                },
    {
        let found = self.position(name);
        let is_new = found.is_none();
        match mode {
            ConnectMode::CreateOrAttach => {
                let ghost before = self.sessions@;
                let evicts = match self.get_or_create(name, cols, rows, history) {
                    Ok((session, _)) => session.attach(),
                    Err(e) => {
                        return Err(e);
                    },
                };
                proof {
                    if is_new {
                        assert(self.sessions@[before.len() as int].name@ == name@);
                    } else {
                        let i = choose|i: int|
                            {
                                &&& 0 <= i < before.len()
                                &&& (#[trigger] before[i]).name@ == name@
                                &&& self.sessions@ == before.update(i, before[i].attached())
                            };
                        assert(self.sessions@[i].name@ == name@);
                    }
                }
                Ok(Attached { is_new, evicts })
            },
            ConnectMode::CreateOnly => {
                if !is_new {
                    return Err(SessionError::AlreadyExists(name.to_owned()));
                }
                match self.create(name.to_owned(), cols, rows, history) {
                    Ok(()) => {
                        let last: usize = self.sessions.len() - 1;
                        let evicts = self.sessions[last].attach();
                        assert(self.sessions@ =~= old(self).sessions@.push(self.sessions@.last()));
                        assert(self.sessions@[last as int].name@ == name@);
                        Ok(Attached { is_new, evicts })
                    },
                    Err(e) => Err(e),
                }
            },
            ConnectMode::AttachOnly => match found {
                Some(i) => {
                    let evicts = self.sessions[i].attach();
                    assert(self.sessions@[i as int].name@ == name@);
                    Ok(Attached { is_new, evicts })
                },
                None => Err(SessionError::NotFound(name.to_owned())),
            },
        }
    }

    /// Remove the session that a client wants killed, and the reply to it.
    pub fn kill(&mut self, name: String) -> (res: (Option<Session>, ServerMsg))
        requires
            old(self).wf(),
        ensures
            final(self).wf(),
            !has_session(final(self).sessions@, name@),
            res.0 is Some <==> has_session(old(self).sessions@, name@),
            res.0 matches Some(s) ==> {
                &&& s.name@ == name@
                &&& exists|i: int|
                    {
                        &&& 0 <= i < old(self).sessions@.len()
                        &&& s == #[trigger] old(self).sessions@[i]
                        &&& final(self).sessions@ == old(self).sessions@.remove(i)
                    }
                &&& res.1 == ServerMsg::SessionKilled { name }
            },
            res.0 is None ==> {
                &&& final(self).sessions@ == old(self).sessions@
                &&& res.1 matches ServerMsg::Error(text) && text@ == "session '"@ + name@
                    + "' not found"@
            },
    {
        match self.remove(name.as_str()) {
            Some(s) => (Some(s), ServerMsg::SessionKilled { name }),
            None => (None, ServerMsg::Error(SessionError::NotFound(name).to_text())),
        }
    }
}

proof fn lemma_filter_distinct(sessions: Seq<Session>)
    requires
        names_distinct(sessions),
    ensures
        names_distinct(sessions.filter(|s: Session| s.alive())),
    decreases sessions.len(),
{
    reveal(Seq::filter);
    if sessions.len() > 0 {
        let before = sessions.drop_last();
        let kept = before.filter(|s: Session| s.alive());
        assert forall|i: int, j: int|
            #![trigger before[i], before[j]]
            0 <= i < j < before.len() implies before[i].name@ != before[j].name@ by {
            assert(before[i] == sessions[i]);
            assert(before[j] == sessions[j]);
        }
        lemma_filter_distinct(before);
        assert forall|i: int| 0 <= i < kept.len() implies (#[trigger] kept[i]).name@
            != sessions.last().name@ by {
            before.lemma_filter_contains_rev(|s: Session| s.alive(), kept[i]);
            let k = choose|k: int| 0 <= k < before.len() && before[k] == kept[i];
            assert(before[k] == sessions[k]);
        }
    }
}

/// What the reader of a session does with output of its shell: the screen takes it
/// in, and the replies that the shell is owed are returned. Without a client,
/// lines and sequences that are waiting for one are dropped; the lines are in the
/// history anyway.
pub fn reader_step(screen: &mut Screen, output: &[u8], has_client: bool) -> (res: Vec<Vec<u8>>)
    requires
        old(screen).wf(),
    ensures
        final(screen).wf(),
        ({
            let shown = old(screen)@.performed_all(old(screen).reports(output@));
            &&& crate::bytes::lines_view(res@) == shown.responses
            &&& final(screen)@ == (crate::screen::model::ScreenView {
                responses: seq![],
                passthrough: if has_client {
                    shown.passthrough
                } else {
                    seq![]
                },
                pending_scrollback: if has_client {
                    shown.pending_scrollback
                } else {
                    seq![]
                },
                ..shown
            })
        }),
        forall|rest: Seq<u8>|
            old(screen).reports(output@ + rest) == old(screen).reports(output@) + #[trigger] final(
                screen).reports(rest),
{
    screen.process(output);
    let ghost fed = *screen;
    let responses: Vec<Vec<u8>> = screen.take_responses();
    if !has_client {
        screen.drain();
    }
    proof {
        assert forall|rest: Seq<u8>|
            old(screen).reports(output@ + rest) == old(screen).reports(output@)
                + #[trigger] screen.reports(rest) by {
            assert(screen.reports(rest) == fed.reports(rest));
        }
    }
    responses
}

/// A size that is not known, zero, is 80 columns and 24 rows; any other is kept.
pub proof fn law_dimensions(asked: u16)
    ensures
        dimension(0, DEFAULT_COLS) == 80,
        dimension(0, DEFAULT_ROWS) == 24,
        asked > 0 ==> dimension(asked, DEFAULT_COLS) == asked,
        asked > 0 ==> dimension(asked, DEFAULT_ROWS) == asked,
{
}

/// A list says of a session its name, its size, and its process, or zero where that is
/// not known. A session is alive unless its shell exited or cannot be asked any more.
pub proof fn law_session_facts(info: SessionInfo, s: Session)
    ensures
        info_matches(info, s) <==> info.name@ == s.name@ && (info.cols, info.rows) == s.dims && (
        s.pid == Some(info.pid) || (s.pid is None && info.pid == 0)),
        s.alive() <==> s.child == ChildPoll::Running || s.child == ChildPoll::WaitFailed || s.child
            == ChildPoll::Busy,
        s.attached() == (Session { has_client: true, evictable: true, ..s }),
{
}

/// Sessions are found by their names: there is one of a name where one of them has it, and
/// names are distinct where no two are the same.
pub proof fn law_names(sessions: Seq<Session>, i: int, j: int, name: Seq<char>)
    requires
        0 <= i < sessions.len(),
        0 <= j < sessions.len(),
    ensures
        sessions[i].name@ == name ==> has_session(sessions, name),
        names_distinct(sessions) && sessions[i].name@ == sessions[j].name@ ==> i == j,
        !has_session(seq![], name),
        sessions[i].name@ == name && sessions[i].has_client && sessions[i].evictable
            ==> has_attached(sessions, name),
        has_attached(sessions, name) ==> has_session(sessions, name),
{
}

/// What the errors say.
pub proof fn law_error_texts(name: String)
    ensures
        SessionError::AlreadyExists(name).text() == "session '"@ + name@ + "' already exists"@,
        SessionError::NotFound(name).text() == "session '"@ + name@ + "' not found"@,
{
}

} // verus!
