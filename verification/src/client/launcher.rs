//! Starting the server where it is not running.

use vstd::prelude::*;

verus! {

/// How often a started server is tried before giving up.
pub const MAX_ATTEMPTS: u32 = 50;

/// What to do after an attempt to connect.
#[derive(Copy, Clone, Debug, PartialEq, Eq, Structural)]
pub enum LaunchAction {
    /// The server is there.
    Ready,
    /// Start the server, then wait and try again.
    Spawn,
    /// Wait and try again.
    Retry,
    /// The server did not come up.
    GiveUp,
}

/// The state of starting the server.
#[derive(Copy, Clone, Debug, PartialEq, Eq, Structural)]
pub struct Launcher {
    /// Whether the server was started.
    pub spawned: bool,
    /// Failed attempts to connect since then.
    pub attempts: u32,
}

impl Launcher {
    pub open spec fn wf(&self) -> bool {
        self.attempts <= MAX_ATTEMPTS && (!self.spawned ==> self.attempts == 0)
    }

    pub fn new() -> (res: Self)
        ensures
            res.wf(),
            !res.spawned,
            res.attempts == 0,
    {
        Launcher { spawned: false, attempts: 0 }
    }

    /// Decide what to do after an attempt to connect.
    pub fn on_attempt(&mut self, connected: bool) -> (res: LaunchAction)
        requires
            old(self).wf(),
        ensures
            final(self).wf(),
            connected ==> res == LaunchAction::Ready && *final(self) == *old(self),
            !connected && !old(self).spawned ==> {
                &&& res == LaunchAction::Spawn
                &&& final(self).spawned
                &&& final(self).attempts == 0
            },
            !connected && old(self).spawned && old(self).attempts + 1 < MAX_ATTEMPTS ==> {
                &&& res == LaunchAction::Retry
                &&& final(self).spawned
                &&& final(self).attempts == old(self).attempts + 1
            },
            !connected && old(self).spawned && old(self).attempts + 1 >= MAX_ATTEMPTS ==> {
                &&& res == LaunchAction::GiveUp
                &&& final(self).spawned
                &&& final(self).attempts == MAX_ATTEMPTS
            },
    {
        if connected {
            LaunchAction::Ready
        } else if !self.spawned {
            self.spawned = true;
            LaunchAction::Spawn
        } else if self.attempts + 1 < MAX_ATTEMPTS {
            self.attempts += 1;
            LaunchAction::Retry
        } else {
            self.attempts = MAX_ATTEMPTS;
            LaunchAction::GiveUp
        }
    }
}

/// A server that was started is given fifty attempts.
pub proof fn law_attempts()
    ensures
        MAX_ATTEMPTS == 50,
{
}

} // verus!
