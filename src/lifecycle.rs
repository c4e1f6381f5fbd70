use vstd::prelude::*;

verus! {

/// Where a server is in its life.
#[derive(Clone, Copy, Debug, PartialEq, Eq, Structural)]
pub enum ServerPhase {
    /// Taking new connections.
    Accepting,
    /// Shut down: no new connections, waiting for the running ones.
    Draining,
    /// Every connection finished after a shutdown: the server ended well.
    Finished,
    /// Aborted: every task was dropped.
    Terminated,
}

/// What happened to the server.
#[derive(Clone, Copy, Debug, PartialEq, Eq, Structural)]
pub enum ServerEvent {
    /// The listener produced a connection.
    Accepted,
    /// A connection's task ended.
    TaskDone,
    /// Graceful shutdown was asked for.
    Shutdown,
    /// Immediate termination was asked for.
    Terminate,
}

/// What the accept loop does in answer.
#[derive(Clone, Copy, Debug, PartialEq, Eq, Structural)]
pub enum ServerAction {
    /// Serve the new connection in a task of its own.
    Spawn,
    /// Drop the new connection unserved.
    Refuse,
    /// Drop the listener; keep waiting for the running connections.
    StopListening,
    /// The server has ended well: resolve its handle with `Ok(())`.
    Resolve,
    /// Abort every task and resolve the handle as interrupted.
    Abort,
    /// Nothing to do.
    Ignore,
}

/// The phase, connection count and action after one event, from phase `p`
/// with `n` connections running. A finished or terminated server ignores
/// everything; termination aborts at once; shutdown stops listening and
/// ends the server when no connection is left; a connection is served only
/// while accepting.
pub open spec fn next(p: ServerPhase, n: nat, event: ServerEvent) -> (ServerPhase, nat, ServerAction) {
    if p == ServerPhase::Finished || p == ServerPhase::Terminated {
        (p, n, ServerAction::Ignore)
    } else {
        match event {
            ServerEvent::Terminate => (ServerPhase::Terminated, n, ServerAction::Abort),
            ServerEvent::Shutdown => if p == ServerPhase::Draining {
                (p, n, ServerAction::Ignore)
            } else if n == 0 {
                (ServerPhase::Finished, 0, ServerAction::Resolve)
            } else {
                (ServerPhase::Draining, n, ServerAction::StopListening)
            },
            ServerEvent::Accepted => if p == ServerPhase::Accepting && n < u64::MAX {
                (p, n + 1, ServerAction::Spawn)
            } else {
                (p, n, ServerAction::Refuse)
            },
            ServerEvent::TaskDone => {
                let m: nat = if n == 0 { 0 } else { (n - 1) as nat };
                if p == ServerPhase::Draining && m == 0 {
                    (ServerPhase::Finished, m, ServerAction::Resolve)
                } else {
                    (p, m, ServerAction::Ignore)
                }
            },
        }
    }
}

/// The actions taken for a run of events, from phase `p` with `n`
/// connections running, and the phase at the end.
pub open spec fn run(p: ServerPhase, n: nat, events: Seq<ServerEvent>) -> (Seq<ServerAction>, ServerPhase)
    decreases events.len(),
{
    if events.len() == 0 {
        (Seq::empty(), p)
    } else {
        let (q, m, a) = next(p, n, events[0]);
        let (rest, last) = run(q, m, events.subrange(1, events.len() as int));
        (seq![a] + rest, last)
    }
}

/// Once a server has stopped accepting, no later event has a connection
/// served, and a terminated server stays terminated.
pub proof fn lemma_no_accept_after_shutdown(p: ServerPhase, n: nat, events: Seq<ServerEvent>)
    requires
        p != ServerPhase::Accepting,
    ensures
        forall|i: int| 0 <= i < run(p, n, events).0.len() ==> run(p, n, events).0[i] != ServerAction::Spawn,
        run(p, n, events).1 != ServerPhase::Accepting,
        p == ServerPhase::Terminated ==> run(p, n, events).1 == ServerPhase::Terminated,
        run(p, n, events).0.len() == events.len(),
    decreases events.len(),
{
    if events.len() > 0 {
        let (q, m, a) = next(p, n, events[0]);
        let tail = events.subrange(1, events.len() as int);
        lemma_no_accept_after_shutdown(q, m, tail);
        let (rest, last) = run(q, m, tail);
        assert forall|i: int| 0 <= i < run(p, n, events).0.len() implies run(p, n, events).0[i] != ServerAction::Spawn by {
            if i > 0 {
                assert(run(p, n, events).0[i] == rest[i - 1]);
            }
        }
    }
}

/// The accept loop's state: its phase and the connections being served.
#[derive(Clone, Copy, Debug)]
pub struct ServerLifecycle {
    phase: ServerPhase,
    in_flight: u64,
}

impl ServerLifecycle {
    pub closed spec fn spec_phase(&self) -> ServerPhase {
        self.phase
    }

    pub closed spec fn spec_in_flight(&self) -> nat {
        self.in_flight as nat
    }

    /// Only a draining server waits for connections; a finished one has none.
    pub open spec fn wf(&self) -> bool {
        self.spec_phase() == ServerPhase::Finished ==> self.spec_in_flight() == 0
    }

    pub fn new() -> (r: ServerLifecycle)
        ensures
            r.wf(),
            r.spec_phase() == ServerPhase::Accepting,
            r.spec_in_flight() == 0,
    {
        ServerLifecycle { phase: ServerPhase::Accepting, in_flight: 0 }
    }

    pub fn phase(&self) -> (r: ServerPhase)
        ensures
            r == self.spec_phase(),
    {
        self.phase
    }

    pub fn in_flight(&self) -> (r: u64)
        ensures
            r == self.spec_in_flight(),
    {
        self.in_flight
    }

    /// The server's answer to one event.
    pub fn step(&mut self, event: ServerEvent) -> (r: ServerAction)
        requires
            old(self).wf(),
        ensures
            final(self).wf(),
            next(old(self).spec_phase(), old(self).spec_in_flight(), event) == (
                final(self).spec_phase(),
                final(self).spec_in_flight(),
                r,
            ),
    {
        match self.phase {
            ServerPhase::Finished | ServerPhase::Terminated => return ServerAction::Ignore,
            _ => {},
        }
        match event {
            ServerEvent::Terminate => {
                self.phase = ServerPhase::Terminated;
                ServerAction::Abort
            },
            ServerEvent::Shutdown => {
                if self.phase == ServerPhase::Draining {
                    ServerAction::Ignore
                } else if self.in_flight == 0 {
                    self.phase = ServerPhase::Finished;
                    ServerAction::Resolve
                } else {
                    self.phase = ServerPhase::Draining;
                    ServerAction::StopListening
                }
            },
            ServerEvent::Accepted => {
                if self.phase == ServerPhase::Accepting && self.in_flight < u64::MAX {
                    self.in_flight = self.in_flight + 1;
                    ServerAction::Spawn
                } else {
                    ServerAction::Refuse
                }
            },
            ServerEvent::TaskDone => {
                if self.in_flight > 0 {
                    self.in_flight = self.in_flight - 1;
                }
                if self.phase == ServerPhase::Draining && self.in_flight == 0 {
                    self.phase = ServerPhase::Finished;
                    ServerAction::Resolve
                } else {
                    ServerAction::Ignore
                }
            },
        }
    }
}

} // verus!
