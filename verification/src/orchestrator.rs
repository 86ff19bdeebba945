//! The state machine of one backup cycle.
//!
//! The application drives the cycle: it enumerates the data
//! directories, talks to the container runtime and writes the archive
//! files, reporting each outcome as an event. Every decision — which
//! phase follows which, which container to stop or start next, whether
//! a failure still gets the stopped containers restarted before it is
//! surfaced — is made and verified here.
//!
//! One cycle runs `Idle → Enumerating → (ResolvingContainers →
//! StoppingDependents →) Archiving → (RestartingDependents →) Idle`;
//! the container phases are skipped when container management is
//! disabled. A failure moves to `Failed`, except that when dependents
//! were already stopped, a failed archive first passes through
//! `RestartingDependents` as best-effort cleanup.

use vstd::prelude::*;

use crate::error::Error;

verus! {

/// Where in the cycle the orchestrator stands.
#[derive(Clone, Copy, Debug, PartialEq, Eq, Structural)]
pub enum Phase {
    Idle,
    Enumerating,
    ResolvingContainers,
    StoppingDependents,
    Archiving,
    RestartingDependents,
    Failed,
}

/// One backup cycle's coordination state.
pub struct Orchestrator {
    /// Whether the cycle coordinates with the container runtime.
    pub manage_containers: bool,
    pub phase: Phase,
    /// Dependent containers not yet stopped, in stop order.
    pub pending_stops: Vec<String>,
    /// Containers stopped so far this cycle, in stop order.
    pub stopped: Vec<String>,
    /// Containers still to be restarted, in stop order.
    pub pending_restarts: Vec<String>,
    /// The failure to surface when the cycle ends in `Failed`.
    pub failure: Option<Error>,
}

impl Orchestrator {
    /// A fresh orchestrator, idle, with nothing stopped.
    pub fn new(manage_containers: bool) -> (r: Orchestrator)
        ensures
            r.manage_containers == manage_containers,
            r.phase is Idle,
            r.pending_stops@.len() == 0,
            r.stopped@.len() == 0,
            r.pending_restarts@.len() == 0,
            r.failure is None,
    {
        Orchestrator {
            manage_containers,
            phase: Phase::Idle,
            pending_stops: Vec::new(),
            stopped: Vec::new(),
            pending_restarts: Vec::new(),
            failure: None,
        }
    }

    /// Starts a cycle: the data directories are enumerated next.
    pub fn begin(&mut self)
        requires
            old(self).phase is Idle,
        ensures
            final(self).phase is Enumerating,
            final(self).manage_containers == old(self).manage_containers,
            final(self).pending_stops == old(self).pending_stops,
            final(self).stopped == old(self).stopped,
            final(self).pending_restarts == old(self).pending_restarts,
            final(self).failure == old(self).failure,
    {
        self.phase = Phase::Enumerating;
    }

    /// Enumeration succeeded: with container management on, the
    /// runtime is queried next; otherwise archiving starts at once.
    pub fn enumeration_done(&mut self)
        requires
            old(self).phase is Enumerating,
        ensures
            old(self).manage_containers ==> final(self).phase is ResolvingContainers,
            !old(self).manage_containers ==> final(self).phase is Archiving,
            final(self).manage_containers == old(self).manage_containers,
            final(self).pending_stops == old(self).pending_stops,
            final(self).stopped == old(self).stopped,
            final(self).pending_restarts == old(self).pending_restarts,
            final(self).failure == old(self).failure,
    {
        if self.manage_containers {
            self.phase = Phase::ResolvingContainers;
        } else {
            self.phase = Phase::Archiving;
        }
    }

    /// Enumeration failed: the cycle ends without any side effect.
    pub fn enumeration_failed(&mut self, e: Error)
        requires
            old(self).phase is Enumerating,
        ensures
            final(self).phase is Failed,
            final(self).failure == Some(e),
            final(self).manage_containers == old(self).manage_containers,
            final(self).pending_stops == old(self).pending_stops,
            final(self).stopped == old(self).stopped,
            final(self).pending_restarts == old(self).pending_restarts,
    {
        self.phase = Phase::Failed;
        self.failure = Some(e);
    }

    /// The dependent containers were identified: they are stopped
    /// next, in the given order.
    pub fn dependents_resolved(&mut self, ids: Vec<String>)
        requires
            old(self).phase is ResolvingContainers,
        ensures
            final(self).phase is StoppingDependents,
            final(self).pending_stops == ids,
            final(self).stopped@.len() == 0,
            final(self).manage_containers == old(self).manage_containers,
            final(self).pending_restarts == old(self).pending_restarts,
            final(self).failure == old(self).failure,
    {
        self.pending_stops = ids;
        self.stopped = Vec::new();
        self.phase = Phase::StoppingDependents;
    }

    /// Identifying the agent or the dependents failed: fatal, nothing
    /// was stopped yet.
    pub fn resolution_failed(&mut self, e: Error)
        requires
            old(self).phase is ResolvingContainers,
        ensures
            final(self).phase is Failed,
            final(self).failure == Some(e),
            final(self).manage_containers == old(self).manage_containers,
            final(self).pending_stops == old(self).pending_stops,
            final(self).stopped == old(self).stopped,
            final(self).pending_restarts == old(self).pending_restarts,
    {
        self.phase = Phase::Failed;
        self.failure = Some(e);
    }

    /// The container to stop next: the first still pending, in the
    /// resolved order; none when all are stopped.
    pub fn stop_target(&self) -> (r: Option<&String>)
        requires
            self.phase is StoppingDependents,
        ensures
            match r {
                Some(id) => self.pending_stops@.len() > 0 && id == self.pending_stops@[0],
                None => self.pending_stops@.len() == 0,
            },
    {
        if self.pending_stops.len() == 0 {
            None
        } else {
            Some(&self.pending_stops[0])
        }
    }

    /// The pending container was stopped: it moves, in order, to the
    /// stopped record that a later restart walks.
    pub fn stop_succeeded(&mut self)
        requires
            old(self).phase is StoppingDependents,
            old(self).pending_stops@.len() > 0,
        ensures
            final(self).phase is StoppingDependents,
            final(self).pending_stops@ == old(self).pending_stops@.drop_first(),
            final(self).stopped@ == old(self).stopped@.push(old(self).pending_stops@[0]),
            final(self).manage_containers == old(self).manage_containers,
            final(self).pending_restarts == old(self).pending_restarts,
            final(self).failure == old(self).failure,
    {
        let id = self.pending_stops.remove(0);
        self.stopped.push(id);
        proof {
            assert(self.pending_stops@ =~= old(self).pending_stops@.drop_first());
        }
    }

    /// A stop failed: fatal for the cycle. No further stop is issued,
    /// and the containers already stopped are not restarted by this
    /// step — a restart happens only as the explicit cleanup after a
    /// failed archive.
    pub fn stop_failed(&mut self, msg: String)
        requires
            old(self).phase is StoppingDependents,
        ensures
            final(self).phase is Failed,
            final(self).failure matches Some(e) && e == (Error::DockerApi(msg)),
            final(self).manage_containers == old(self).manage_containers,
            final(self).pending_stops == old(self).pending_stops,
            final(self).stopped == old(self).stopped,
            final(self).pending_restarts == old(self).pending_restarts,
    {
        self.phase = Phase::Failed;
        self.failure = Some(Error::DockerApi(msg));
    }

    /// Every dependent is stopped: archiving starts.
    pub fn stops_complete(&mut self)
        requires
            old(self).phase is StoppingDependents,
            old(self).pending_stops@.len() == 0,
        ensures
            final(self).phase is Archiving,
            final(self).stopped == old(self).stopped,
            final(self).manage_containers == old(self).manage_containers,
            final(self).pending_restarts == old(self).pending_restarts,
            final(self).failure == old(self).failure,
    {
        self.phase = Phase::Archiving;
    }

    /// Archiving succeeded: the stopped containers are restarted, in
    /// stop order; with none stopped the cycle is complete.
    pub fn archive_succeeded(&mut self)
        requires
            old(self).phase is Archiving,
        ensures
            old(self).stopped@.len() > 0 ==> (final(self).phase is RestartingDependents && final(self).pending_restarts == old(self).stopped),
            old(self).stopped@.len() == 0 ==> (final(self).phase is Idle && final(self).pending_restarts == old(self).pending_restarts),
            final(self).stopped@.len() == 0,
            final(self).manage_containers == old(self).manage_containers,
            final(self).pending_stops == old(self).pending_stops,
            final(self).failure == old(self).failure,
    {
        if self.stopped.len() > 0 {
            let mut moved: Vec<String> = Vec::new();
            core::mem::swap(&mut moved, &mut self.stopped);
            self.pending_restarts = moved;
            self.phase = Phase::RestartingDependents;
        } else {
            self.phase = Phase::Idle;
        }
    }

    /// Archiving failed. Stopped containers must not be left stopped:
    /// with any recorded, the cycle first restarts them, best-effort,
    /// and surfaces this failure afterwards; with none it fails at
    /// once.
    pub fn archive_failed(&mut self, e: Error)
        requires
            old(self).phase is Archiving,
        ensures
            final(self).failure == Some(e),
            old(self).stopped@.len() > 0 ==> (final(self).phase is RestartingDependents && final(self).pending_restarts == old(self).stopped),
            old(self).stopped@.len() == 0 ==> (final(self).phase is Failed && final(self).pending_restarts == old(self).pending_restarts),
            final(self).stopped@.len() == 0,
            final(self).manage_containers == old(self).manage_containers,
            final(self).pending_stops == old(self).pending_stops,
    {
        self.failure = Some(e);
        if self.stopped.len() > 0 {
            let mut moved: Vec<String> = Vec::new();
            core::mem::swap(&mut moved, &mut self.stopped);
            self.pending_restarts = moved;
            self.phase = Phase::RestartingDependents;
        } else {
            self.phase = Phase::Failed;
        }
    }

    /// The container to start next: the first still pending, in stop
    /// order; none when all are restarted.
    pub fn restart_target(&self) -> (r: Option<&String>)
        requires
            self.phase is RestartingDependents,
        ensures
            match r {
                Some(id) => self.pending_restarts@.len() > 0 && id == self.pending_restarts@[0],
                None => self.pending_restarts@.len() == 0,
            },
    {
        if self.pending_restarts.len() == 0 {
            None
        } else {
            Some(&self.pending_restarts[0])
        }
    }

    /// The pending container was started again.
    pub fn restart_succeeded(&mut self)
        requires
            old(self).phase is RestartingDependents,
            old(self).pending_restarts@.len() > 0,
        ensures
            final(self).phase is RestartingDependents,
            final(self).pending_restarts@ == old(self).pending_restarts@.drop_first(),
            final(self).manage_containers == old(self).manage_containers,
            final(self).pending_stops == old(self).pending_stops,
            final(self).stopped == old(self).stopped,
            final(self).failure == old(self).failure,
    {
        self.pending_restarts.remove(0);
        proof {
            assert(self.pending_restarts@ =~= old(self).pending_restarts@.drop_first());
        }
    }

    /// A restart failed. During best-effort cleanup after an earlier
    /// failure the remaining restarts are still attempted and the
    /// earlier failure is kept; on a healthy cycle the restart failure
    /// itself ends the cycle at once.
    pub fn restart_failed(&mut self, msg: String)
        requires
            old(self).phase is RestartingDependents,
            old(self).pending_restarts@.len() > 0,
        ensures
            old(self).failure is Some ==> (final(self).phase is RestartingDependents && final(self).pending_restarts@ == old(self).pending_restarts@.drop_first() && final(self).failure
                == old(self).failure),
            old(self).failure is None ==> (final(self).phase is Failed && final(self).pending_restarts == old(self).pending_restarts && (final(self).failure matches Some(e) && e == (Error::DockerApi(msg)))),
            final(self).manage_containers == old(self).manage_containers,
            final(self).pending_stops == old(self).pending_stops,
            final(self).stopped == old(self).stopped,
    {
        let cleanup = match &self.failure {
            Some(_) => true,
            None => false,
        };
        if cleanup {
            self.pending_restarts.remove(0);
            proof {
                assert(self.pending_restarts@ =~= old(self).pending_restarts@.drop_first());
            }
        } else {
            self.phase = Phase::Failed;
            self.failure = Some(Error::DockerApi(msg));
        }
    }

    /// Every restart was handled: the cycle ends, surfacing the
    /// recorded failure if there was one.
    pub fn restarts_complete(&mut self)
        requires
            old(self).phase is RestartingDependents,
            old(self).pending_restarts@.len() == 0,
        ensures
            old(self).failure is Some ==> final(self).phase is Failed,
            old(self).failure is None ==> final(self).phase is Idle,
            final(self).failure == old(self).failure,
            final(self).manage_containers == old(self).manage_containers,
            final(self).pending_stops == old(self).pending_stops,
            final(self).stopped == old(self).stopped,
            final(self).pending_restarts == old(self).pending_restarts,
    {
        let failed = match &self.failure {
            Some(_) => true,
            None => false,
        };
        if failed {
            self.phase = Phase::Failed;
        } else {
            self.phase = Phase::Idle;
        }
    }
}

} // verus!
