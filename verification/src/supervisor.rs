//! The process supervisor's logic.  The spawned script's handle sits in a
//! single-slot exchange point; taking the handle out of the slot *is* the
//! cancellation signal.  The supervisor polls: an empty slot means a
//! canceller owns the process and the run reports the distinguished
//! cancellation; otherwise it checks for exit and either collects the
//! output or sleeps briefly and retries, so a blocking wait never stands
//! between the user and cancellation.

use vstd::prelude::*;
use crate::propagate::BuildError;
use crate::registry::ProcessRegistry;

verus! {

/// The single-slot exchange point through which the supervisor and a
/// canceller hand the live child handle to each other.  The caller wraps
/// the slot in its lock; take/put is the whole protocol.
pub struct HandleSlot {
    handle: Option<tokio::process::Child>,
}

impl HandleSlot {
    /// The handle currently in the slot, if any.
    pub closed spec fn spec_handle(self) -> Option<tokio::process::Child> {
        self.handle
    }

    pub open spec fn is_occupied(self) -> bool {
        self.spec_handle() is Some
    }

    /// An empty slot, ready for the next run.
    pub fn new() -> (r: Self)
        ensures
            !r.is_occupied(),
    {
        HandleSlot { handle: None }
    }

    /// Publishes the freshly spawned child's handle for cancellers.
    pub fn put(&mut self, child: tokio::process::Child)
        ensures
            final(self).spec_handle() == Some(child),
            final(self).is_occupied(),
    {
        self.handle = Some(child);
    }

    /// Takes the handle out, leaving the slot empty: the hand-off that both
    /// the supervisor's poll and a canceller perform.  An empty slot yields
    /// nothing, which a poller reads as "a canceller owns the process".
    pub fn take(&mut self) -> (r: Option<tokio::process::Child>)
        ensures
            r == old(self).spec_handle(),
            !final(self).is_occupied(),
    {
        self.handle.take()
    }

    /// Whether a handle is currently in the slot.
    pub fn occupied(&self) -> (r: bool)
        ensures
            r == self.is_occupied(),
    {
        self.handle.is_some()
    }
}

/// What the supervisor does next after one poll round.
#[derive(Debug, Clone, Copy, PartialEq, Eq, Structural)]
pub enum PollStep {
    /// The slot was empty: a canceller owns the process; report cancellation.
    ReportCancelled,
    /// The process has exited: collect its full output.
    CollectOutput,
    /// Still running: put the handle back, sleep briefly, poll again.
    SleepAndRetry,
}

/// The supervisor's poll policy: cancellation is noticed before anything
/// else, and a live process is never waited on blockingly.
pub fn poll_step(handle_in_slot: bool, observed_exit: bool) -> (r: PollStep)
    ensures
        !handle_in_slot ==> r == PollStep::ReportCancelled,
        handle_in_slot && observed_exit ==> r == PollStep::CollectOutput,
        handle_in_slot && !observed_exit ==> r == PollStep::SleepAndRetry,
{
    if !handle_in_slot {
        PollStep::ReportCancelled
    } else if observed_exit {
        PollStep::CollectOutput
    } else {
        PollStep::SleepAndRetry
    }
}

/// Classifies a collected exit: success yields the captured stdout, a
/// non-zero exit yields the failure carrying the captured stderr.
pub fn classify_exit(success: bool, stdout: String, stderr: String) -> (r: Result<
    String,
    BuildError,
>)
    ensures
        success ==> r == Ok::<String, BuildError>(stdout),
        !success ==> r == Err::<String, BuildError>(BuildError::ScriptFailed { stderr }),
{
    if success {
        Ok(stdout)
    } else {
        Err(BuildError::ScriptFailed { stderr })
    }
}

/// How a cancelled or drained job's process is put down.
#[derive(Debug, Clone, Copy, PartialEq, Eq, Structural)]
pub enum KillRoute {
    /// The process id is known: reap the whole process tree rooted there.
    Tree(u32),
    /// No process id is obtainable: fall back to killing the one process
    /// through its handle.
    Direct,
}

/// Chooses how to put a process down from what its handle reveals.
pub fn kill_route(pid: Option<u32>) -> (r: KillRoute)
    ensures
        match pid {
            Some(p) => r == KillRoute::Tree(p),
            None => r == KillRoute::Direct,
        },
{
    match pid {
        Some(p) => KillRoute::Tree(p),
        None => KillRoute::Direct,
    }
}

/// Cancels the running build registered under `id`: claims the handle out
/// of the slot (the hand-off the supervisor polls for) and removes the
/// job's registry entry, so no record of the job remains.  The caller puts
/// the returned process down along its `kill_route`.  Yields nothing when
/// no run is in flight.
pub fn cancel_build(slot: &mut HandleSlot, registry: &mut ProcessRegistry, id: &str) -> (r:
    Option<tokio::process::Child>)
    requires
        old(registry).well_formed(),
    ensures
        r == old(slot).spec_handle(),
        !final(slot).is_occupied(),
        !final(registry).contains_id(id@),
        forall|other: Seq<char>|
            other != id@ ==> (final(registry).contains_id(other) <==> old(registry).contains_id(
                other,
            )),
        final(registry).well_formed(),
{
    registry.unregister_process(id);
    slot.take()
}

} // verus!
