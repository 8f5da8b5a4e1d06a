//! Turning what `waitpid` reports into the container's exit code, and the
//! decisions of the two wait loops.
use vstd::prelude::*;

verus! {

/// `EINTR`: the wait was interrupted by a signal.
pub const EINTR: i32 = 4;

/// `ECHILD`: the caller has no child left to wait for.
pub const ECHILD: i32 = 10;

/// How a child ended, as `waitpid` reports it.
#[derive(Clone, Copy, Debug, PartialEq, Eq, Structural)]
pub enum ChildStatus {
    /// It exited with this code.
    Exited(i32),
    /// A signal with this number killed it.
    Signaled(i32),
    /// Anything else (stopped, continued, still alive).
    Other,
}

/// What one `waitpid` call gave: the pid it reports on (if any) and the
/// status, or the errno it failed with.
pub type WaitOutcome = Result<(Option<i32>, ChildStatus), i32>;

/// What a wait loop does after one `waitpid` call.
#[derive(Clone, Copy, Debug, PartialEq, Eq, Structural)]
pub enum WaitStep {
    /// Stop: the tracked child ended with this exit code.
    Finished(i32),
    /// Call `waitpid` again.
    Retry,
    /// Stop with an error: no child is left, and the tracked one was never
    /// seen ending.
    NoChildrenLeft,
    /// Stop with an error: `waitpid` failed with this errno.
    Failed(i32),
}

/// A signal number for which `128 + signal` fits in an `i32`.
pub open spec fn status_ok(status: ChildStatus) -> bool {
    match status {
        ChildStatus::Signaled(sig) => sig <= i32::MAX - 128,
        _ => true,
    }
}

/// The shell's convention: the code a child exited with, `128 + signal`
/// when a signal killed it, and 1 for anything else.
pub open spec fn exit_code_spec(status: ChildStatus) -> int {
    match status {
        ChildStatus::Exited(code) => code as int,
        ChildStatus::Signaled(sig) => 128 + sig,
        ChildStatus::Other => 1,
    }
}

/// The container's exit code for how its process ended.
pub fn exit_code(status: ChildStatus) -> (code: i32)
    requires
        status_ok(status),
    ensures
        code == exit_code_spec(status),
{
    match status {
        ChildStatus::Exited(code) => code,
        ChildStatus::Signaled(sig) => 128 + sig,
        ChildStatus::Other => 1,
    }
}

/// The outcome has a status whose exit code fits.
pub open spec fn outcome_ok(outcome: WaitOutcome) -> bool {
    match outcome {
        Ok((_, status)) => status_ok(status),
        Err(_) => true,
    }
}

/// What waiting on one known child does next: any reported status ends
/// the wait with its exit code, an interrupted wait is retried, and any
/// other failure (no child left included) ends it with that errno.
pub fn wait_step(outcome: WaitOutcome) -> (step: WaitStep)
    requires
        outcome_ok(outcome),
    ensures
        match outcome {
            Ok((_, status)) => step == WaitStep::Finished(exit_code_spec(status) as i32),
            Err(e) => if e == EINTR {
                step == WaitStep::Retry
            } else {
                step == WaitStep::Failed(e)
            },
        },
{
    match outcome {
        Ok((_, status)) => WaitStep::Finished(exit_code(status)),
        Err(e) => if e == EINTR {
            WaitStep::Retry
        } else {
            WaitStep::Failed(e)
        },
    }
}

/// What waiting for any child does next while the tracked one is `child`:
/// the tracked child's status ends the wait with its exit code; another
/// child's status (or a report with no pid) is reaped and the wait goes
/// on; an interrupted wait is retried; no child left is its own error,
/// since retrying it would spin forever; any other failure ends the wait.
pub fn reap_step(child: i32, outcome: WaitOutcome) -> (step: WaitStep)
    requires
        outcome_ok(outcome),
    ensures
        match outcome {
            Ok((pid, status)) => if pid == Some(child) {
                step == WaitStep::Finished(exit_code_spec(status) as i32)
            } else {
                step == WaitStep::Retry
            },
            Err(e) => if e == EINTR {
                step == WaitStep::Retry
            } else if e == ECHILD {
                step == WaitStep::NoChildrenLeft
            } else {
                step == WaitStep::Failed(e)
            },
        },
{
    match outcome {
        Ok((pid, status)) => match pid {
            Some(p) => if p == child {
                WaitStep::Finished(exit_code(status))
            } else {
                WaitStep::Retry
            },
            None => WaitStep::Retry,
        },
        Err(e) => if e == EINTR {
            WaitStep::Retry
        } else if e == ECHILD {
            WaitStep::NoChildrenLeft
        } else {
            WaitStep::Failed(e)
        },
    }
}

} // verus!
