//! The lock that serializes commands that write: what to do after each try
//! to create the lock file.
use vstd::prelude::*;

verus! {

/// How many times the lock file is tried.
pub const LOCK_ATTEMPTS: u32 = 50;

/// What a try to create the lock file found.
#[derive(Clone, Copy, PartialEq, Eq, Structural)]
pub enum LockTry {
    /// The file was created: the lock is held.
    Created,
    /// The file exists and is at most ten seconds old.
    Held,
    /// The file exists and is older than ten seconds.
    HeldStale,
    /// The file could not be created for another reason.
    Failed,
}

/// What to do next.
#[derive(Clone, Copy, PartialEq, Eq, Structural)]
pub enum LockStep {
    /// The lock is ours.
    Acquired,
    /// Remove the stale lock file and try again.
    RemoveStale,
    /// Wait twenty milliseconds and try again.
    Wait,
    /// Give up: another process holds the lock.
    Busy,
    /// Give up: the file could not be created.
    Error,
}

/// The step after try number `attempt` (from 0) found `found`: a stale lock
/// is removed; a held one is waited for until the last try, then given up.
pub open spec fn lock_step_spec(attempt: u32, found: LockTry) -> LockStep {
    match found {
        LockTry::Created => LockStep::Acquired,
        LockTry::HeldStale => LockStep::RemoveStale,
        LockTry::Held => if attempt + 1 < LOCK_ATTEMPTS { LockStep::Wait } else { LockStep::Busy },
        LockTry::Failed => LockStep::Error,
    }
}

/// The step after try number `attempt` found `found`.
pub fn lock_step(attempt: u32, found: LockTry) -> (r: LockStep)
    requires
        attempt < LOCK_ATTEMPTS,
    ensures
        r == lock_step_spec(attempt, found),
{
    match found {
        LockTry::Created => LockStep::Acquired,
        LockTry::HeldStale => LockStep::RemoveStale,
        LockTry::Held => if attempt + 1 < LOCK_ATTEMPTS {
            LockStep::Wait
        } else {
            LockStep::Busy
        },
        LockTry::Failed => LockStep::Error,
    }
}

/// The message when another process holds the lock at `path`.
pub open spec fn busy_text(path: Seq<char>) -> Seq<char> {
    "could not acquire lock at "@ + path + ". Another ark process may be running."@
}

/// The message when every try removed a stale lock.
pub open spec fn exhausted_text(path: Seq<char>) -> Seq<char> {
    "could not acquire lock at "@ + path + " after retries"@
}

/// The message for giving up on the lock at `path`: `busy` when another
/// process holds it, else after the tries ran out.
pub fn lock_failure(path: &str, busy: bool) -> (r: String)
    ensures
        r@ == if busy { busy_text(path@) } else { exhausted_text(path@) },
{
    let mut r = crate::text::owned("could not acquire lock at ");
    r.append(path);
    if busy {
        r.append(". Another ark process may be running.");
    } else {
        r.append(" after retries");
    }
    r
}

} // verus!
