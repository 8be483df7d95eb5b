use vstd::prelude::*;

verus! {

/// Seconds to wait for another process to give up the working copy.
pub const LOCK_TIMEOUT_SECS: u64 = 30;

/// Seconds after which a lock file counts as abandoned by a process that died.
pub const LOCK_STALE_SECS: u64 = 300;

/// Where an acquisition of the working-copy lock stands.
#[derive(Debug, Clone, Copy, PartialEq, Eq, Structural)]
pub enum LockState {
    /// Trying to take the lock. `stale_retry` marks the one new attempt made right after
    /// removing a stale lock file; `notice_shown` records that the user was told of the wait.
    Acquiring { stale_retry: bool, notice_shown: bool },
    /// The lock is ours.
    Held,
    /// Acquisition ended without the lock.
    Failed,
}

/// What the last action on the lock file found.
#[derive(Debug, Clone, Copy, PartialEq, Eq, Structural)]
pub enum LockEvent {
    /// The lock file was created, atomically, and is ours.
    Created,
    /// The lock file already exists; `age_secs` is its age where it could be read, and
    /// `elapsed_secs` the time since acquisition began.
    Exists { age_secs: Option<u64>, elapsed_secs: u64 },
    /// Creating the lock file failed for another reason.
    CreateFailed { elapsed_secs: u64 },
    /// A stale lock file was removed (or its removal was attempted).
    Removed,
    /// The pause between attempts is over.
    Waited,
}

/// What to do next with the lock file.
#[derive(Debug, Clone, Copy, PartialEq, Eq, Structural)]
pub enum LockAction {
    /// Create the lock file if it does not exist, holding this process's id.
    TryCreate,
    /// Delete the stale lock file.
    RemoveStale,
    /// Pause briefly, telling the user once that another process holds the lock.
    Wait { show_notice: bool },
    /// The lock is held.
    Done,
    /// The lock could not be had in time.
    TimedOut,
    /// The lock file could not be created for a reason other than another holder.
    CreateError,
}

/// A lock file older than the threshold is abandoned; one of unknown age is not.
pub open spec fn is_stale_spec(age_secs: Option<u64>) -> bool {
    match age_secs {
        Some(a) => a > LOCK_STALE_SECS,
        None => false,
    }
}

/// Not acquired on this attempt: give up once the timeout has passed, else wait.
pub open spec fn blocked_spec(notice_shown: bool, elapsed_secs: u64) -> (LockState, LockAction) {
    if elapsed_secs >= LOCK_TIMEOUT_SECS {
        (LockState::Failed, LockAction::TimedOut)
    } else {
        (
            LockState::Acquiring { stale_retry: false, notice_shown: true },
            LockAction::Wait { show_notice: !notice_shown },
        )
    }
}

/// The acquisition protocol: the next state and action after `event` in `state`.
pub open spec fn lock_step_spec(state: LockState, event: LockEvent) -> (LockState, LockAction) {
    match state {
        LockState::Acquiring { stale_retry, notice_shown } => match event {
            LockEvent::Created => (LockState::Held, LockAction::Done),
            LockEvent::Exists { age_secs, elapsed_secs } => if !stale_retry && is_stale_spec(
                age_secs,
            ) {
                (LockState::Acquiring { stale_retry: true, notice_shown }, LockAction::RemoveStale)
            } else {
                blocked_spec(notice_shown, elapsed_secs)
            },
            LockEvent::CreateFailed { elapsed_secs } => if stale_retry {
                blocked_spec(notice_shown, elapsed_secs)
            } else {
                (LockState::Failed, LockAction::CreateError)
            },
            LockEvent::Removed => (
                LockState::Acquiring { stale_retry: true, notice_shown },
                LockAction::TryCreate,
            ),
            LockEvent::Waited => (
                LockState::Acquiring { stale_retry: false, notice_shown },
                LockAction::TryCreate,
            ),
        },
        LockState::Held => (LockState::Held, LockAction::Done),
        LockState::Failed => (LockState::Failed, LockAction::TimedOut),
    }
}

/// Whether a lock file of the given age is abandoned.
pub fn is_stale_lock(age_secs: Option<u64>) -> (r: bool)
    ensures
        r == is_stale_spec(age_secs),
{
    match age_secs {
        Some(a) => a > LOCK_STALE_SECS,
        None => false,
    }
}

/// Where acquisition starts, and its first action.
pub fn lock_start() -> (r: (LockState, LockAction))
    ensures
        r == (LockState::Acquiring { stale_retry: false, notice_shown: false }, LockAction::TryCreate),
{
    (LockState::Acquiring { stale_retry: false, notice_shown: false }, LockAction::TryCreate)
}

fn blocked(notice_shown: bool, elapsed_secs: u64) -> (r: (LockState, LockAction))
    ensures
        r == blocked_spec(notice_shown, elapsed_secs),
{
    if elapsed_secs >= LOCK_TIMEOUT_SECS {
        (LockState::Failed, LockAction::TimedOut)
    } else {
        (
            LockState::Acquiring { stale_retry: false, notice_shown: true },
            LockAction::Wait { show_notice: !notice_shown },
        )
    }
}

/// One step of acquiring the working-copy lock.
pub fn lock_step(state: LockState, event: LockEvent) -> (r: (LockState, LockAction))
    ensures
        r == lock_step_spec(state, event),
{
    match state {
        LockState::Acquiring { stale_retry, notice_shown } => match event {
            LockEvent::Created => (LockState::Held, LockAction::Done),
            LockEvent::Exists { age_secs, elapsed_secs } => {
                if !stale_retry && is_stale_lock(age_secs) {
                    (LockState::Acquiring { stale_retry: true, notice_shown }, LockAction::RemoveStale)
                } else {
                    blocked(notice_shown, elapsed_secs)
                }
            },
            LockEvent::CreateFailed { elapsed_secs } => {
                if stale_retry {
                    blocked(notice_shown, elapsed_secs)
                } else {
                    (LockState::Failed, LockAction::CreateError)
                }
            },
            LockEvent::Removed => (
                LockState::Acquiring { stale_retry: true, notice_shown },
                LockAction::TryCreate,
            ),
            LockEvent::Waited => (
                LockState::Acquiring { stale_retry: false, notice_shown },
                LockAction::TryCreate,
            ),
        },
        LockState::Held => (LockState::Held, LockAction::Done),
        LockState::Failed => (LockState::Failed, LockAction::TimedOut),
    }
}

/// A lock file older than the staleness threshold is removed and the lock taken anew,
/// not waited on until the timeout, however long acquisition has already waited: the
/// stale file leads to its removal, the removal to a new attempt, and a successful
/// attempt to holding the lock.
pub proof fn lemma_stale_lock_reclaimed(notice_shown: bool, age_secs: u64, elapsed_secs: u64)
    requires
        age_secs > LOCK_STALE_SECS,
    ensures
        ({
            let s0 = LockState::Acquiring { stale_retry: false, notice_shown };
            let (s1, a1) = lock_step_spec(s0, LockEvent::Exists { age_secs: Some(age_secs), elapsed_secs });
            let (s2, a2) = lock_step_spec(s1, LockEvent::Removed);
            let (s3, a3) = lock_step_spec(s2, LockEvent::Created);
            &&& a1 == LockAction::RemoveStale
            &&& a2 == LockAction::TryCreate
            &&& s3 == LockState::Held
            &&& a3 == LockAction::Done
        }),
{
}

/// A lock file that is not stale is never removed: acquisition waits or times out.
pub proof fn lemma_fresh_lock_kept(state: LockState, age_secs: Option<u64>, elapsed_secs: u64)
    requires
        !is_stale_spec(age_secs),
    ensures
        lock_step_spec(state, LockEvent::Exists { age_secs, elapsed_secs }).1 != LockAction::RemoveStale,
{
}

} // verus!
