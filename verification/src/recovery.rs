//! Recovery: a request whose session delivers no frame is tried once more in a new
//! session, and a resident session that has stalled is retired.

use vstd::prelude::*;

use crate::copy::{
    law_the_fresh_frame_is_written, ArmedRequest, CopyAction, CopyAttempt, CopyEvent,
};
use crate::error::CaptureError;
use crate::numeric::{elapsed, elapsed_since, CLOCK_LIMIT};
use crate::session::{RuntimeState, SessionFlags};
use crate::source::{CaptureReceipt, CaptureSource, TargetState};

verus! {

/// How long a session that lost its frame may stay silent, in nanoseconds.
pub const RESIDENT_STALL_TIMEOUT: u64 = 5_000_000_000;

/// How far a request with recovery has come.
#[derive(Clone, Copy, Debug, PartialEq, Eq, Structural)]
pub enum Recovery {
    /// The attempt in the session at hand.
    First(CopyAttempt),
    /// Looking at the target window before a new session is started.
    Inspecting,
    Restarting,
    /// The attempt in the new session.
    Second(CopyAttempt),
    Finished,
}

/// What an action gave. After a restart, events are about the new session.
#[derive(Debug)]
pub enum RecoveryEvent {
    Copy(CopyEvent),
    Inspected(TargetState),
    Restarted(Result<(), CaptureError>),
}

/// What to do next.
#[derive(Debug)]
pub enum RecoveryAction {
    /// An action of the attempt; never its end.
    Copy(CopyAction),
    Inspect,
    /// Start a new session of the source; the old one has been stopped.
    Restart(CaptureSource),
    /// The end, and whether a new session has replaced the old one.
    Done(Result<CaptureReceipt, CaptureError>, bool),
}

impl Recovery {
    /// What an attempt's action means for the request. A first attempt that ends for
    /// want of a frame is followed by a second one in a new session.
    pub open spec fn judged(attempt: CopyAttempt, action: CopyAction, second: bool) -> (
        Recovery,
        RecoveryAction,
    ) {
        match action {
            CopyAction::Done(result) => if !second && result is Err
                && result->Err_0.asks_for_new_session() {
                (Recovery::Inspecting, RecoveryAction::Inspect)
            } else {
                (Recovery::Finished, RecoveryAction::Done(result, second))
            },
            _ => (
                if second {
                    Recovery::Second(attempt)
                } else {
                    Recovery::First(attempt)
                },
                RecoveryAction::Copy(action),
            ),
        }
    }

    pub open spec fn failed(error: CaptureError) -> (Recovery, RecoveryAction) {
        (
            Recovery::Finished,
            RecoveryAction::Done(Err::<CaptureReceipt, CaptureError>(error), false),
        )
    }

    /// The request, the action and the session that follow from an event.
    pub open spec fn step(
        self,
        source: CaptureSource,
        flags: SessionFlags,
        state: RuntimeState,
        event: RecoveryEvent,
        now: u64,
    ) -> (Recovery, RecoveryAction, SessionFlags, RuntimeState) {
        match (self, event) {
            (Recovery::First(attempt), RecoveryEvent::Copy(event)) => {
                let step = attempt.step(source, flags, state, event, now);
                let judged = Self::judged(step.0, step.1, false);
                (judged.0, judged.1, step.2, step.3)
            },
            (Recovery::Inspecting, RecoveryEvent::Inspected(target)) => if source.accepts(target) {
                (
                    Recovery::Restarting,
                    RecoveryAction::Restart(source),
                    SessionFlags {
                        stopped: true,
                        has_cached_frame: false,
                        capture_requested: false,
                        ..flags
                    },
                    state,
                )
            } else {
                let end = Self::failed(source.objection(target));
                (end.0, end.1, flags, state)
            },
            (Recovery::Restarting, RecoveryEvent::Restarted(Err(error))) => {
                let end = Self::failed(error);
                (end.0, end.1, flags, state)
            },
            (Recovery::Restarting, RecoveryEvent::Restarted(Ok(_))) => {
                let first = CopyAttempt::start(flags.stopped, None, Some(0), now);
                let judged = Self::judged(first.0, first.1, true);
                (
                    judged.0,
                    judged.1,
                    if flags.stopped {
                        SessionFlags { capture_requested: false, ..flags }
                    } else {
                        flags
                    },
                    state,
                )
            },
            (Recovery::Second(attempt), RecoveryEvent::Copy(event)) => {
                let step = attempt.step(source, flags, state, event, now);
                let judged = Self::judged(step.0, step.1, true);
                (judged.0, judged.1, step.2, step.3)
            },
            _ => {
                let end = Self::failed(CaptureError::Stopped);
                (end.0, end.1, flags, state)
            },
        }
    }

    /// The event is the one that the last action asked for.
    pub open spec fn expects(self, state: RuntimeState, event: RecoveryEvent) -> bool {
        match self {
            Recovery::First(attempt) => event is Copy && attempt.expects(state, event->Copy_0),
            Recovery::Inspecting => event is Inspected,
            Recovery::Restarting => event is Restarted,
            Recovery::Second(attempt) => event is Copy && attempt.expects(state, event->Copy_0),
            Recovery::Finished => false,
        }
    }

    fn judge(attempt: CopyAttempt, action: CopyAction, second: bool) -> (result: (
        Recovery,
        RecoveryAction,
    ))
        ensures
            result == Self::judged(attempt, action, second),
    {
        match action {
            CopyAction::Done(result) => {
                let unavailable = match &result {
                    Ok(_) => false,
                    Err(error) => error.is_frame_unavailable(),
                };
                if !second && unavailable {
                    (Recovery::Inspecting, RecoveryAction::Inspect)
                } else {
                    (Recovery::Finished, RecoveryAction::Done(result, second))
                }
            },
            _ => (
                if second {
                    Recovery::Second(attempt)
                } else {
                    Recovery::First(attempt)
                },
                RecoveryAction::Copy(action),
            ),
        }
    }

    /// Begins a request, with an armed request where there is one.
    pub fn begin(flags: &mut SessionFlags, request: Option<ArmedRequest>, now: u64) -> (result: (
        Recovery,
        RecoveryAction,
    ))
        ensures
            ({
                let first = CopyAttempt::start(old(flags).stopped, request, None, now);
                result == Self::judged(first.0, first.1, false)
            }),
            *final(flags) == if old(flags).stopped {
                SessionFlags { capture_requested: false, ..*old(flags) }
            } else {
                *old(flags)
            },
    {
        let (attempt, action) = CopyAttempt::begin(flags, request, None, now);
        Self::judge(attempt, action, false)
    }

    /// Takes what the last action gave.
    pub fn advance(
        &mut self,
        source: &CaptureSource,
        flags: &mut SessionFlags,
        state: &mut RuntimeState,
        event: RecoveryEvent,
        now: u64,
    ) -> (result: RecoveryAction)
        requires
            now <= CLOCK_LIMIT,
            old(self).expects(*old(state), event),
        ensures
            (*final(self), result, *final(flags), *final(state)) == old(self).step(
                *source,
                *old(flags),
                *old(state),
                event,
                now,
            ),
            result is Done == (*final(self) is Finished),
            old(state).consistent(*old(flags)) ==> final(state).consistent(*final(flags)),
    {
        match event {
            RecoveryEvent::Copy(event) => {
                let second = match self {
                    Recovery::Second(_) => true,
                    _ => false,
                };
                let mut attempt = match *self {
                    Recovery::First(attempt) => attempt,
                    Recovery::Second(attempt) => attempt,
                    _ => {
                        return RecoveryAction::Inspect;
                    },
                };
                let action = attempt.advance(source, flags, state, event, now);
                let (next, action) = Self::judge(attempt, action, second);
                *self = next;
                action
            },
            RecoveryEvent::Inspected(target) => match source.validate_remote_target(target) {
                Ok(()) => {
                    flags.stop();
                    *self = Recovery::Restarting;
                    RecoveryAction::Restart(*source)
                },
                Err(error) => {
                    *self = Recovery::Finished;
                    RecoveryAction::Done(Err(error), false)
                },
            },
            RecoveryEvent::Restarted(Ok(())) => {
                let (attempt, action) = CopyAttempt::begin(flags, None, Some(0), now);
                let (next, action) = Self::judge(attempt, action, true);
                *self = next;
                action
            },
            RecoveryEvent::Restarted(Err(error)) => {
                *self = Recovery::Finished;
                RecoveryAction::Done(Err(error), false)
            },
        }
    }
}

impl Recovery {
    /// The attempt under way.
    pub open spec fn attempt(self) -> Option<CopyAttempt> {
        match self {
            Recovery::First(attempt) => Some(attempt),
            Recovery::Second(attempt) => Some(attempt),
            _ => None,
        }
    }

    /// A frame that was found is newer than the baseline of the request that it answers.
    pub open spec fn is_sound(self) -> bool {
        self.attempt() is Some ==> self.attempt()->0.is_sound()
    }
}

/// In either session the frame that is written is the one that was found newer than the
/// baseline.
pub proof fn law_the_fresh_frame_is_recovered(
    recovery: Recovery,
    source: CaptureSource,
    flags: SessionFlags,
    state: RuntimeState,
    event: RecoveryEvent,
    now: u64,
)
    requires
        recovery.is_sound(),
        recovery.expects(state, event),
    ensures
        ({
            let next = recovery.step(source, flags, state, event, now);
            &&& next.0.is_sound()
            &&& next.1 == RecoveryAction::Copy(CopyAction::Write) ==> {
                &&& recovery.attempt() is Some
                &&& recovery.attempt()->0.phase is Rechecking
                &&& recovery.attempt()->0.phase->Rechecking_0.is_newer()
                &&& recovery.attempt()->0.phase->Rechecking_0.is_cached(state)
            }
        }),
{
    match recovery.attempt() {
        Some(attempt) => {
            if event is Copy {
                law_the_fresh_frame_is_written(
                    attempt,
                    source,
                    flags,
                    state,
                    event->Copy_0,
                    now,
                );
            }
        },
        None => {},
    }
}

/// A request is restarted at most once: nothing that happens in the new session asks
/// for another one.
pub proof fn law_restart_happens_once(attempt: CopyAttempt, action: CopyAction)
    ensures
        !(Recovery::judged(attempt, action, true).0 is Inspecting),
        !(Recovery::judged(attempt, action, true).1 is Restart),
{
}

/// A first attempt that fails for any other reason than a missing frame is reported as
/// it is, and the session stays.
pub proof fn law_other_failures_do_not_restart(attempt: CopyAttempt, error: CaptureError)
    requires
        !error.asks_for_new_session(),
    ensures
        ({
            let failed = CopyAction::Done(Err::<CaptureReceipt, CaptureError>(error));
            Recovery::judged(attempt, failed, false).1 == RecoveryAction::Done(
                Err::<CaptureReceipt, CaptureError>(error),
                false,
            )
        }),
{
}

/// Before a new session is started the old one is stopped, so that it delivers no frame
/// and accepts no output any more.
pub proof fn law_old_session_is_stopped_before_restart(
    recovery: Recovery,
    source: CaptureSource,
    flags: SessionFlags,
    state: RuntimeState,
    event: RecoveryEvent,
    now: u64,
)
    requires
        recovery.expects(state, event),
        recovery.step(source, flags, state, event, now).1 is Restart,
    ensures
        ({
            let after = recovery.step(source, flags, state, event, now).2;
            after.stopped && !after.has_cached_frame && !after.capture_requested
        }),
{
}

/// A resident session has stalled at `now`: it lost its frame to an error, nothing asks
/// for one, and no frame has arrived for a long time.
pub open spec fn has_stalled(
    source: CaptureSource,
    flags: SessionFlags,
    state: RuntimeState,
    now: u64,
    pending_stops: usize,
) -> bool {
    &&& pending_stops == 0
    &&& source is RemoteTeamsWindow
    &&& !flags.has_cached_frame
    &&& !flags.preflight_in_progress
    &&& !flags.capture_requested
    &&& state.latest is None
    &&& state.last_error is Some
    &&& state.last_observed_at is Some
    &&& elapsed(now, state.last_observed_at->0) >= RESIDENT_STALL_TIMEOUT
}

/// Stops a resident session that has stalled, and returns whether it did. The lost
/// frame alone is no reason: frames that arrive keep the session.
pub fn retire_stalled_remote(
    source: &CaptureSource,
    flags: &mut SessionFlags,
    state: &RuntimeState,
    now: u64,
    pending_stops: usize,
) -> (result: bool)
    ensures
        result == has_stalled(*source, *old(flags), *state, now, pending_stops),
        *final(flags) == if result {
            SessionFlags {
                stopped: true,
                has_cached_frame: false,
                capture_requested: false,
                ..*old(flags)
            }
        } else {
            *old(flags)
        },
{
    if pending_stops != 0 || source.is_local_monitor() || flags.has_cached_frame
        || flags.preflight_in_progress || flags.capture_requested {
        return false;
    }
    let last_observed_at: u64 = match state.last_observed_at {
        Some(last) => last,
        None => {
            return false;
        },
    };
    let idle: u64 = elapsed_since(now, last_observed_at);
    if state.latest.is_some() || state.last_error.is_none() || idle < RESIDENT_STALL_TIMEOUT {
        return false;
    }
    flags.stop();
    true
}

/// A resident session and what its frame source says.
#[derive(Debug)]
pub struct ResidentSession {
    pub source: CaptureSource,
    pub flags: SessionFlags,
    pub state: RuntimeState,
    /// Whether the frame source has ended, where that could be found out.
    pub source_ended: Option<bool>,
}

/// Whether a resident session has to be started: there is none, it is over, or it has
/// stalled and was retired just now. `state_busy` says that the frame buffer is in use;
/// such a session is never retired.
pub fn resident_retry_required(
    session: &mut Option<ResidentSession>,
    state_busy: bool,
    now: u64,
    pending_stops: usize,
) -> (result: bool)
    ensures
        match *old(session) {
            None => result && *final(session) is None,
            Some(before) => {
                let over = before.flags.over(before.source_ended);
                let stalled = !state_busy && has_stalled(
                    before.source,
                    before.flags,
                    before.state,
                    now,
                    pending_stops,
                );
                &&& result == (over || stalled)
                &&& *final(session) is Some
                &&& *final(session) == Some(
                    ResidentSession {
                        flags: if !over && stalled {
                            SessionFlags {
                                stopped: true,
                                has_cached_frame: false,
                                capture_requested: false,
                                ..before.flags
                            }
                        } else {
                            before.flags
                        },
                        ..before
                    },
                )
            },
        },
{
    match session {
        None => true,
        Some(session) => {
            if session.flags.is_finished(session.source_ended) {
                return true;
            }
            if state_busy {
                return false;
            }
            retire_stalled_remote(
                &session.source,
                &mut session.flags,
                &session.state,
                now,
                pending_stops,
            )
        },
    }
}

/// A retired session reports no frame, is over, and rejects every later attempt.
pub proof fn law_retired_session_rejects_output(
    flags: SessionFlags,
    request: Option<ArmedRequest>,
    source_ended: Option<bool>,
    now: u64,
)
    requires
        flags.stopped,
    ensures
        flags.over(source_ended),
        CopyAttempt::start(flags.stopped, request, None, now).1 == CopyAction::Done(
            Err::<CaptureReceipt, CaptureError>(CaptureError::Stopped),
        ),
{
}

/// A first attempt without a frame looks at the target and, where that can be captured,
/// begins anew in a new session that asks for any frame; that session's outcome is the
/// request's, with the note that it replaced the old one.
pub proof fn law_missing_frames_are_recovered(
    ended: CopyAttempt,
    error: CaptureError,
    source: CaptureSource,
    flags: SessionFlags,
    state: RuntimeState,
    fresh_flags: SessionFlags,
    fresh_state: RuntimeState,
    now: u64,
)
    requires
        error == CaptureError::LocalFrameMissing || error == CaptureError::RemoteFrameMissing
            || error == CaptureError::SessionFinished || error == CaptureError::FrameTooOld,
        !fresh_flags.stopped,
    ensures
        ({
            let failed = Recovery::judged(
                ended,
                CopyAction::Done(Err::<CaptureReceipt, CaptureError>(error)),
                false,
            );
            let looked = failed.0.step(
                source,
                flags,
                state,
                RecoveryEvent::Inspected(TargetState { exists: true, minimized: false }),
                now,
            );
            let begun = looked.0.step(
                source,
                fresh_flags,
                fresh_state,
                RecoveryEvent::Restarted(Ok::<(), CaptureError>(())),
                now,
            );
            &&& failed.1 is Inspect
            &&& looked.1 == RecoveryAction::Restart(source)
            &&& looked.2.stopped
            &&& begun.1 == RecoveryAction::Copy(CopyAction::Inspect)
            &&& begun.0 is Second
            &&& begun.0->Second_0.baseline_override == Some(0u64)
            &&& begun.0->Second_0.request is None
            &&& begun.0->Second_0.started_at == now
            &&& begun.2 == fresh_flags
        }),
{
}

/// Any other end of the first attempt, and every end of the second, is the end of the
/// request, as it is.
pub proof fn law_every_other_end_is_final(
    attempt: CopyAttempt,
    result: Result<CaptureReceipt, CaptureError>,
    action: CopyAction,
)
    requires
        !(action is Done),
    ensures
        Recovery::judged(attempt, CopyAction::Done(result), true).1 == RecoveryAction::Done(
            result,
            true,
        ),
        Recovery::judged(attempt, CopyAction::Done(result), true).0 is Finished,
        result is Ok ==> Recovery::judged(attempt, CopyAction::Done(result), false).1
            == RecoveryAction::Done(result, false),
        result is Err && result->Err_0 != CaptureError::LocalFrameMissing && result->Err_0
            != CaptureError::RemoteFrameMissing && result->Err_0
            != CaptureError::SessionFinished && result->Err_0 != CaptureError::FrameTooOld
            ==> Recovery::judged(
            attempt,
            CopyAction::Done(result),
            false,
        ).1 == RecoveryAction::Done(result, false),
        Recovery::judged(attempt, action, false) == (
            Recovery::First(attempt),
            RecoveryAction::Copy(action),
        ),
        Recovery::judged(attempt, action, true) == (
            Recovery::Second(attempt),
            RecoveryAction::Copy(action),
        ),
{
}

/// No new session is started for a window that is gone or minimized, nor after one could not
/// be started: the request ends with just that, and the old session stays as it is.
pub proof fn law_recovery_fails_as_it_must(
    source: CaptureSource,
    flags: SessionFlags,
    state: RuntimeState,
    target: TargetState,
    error: CaptureError,
    now: u64,
)
    ensures
        ({
            let looked = Recovery::Inspecting.step(
                source,
                flags,
                state,
                RecoveryEvent::Inspected(target),
                now,
            );
            let started = Recovery::Restarting.step(
                source,
                flags,
                state,
                RecoveryEvent::Restarted(Err::<(), CaptureError>(error)),
                now,
            );
            &&& source is RemoteTeamsWindow && !target.exists ==> looked.1
                == RecoveryAction::Done(
                Err::<CaptureReceipt, CaptureError>(CaptureError::TargetMissing),
                false,
            ) && looked.2 == flags
            &&& source is RemoteTeamsWindow && target.exists && target.minimized ==> looked.1
                == RecoveryAction::Done(
                Err::<CaptureReceipt, CaptureError>(CaptureError::TargetMinimized),
                false,
            ) && looked.2 == flags
            &&& source is LocalMonitor ==> looked.1 == RecoveryAction::Restart(source)
            &&& started.1 == RecoveryAction::Done(
                Err::<CaptureReceipt, CaptureError>(error),
                false,
            )
        }),
{
}

/// Steps of an attempt are steps of the request: the session changes as the attempt says.
pub proof fn law_attempts_drive_the_request(
    attempt: CopyAttempt,
    source: CaptureSource,
    flags: SessionFlags,
    state: RuntimeState,
    event: CopyEvent,
    now: u64,
)
    ensures
        ({
            let inner = attempt.step(source, flags, state, event, now);
            let first = Recovery::First(attempt).step(
                source,
                flags,
                state,
                RecoveryEvent::Copy(event),
                now,
            );
            let second = Recovery::Second(attempt).step(
                source,
                flags,
                state,
                RecoveryEvent::Copy(event),
                now,
            );
            &&& first.2 == inner.2 && first.3 == inner.3
            &&& second.2 == inner.2 && second.3 == inner.3
            &&& !(inner.1 is Done) ==> first.1 == RecoveryAction::Copy(inner.1) && second.1
                == RecoveryAction::Copy(inner.1) && first.0 == Recovery::First(inner.0)
                && second.0 == Recovery::Second(inner.0)
            &&& inner.1 is Done ==> second.1 == RecoveryAction::Done(inner.1->Done_0, true)
        }),
{
}

/// A resident session of a window is given up only after five seconds without a frame, and
/// only where it has lost its frame to a failure, nobody uses it and no other session is
/// still being stopped. A session of a monitor never is.
pub proof fn law_only_silent_sessions_are_given_up(
    source: CaptureSource,
    flags: SessionFlags,
    state: RuntimeState,
    now: u64,
    pending_stops: usize,
)
    ensures
        has_stalled(source, flags, state, now, pending_stops) <==> {
            &&& source is RemoteTeamsWindow
            &&& pending_stops == 0
            &&& !flags.has_cached_frame && state.latest is None
            &&& state.last_error is Some
            &&& !flags.preflight_in_progress && !flags.capture_requested
            &&& state.last_observed_at is Some
            &&& now >= state.last_observed_at->0 + 5_000_000_000
        },
{
}

} // verus!
