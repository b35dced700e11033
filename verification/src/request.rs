//! A user's request to copy the shared content, from the click to the receipt.
//!
//! The layout is confirmed first. A frame that is still the newest one may be copied
//! as it is; otherwise a newer one is waited for, in a new session if need be. Nothing
//! is written unless the layout is confirmed once more right before.

use vstd::prelude::*;

use crate::copy::{
    arm_request, require_frame_after_request, ArmedRequest, CopyAction, CopyAttempt, CopyEvent,
};
use crate::error::CaptureError;
use crate::geometry::FrameSize;
use crate::layout::{require_matching_layout, RemoteLayout};
use crate::numeric::{elapsed, elapsed_since, CLOCK_LIMIT};
use crate::recovery::{
    law_the_fresh_frame_is_recovered, Recovery, RecoveryAction, RecoveryEvent,
};
use crate::session::{CachedFrame, RuntimeState, SessionFlags};
use crate::source::{CaptureReceipt, CaptureSource, TargetState};

verus! {

/// The number of the cached frame, where it is the newest one seen. A frame of a local
/// monitor is never reused.
pub open spec fn reusable_sequence(
    source: CaptureSource,
    flags: SessionFlags,
    state: RuntimeState,
) -> Option<u64> {
    if source is RemoteTeamsWindow && state.latest is Some && state.latest->0.sequence
        == flags.observed_sequence {
        Some(state.latest->0.sequence)
    } else {
        None
    }
}

pub fn current_cached_sequence(
    source: &CaptureSource,
    flags: &SessionFlags,
    state: &RuntimeState,
) -> (result: Option<u64>)
    ensures
        result == reusable_sequence(*source, *flags, *state),
{
    if source.is_local_monitor() {
        return None;
    }
    match &state.latest {
        Some(cached) => if cached.sequence == flags.observed_sequence {
            Some(cached.sequence)
        } else {
            None
        },
        None => None,
    }
}

/// The cached frame is still the one numbered `sequence`, nothing newer was seen, and it
/// was cut under `layout` from a frame of the present size.
pub open spec fn is_still_current(
    flags: SessionFlags,
    state: RuntimeState,
    sequence: u64,
    layout: RemoteLayout,
) -> bool {
    &&& state.latest is Some
    &&& state.latest->0.sequence == sequence
    &&& flags.observed_sequence == sequence
    &&& state.latest->0.remote_layout == Some(layout)
    &&& state.source_size == Some(
        FrameSize { width: state.latest->0.source_width, height: state.latest->0.source_height },
    )
}

fn still_current(
    flags: &SessionFlags,
    state: &RuntimeState,
    sequence: u64,
    layout: RemoteLayout,
) -> (result: bool)
    ensures
        result == is_still_current(*flags, *state, sequence, layout),
{
    match &state.latest {
        None => false,
        Some(cached) => {
            let same_layout = match cached.remote_layout {
                Some(cached_layout) => cached_layout == layout,
                None => false,
            };
            let same_size = match state.source_size {
                Some(size) => size.width == cached.source_width && size.height
                    == cached.source_height,
                None => false,
            };
            cached.sequence == sequence && flags.observed_sequence == sequence && same_layout
                && same_size
        },
    }
}

/// Whether a waited-for frame may be written: the request is still authorized, the frame
/// was rendered after it, and the layout read just now is both the one of the request and
/// the one of the frame. A local monitor has no layout.
pub open spec fn output_verdict(
    source: CaptureSource,
    rendered_at_100ns: i64,
    cached_layout: Option<RemoteLayout>,
    request: ArmedRequest,
    request_layout: Option<RemoteLayout>,
    authorized: Result<(), CaptureError>,
    current: Result<RemoteLayout, CaptureError>,
) -> Result<(), CaptureError> {
    if authorized is Err {
        authorized
    } else if rendered_at_100ns <= request.requested_at_100ns {
        Err(CaptureError::FrameTooOld)
    } else if source is LocalMonitor {
        Ok(())
    } else {
        match current {
            Err(error) => Err(error),
            Ok(layout) => if request_layout == Some(layout) && cached_layout == Some(layout) {
                Ok(())
            } else {
                Err(CaptureError::LayoutMismatch)
            },
        }
    }
}

pub fn validate_output(
    source: &CaptureSource,
    cached: &CachedFrame,
    request: ArmedRequest,
    request_layout: Option<RemoteLayout>,
    authorized: Result<(), CaptureError>,
    current: Result<RemoteLayout, CaptureError>,
) -> (result: Result<(), CaptureError>)
    ensures
        result == output_verdict(
            *source,
            cached.rendered_at_100ns,
            cached.remote_layout,
            request,
            request_layout,
            authorized,
            current,
        ),
{
    match authorized {
        Ok(()) => {},
        Err(error) => {
            return Err(error);
        },
    }
    match require_frame_after_request(cached.rendered_at_100ns, request.requested_at_100ns) {
        Ok(()) => {},
        Err(error) => {
            return Err(error);
        },
    }
    if source.is_local_monitor() {
        return Ok(());
    }
    match current {
        Err(error) => Err(error),
        Ok(layout) => match require_matching_layout(request_layout, layout) {
            Ok(()) => require_matching_layout(cached.remote_layout, layout),
            Err(error) => Err(error),
        },
    }
}

/// How far a request has come.
#[derive(Clone, Copy, Debug, PartialEq, Eq, Structural)]
pub enum RunPhase {
    Authorizing,
    /// Looking at the target window before its layout is confirmed.
    Inspecting,
    ConfirmingLayout,
    /// Looking at the session before the newest frame is reused.
    FastInspecting(u64, RemoteLayout),
    /// Confirming the layout once more for the newest frame.
    FastConfirming(u64, RemoteLayout),
    /// Looking at the target window right before the newest frame, which has this number, is
    /// written.
    FastRechecking(u64),
    FastWriting(u64),
    /// Reading the frame clock.
    Arming(Option<RemoteLayout>),
    Recovering(Recovery, ArmedRequest, Option<RemoteLayout>),
    Finished,
}

/// A request to copy the shared content.
#[derive(Clone, Copy, Debug, PartialEq, Eq, Structural)]
pub struct CaptureRun {
    pub phase: RunPhase,
    /// The newest frame when the request began, if it can be reused.
    pub latest_sequence: Option<u64>,
    pub started_at: u64,
}

/// What an action gave. After a restart, events are about the new session.
#[derive(Debug)]
pub enum RunEvent {
    Authorized(Result<(), CaptureError>),
    /// The target window's state, and whether the frame source has ended.
    Inspected(TargetState, bool),
    LayoutConfirmed(Result<RemoteLayout, CaptureError>),
    Written(Result<(), CaptureError>),
    Clock(Result<i64, CaptureError>),
    Recovery(RecoveryEvent),
    /// The authorization and the layout for the frame that was waited for. A local
    /// monitor's layout is not looked at.
    OutputConfirmed(Result<(), CaptureError>, Result<RemoteLayout, CaptureError>),
}

/// What to do next.
#[derive(Debug)]
pub enum RunAction {
    /// Find out whether the request is still authorized.
    Authorize,
    /// Look at the target window and the frame source.
    Inspect,
    /// Confirm the layout for frames of this size.
    ConfirmLayout(FrameSize),
    /// Write the cached frame out.
    Write,
    /// Read the frame clock.
    ReadClock,
    /// An action of the recovery; never its end or a validation.
    Recovery(RecoveryAction),
    /// Confirm the authorization and, for a window, the layout for frames of this size.
    ConfirmOutput(FrameSize),
    /// The end, and whether a new session has replaced the old one.
    Done(Result<CaptureReceipt, CaptureError>, bool),
}

impl CaptureRun {
    pub open spec fn went_on(self, phase: RunPhase, action: RunAction) -> (CaptureRun, RunAction) {
        (CaptureRun { phase, ..self }, action)
    }

    pub open spec fn failed(self, error: CaptureError) -> (CaptureRun, RunAction) {
        self.went_on(
            RunPhase::Finished,
            RunAction::Done(Err::<CaptureReceipt, CaptureError>(error), false),
        )
    }

    /// What comes after the layout of the request was confirmed: the newest frame is
    /// reused where there is one, otherwise a newer one is waited for.
    pub open spec fn after_layout(self, layout: Option<RemoteLayout>) -> (CaptureRun, RunAction) {
        match (self.latest_sequence, layout) {
            (Some(sequence), Some(layout)) => self.went_on(
                RunPhase::FastInspecting(sequence, layout),
                RunAction::Inspect,
            ),
            _ => self.went_on(RunPhase::Arming(layout), RunAction::ReadClock),
        }
    }

    /// What a step of the recovery means for the request.
    pub open spec fn after_recovery(
        self,
        recovery: Recovery,
        action: RecoveryAction,
        request: ArmedRequest,
        layout: Option<RemoteLayout>,
        state: RuntimeState,
        now: u64,
    ) -> (CaptureRun, RunAction) {
        match action {
            RecoveryAction::Done(Ok(receipt), replaced) => self.went_on(
                RunPhase::Finished,
                RunAction::Done(
                    Ok::<CaptureReceipt, CaptureError>(
                        CaptureReceipt { latency: elapsed(now, self.started_at), ..receipt },
                    ),
                    replaced,
                ),
            ),
            RecoveryAction::Done(Err(error), replaced) => self.went_on(
                RunPhase::Finished,
                RunAction::Done(Err::<CaptureReceipt, CaptureError>(error), replaced),
            ),
            RecoveryAction::Copy(CopyAction::Validate) if state.latest is Some => self.went_on(
                RunPhase::Recovering(recovery, request, layout),
                RunAction::ConfirmOutput(
                    FrameSize {
                        width: state.latest->0.source_width,
                        height: state.latest->0.source_height,
                    },
                ),
            ),
            _ => self.went_on(
                RunPhase::Recovering(recovery, request, layout),
                RunAction::Recovery(action),
            ),
        }
    }

    /// The event of the recovery that an event of the request stands for.
    pub open spec fn recovery_event(
        source: CaptureSource,
        state: RuntimeState,
        request: ArmedRequest,
        layout: Option<RemoteLayout>,
        event: RunEvent,
    ) -> RecoveryEvent {
        match event {
            RunEvent::Recovery(event) => event,
            RunEvent::OutputConfirmed(authorized, current) => RecoveryEvent::Copy(
                CopyEvent::Validated(
                    output_verdict(
                        source,
                        state.latest->0.rendered_at_100ns,
                        state.latest->0.remote_layout,
                        request,
                        layout,
                        authorized,
                        current,
                    ),
                ),
            ),
            _ => RecoveryEvent::Inspected(TargetState { exists: false, minimized: false }),
        }
    }

    /// The request, the action and the session that follow from an event, up to the
    /// recovery.
    pub open spec fn next(
        self,
        source: CaptureSource,
        flags: SessionFlags,
        state: RuntimeState,
        event: RunEvent,
        now: u64,
    ) -> (CaptureRun, RunAction) {
        match (self.phase, event) {
            (RunPhase::Authorizing, RunEvent::Authorized(Err(error))) => self.failed(error),
            (RunPhase::Authorizing, RunEvent::Authorized(Ok(_))) => self.went_on(
                RunPhase::Inspecting,
                RunAction::Inspect,
            ),
            (RunPhase::Inspecting, RunEvent::Inspected(target, _)) => {
                if !source.accepts(target) {
                    self.failed(source.objection(target))
                } else if source is LocalMonitor {
                    self.after_layout(None)
                } else {
                    match state.frame_size() {
                        Some(size) => self.went_on(
                            RunPhase::ConfirmingLayout,
                            RunAction::ConfirmLayout(size),
                        ),
                        None => self.failed(CaptureError::Preparing),
                    }
                }
            },
            (RunPhase::ConfirmingLayout, RunEvent::LayoutConfirmed(Err(error))) => self.failed(
                error,
            ),
            (RunPhase::ConfirmingLayout, RunEvent::LayoutConfirmed(Ok(layout))) =>
                self.after_layout(Some(layout)),
            (RunPhase::FastInspecting(sequence, layout), RunEvent::Inspected(_, ended)) => {
                if flags.stopped {
                    self.failed(CaptureError::Stopped)
                } else if ended {
                    self.went_on(RunPhase::Arming(Some(layout)), RunAction::ReadClock)
                } else {
                    self.went_on(
                        RunPhase::FastConfirming(sequence, layout),
                        RunAction::ConfirmLayout(
                            FrameSize {
                                width: layout.geometry.image_width,
                                height: layout.geometry.image_height,
                            },
                        ),
                    )
                }
            },
            (RunPhase::FastConfirming(_, _), RunEvent::LayoutConfirmed(Err(error))) => self.failed(
                error,
            ),
            (RunPhase::FastConfirming(sequence, layout), RunEvent::LayoutConfirmed(Ok(current))) => {
                if current != layout {
                    self.failed(CaptureError::LayoutMismatch)
                } else if is_still_current(flags, state, sequence, layout) {
                    self.went_on(RunPhase::FastRechecking(sequence), RunAction::Inspect)
                } else {
                    self.went_on(RunPhase::Arming(Some(layout)), RunAction::ReadClock)
                }
            },
            (RunPhase::FastRechecking(sequence), RunEvent::Inspected(target, _)) => {
                if !source.accepts(target) {
                    self.failed(source.objection(target))
                } else if flags.stopped {
                    self.failed(CaptureError::Stopped)
                } else {
                    self.went_on(RunPhase::FastWriting(sequence), RunAction::Write)
                }
            },
            (RunPhase::FastWriting(_), RunEvent::Written(Err(error))) => self.failed(error),
            (RunPhase::FastWriting(_), RunEvent::Written(Ok(_))) => self.went_on(
                RunPhase::Finished,
                RunAction::Done(
                    Ok::<CaptureReceipt, CaptureError>(
                        CaptureReceipt {
                            screen_rect: state.latest->0.fallback_screen_rect,
                            target_window_id: source.window(),
                            latency: elapsed(now, self.started_at),
                            frame_age: elapsed(now, state.latest->0.captured_at),
                        },
                    ),
                    false,
                ),
            ),
            (RunPhase::Arming(_), RunEvent::Clock(Err(error))) => self.failed(error),
            _ => self.failed(CaptureError::Stopped),
        }
    }

    /// The request that is armed when the clock reads `time`.
    pub open spec fn armed(flags: SessionFlags, time: i64) -> ArmedRequest {
        ArmedRequest { baseline_sequence: flags.observed_sequence, requested_at_100ns: time }
    }

    /// The request, the action and the session that follow from an event.
    pub open spec fn step(
        self,
        source: CaptureSource,
        flags: SessionFlags,
        state: RuntimeState,
        event: RunEvent,
        now: u64,
    ) -> (CaptureRun, RunAction, SessionFlags, RuntimeState) {
        match (self.phase, event) {
            (RunPhase::Arming(layout), RunEvent::Clock(Ok(time))) => {
                let request = Self::armed(flags, time);
                let first = CopyAttempt::start(
                    flags.stopped,
                    Some(request),
                    None,
                    now,
                );
                let judged = Recovery::judged(first.0, first.1, false);
                let state = RuntimeState {
                    requested_after_sequence: request.baseline_sequence,
                    ..state
                };
                let next = self.after_recovery(judged.0, judged.1, request, layout, state, now);
                (
                    next.0,
                    next.1,
                    SessionFlags {
                        preflight_in_progress: false,
                        capture_requested: !flags.stopped,
                        ..flags
                    },
                    state,
                )
            },
            (RunPhase::Recovering(recovery, request, layout), _) => {
                let inner = Self::recovery_event(source, state, request, layout, event);
                let step = recovery.step(source, flags, state, inner, now);
                let next = self.after_recovery(step.0, step.1, request, layout, step.3, now);
                (next.0, next.1, step.2, step.3)
            },
            _ => {
                let next = self.next(source, flags, state, event, now);
                let flags = if next.1 is Done {
                    SessionFlags { preflight_in_progress: false, ..flags }
                } else {
                    flags
                };
                (next.0, next.1, flags, state)
            },
        }
    }

    /// The frame with this number is cached.
    pub open spec fn is_cached(state: RuntimeState, sequence: u64) -> bool {
        state.latest is Some && state.latest->0.sequence == sequence
    }

    /// The event is the one that the last action asked for, and the frame that it is
    /// about is still cached: whoever carries a request out keeps it until it is written. A
    /// frame that was waited for is validated by the confirmation of the output and by
    /// nothing else.
    pub open spec fn expects(
        self,
        source: CaptureSource,
        state: RuntimeState,
        event: RunEvent,
    ) -> bool {
        match self.phase {
            RunPhase::Authorizing => event is Authorized,
            RunPhase::Inspecting => event is Inspected,
            RunPhase::ConfirmingLayout => event is LayoutConfirmed,
            RunPhase::FastInspecting(_, _) => event is Inspected,
            RunPhase::FastConfirming(_, _) => event is LayoutConfirmed,
            RunPhase::FastRechecking(sequence) => event is Inspected && Self::is_cached(
                state,
                sequence,
            ),
            RunPhase::FastWriting(sequence) => event is Written && Self::is_cached(
                state,
                sequence,
            ),
            RunPhase::Arming(_) => event is Clock,
            RunPhase::Recovering(recovery, request, layout) => {
                &&& event is Recovery || (event is OutputConfirmed && state.latest is Some)
                &&& event is Recovery ==> !(event->Recovery_0 is Copy
                    && event->Recovery_0->Copy_0 is Validated)
                &&& recovery.expects(
                    state,
                    Self::recovery_event(source, state, request, layout, event),
                )
            },
            RunPhase::Finished => false,
        }
    }

    /// Begins a request. While its layout is confirmed, frames are not cached in
    /// advance.
    pub fn begin(
        source: &CaptureSource,
        flags: &mut SessionFlags,
        state: &RuntimeState,
        now: u64,
    ) -> (result: (CaptureRun, RunAction))
        ensures
            result == (
                CaptureRun {
                    phase: RunPhase::Authorizing,
                    latest_sequence: reusable_sequence(*source, *old(flags), *state),
                    started_at: now,
                },
                RunAction::Authorize,
            ),
            *final(flags) == (SessionFlags { preflight_in_progress: true, ..*old(flags) }),
    {
        flags.preflight_in_progress = true;
        (
            CaptureRun {
                phase: RunPhase::Authorizing,
                latest_sequence: current_cached_sequence(source, flags, state),
                started_at: now,
            },
            RunAction::Authorize,
        )
    }

    fn fail(&mut self, error: CaptureError) -> (result: RunAction)
        ensures
            (*final(self), result) == old(self).failed(error),
    {
        self.phase = RunPhase::Finished;
        RunAction::Done(Err(error), false)
    }

    fn layout_known(&mut self, layout: Option<RemoteLayout>) -> (result: RunAction)
        ensures
            (*final(self), result) == old(self).after_layout(layout),
    {
        match (self.latest_sequence, layout) {
            (Some(sequence), Some(layout)) => {
                self.phase = RunPhase::FastInspecting(sequence, layout);
                RunAction::Inspect
            },
            _ => {
                self.phase = RunPhase::Arming(layout);
                RunAction::ReadClock
            },
        }
    }

    fn recovery_went_on(
        &mut self,
        recovery: Recovery,
        action: RecoveryAction,
        request: ArmedRequest,
        layout: Option<RemoteLayout>,
        state: &RuntimeState,
        now: u64,
    ) -> (result: RunAction)
        ensures
            (*final(self), result) == old(self).after_recovery(
                recovery,
                action,
                request,
                layout,
                *state,
                now,
            ),
    {
        match action {
            RecoveryAction::Done(Ok(receipt), replaced) => {
                self.phase = RunPhase::Finished;
                let latency: u64 = elapsed_since(now, self.started_at);
                RunAction::Done(
                    Ok(
                        CaptureReceipt {
                            screen_rect: receipt.screen_rect,
                            target_window_id: receipt.target_window_id,
                            latency,
                            frame_age: receipt.frame_age,
                        },
                    ),
                    replaced,
                )
            },
            RecoveryAction::Done(Err(error), replaced) => {
                self.phase = RunPhase::Finished;
                RunAction::Done(Err(error), replaced)
            },
            RecoveryAction::Copy(CopyAction::Validate) => {
                self.phase = RunPhase::Recovering(recovery, request, layout);
                match &state.latest {
                    Some(cached) => RunAction::ConfirmOutput(
                        FrameSize { width: cached.source_width, height: cached.source_height },
                    ),
                    None => RunAction::Recovery(RecoveryAction::Copy(CopyAction::Validate)),
                }
            },
            action => {
                self.phase = RunPhase::Recovering(recovery, request, layout);
                RunAction::Recovery(action)
            },
        }
    }

    fn decide(
        &mut self,
        source: &CaptureSource,
        flags: &SessionFlags,
        state: &RuntimeState,
        event: RunEvent,
        now: u64,
    ) -> (result: RunAction)
        requires
            old(self).expects(*source, *state, event),
            !(old(self).phase is Recovering),
            !(event is Clock && event->Clock_0 is Ok),
        ensures
            (*final(self), result) == old(self).next(*source, *flags, *state, event, now),
    {
        match event {
            RunEvent::Authorized(Err(error)) => self.fail(error),
            RunEvent::Authorized(Ok(())) => {
                self.phase = RunPhase::Inspecting;
                RunAction::Inspect
            },
            RunEvent::Inspected(target, ended) => match self.phase {
                RunPhase::FastInspecting(sequence, layout) => {
                    if flags.stopped {
                        return self.fail(CaptureError::Stopped);
                    }
                    if ended {
                        self.phase = RunPhase::Arming(Some(layout));
                        return RunAction::ReadClock;
                    }
                    self.phase = RunPhase::FastConfirming(sequence, layout);
                    let (width, height) = layout.geometry.image_dimensions();
                    RunAction::ConfirmLayout(FrameSize { width, height })
                },
                RunPhase::FastRechecking(sequence) => match source.validate_remote_target(target) {
                    Err(error) => self.fail(error),
                    Ok(()) => {
                        if flags.stopped {
                            return self.fail(CaptureError::Stopped);
                        }
                        self.phase = RunPhase::FastWriting(sequence);
                        RunAction::Write
                    },
                },
                _ => match source.validate_remote_target(target) {
                    Err(error) => self.fail(error),
                    Ok(()) => {
                        if source.is_local_monitor() {
                            return self.layout_known(None);
                        }
                        match state.source_dimensions() {
                            Some(size) => {
                                self.phase = RunPhase::ConfirmingLayout;
                                RunAction::ConfirmLayout(size)
                            },
                            None => self.fail(CaptureError::Preparing),
                        }
                    },
                },
            },
            RunEvent::LayoutConfirmed(Err(error)) => self.fail(error),
            RunEvent::LayoutConfirmed(Ok(current)) => match self.phase {
                RunPhase::FastConfirming(sequence, layout) => {
                    match require_matching_layout(Some(layout), current) {
                        Err(error) => {
                            return self.fail(error);
                        },
                        Ok(()) => {},
                    }
                    if still_current(flags, state, sequence, layout) {
                        self.phase = RunPhase::FastRechecking(sequence);
                        RunAction::Inspect
                    } else {
                        self.phase = RunPhase::Arming(Some(layout));
                        RunAction::ReadClock
                    }
                },
                _ => self.layout_known(Some(current)),
            },
            RunEvent::Written(Err(error)) => self.fail(error),
            RunEvent::Written(Ok(())) => match &state.latest {
                Some(cached) => {
                    self.phase = RunPhase::Finished;
                    RunAction::Done(
                        Ok(
                            CaptureReceipt {
                                screen_rect: cached.fallback_screen_rect,
                                target_window_id: source.remote_target_id(),
                                latency: elapsed_since(now, self.started_at),
                                frame_age: elapsed_since(now, cached.captured_at),
                            },
                        ),
                        false,
                    )
                },
                None => self.fail(CaptureError::Stopped),
            },
            RunEvent::Clock(Err(error)) => self.fail(error),
            _ => self.fail(CaptureError::Stopped),
        }
    }

    /// Takes what the last action gave.
    pub fn advance(
        &mut self,
        source: &CaptureSource,
        flags: &mut SessionFlags,
        state: &mut RuntimeState,
        event: RunEvent,
        now: u64,
    ) -> (result: RunAction)
        requires
            now <= CLOCK_LIMIT,
            old(self).expects(*source, *old(state), event),
        ensures
            (*final(self), result, *final(flags), *final(state)) == old(self).step(
                *source,
                *old(flags),
                *old(state),
                event,
                now,
            ),
            old(state).consistent(*old(flags)) ==> final(state).consistent(*final(flags)),
    {
        match self.phase {
            RunPhase::Recovering(recovery, request, layout) => {
                let mut recovery = recovery;
                let inner = match event {
                    RunEvent::Recovery(event) => event,
                    RunEvent::OutputConfirmed(authorized, current) => match &state.latest {
                        Some(cached) => RecoveryEvent::Copy(
                            CopyEvent::Validated(
                                validate_output(
                                    source,
                                    cached,
                                    request,
                                    layout,
                                    authorized,
                                    current,
                                ),
                            ),
                        ),
                        None => {
                            return self.fail(CaptureError::Stopped);
                        },
                    },
                    _ => {
                        return self.fail(CaptureError::Stopped);
                    },
                };
                let action = recovery.advance(source, flags, state, inner, now);
                self.recovery_went_on(recovery, action, request, layout, state, now)
            },
            _ => match event {
                RunEvent::Clock(Ok(time)) => match self.phase {
                    RunPhase::Arming(layout) => {
                        let request = arm_request(flags, state, None, time);
                        flags.preflight_in_progress = false;
                        let (recovery, action) = Recovery::begin(flags, Some(request), now);
                        self.recovery_went_on(recovery, action, request, layout, state, now)
                    },
                    _ => self.fail(CaptureError::Stopped),
                },
                event => {
                    let action = self.decide(source, flags, state, event, now);
                    match &action {
                        RunAction::Done(_, _) => {
                            flags.preflight_in_progress = false;
                        },
                        _ => {},
                    }
                    action
                },
            },
        }
    }
}

/// The newest frame is reused only where the layout read right before is still the one of
/// the request and of the frame, no newer frame was seen, and the frame size is the same.
pub proof fn law_reuse_needs_an_unchanged_frame(
    run: CaptureRun,
    source: CaptureSource,
    flags: SessionFlags,
    state: RuntimeState,
    event: RunEvent,
    now: u64,
)
    requires
        run.expects(source, state, event),
        !(run.phase is Recovering),
        run.step(source, flags, state, event, now).0.phase is FastRechecking,
    ensures
        run.phase is FastConfirming,
        event is LayoutConfirmed,
        ({
            let sequence = run.phase->FastConfirming_0;
            let layout = run.phase->FastConfirming_1;
            &&& event->LayoutConfirmed_0 is Ok
            &&& event->LayoutConfirmed_0->Ok_0 == layout
            &&& is_still_current(flags, state, sequence, layout)
            &&& run.step(source, flags, state, event, now).0.phase == RunPhase::FastRechecking(
                sequence,
            )
        }),
{
}

/// The newest frame is written only while it is still the one that was found unchanged, its
/// window can be captured and the session was not stopped.
pub proof fn law_the_unchanged_frame_is_written(
    run: CaptureRun,
    source: CaptureSource,
    flags: SessionFlags,
    state: RuntimeState,
    event: RunEvent,
    now: u64,
)
    requires
        run.expects(source, state, event),
        run.step(source, flags, state, event, now).1 is Write,
    ensures
        run.phase is FastRechecking,
        event is Inspected,
        source.accepts(event->Inspected_0),
        !flags.stopped,
        CaptureRun::is_cached(state, run.phase->FastRechecking_0),
{
}

/// A frame that was waited for passes only if it is authorized, was rendered after the
/// request and shows the layout of the request.
pub proof fn law_output_needs_every_confirmation(
    source: CaptureSource,
    rendered_at_100ns: i64,
    cached_layout: Option<RemoteLayout>,
    request: ArmedRequest,
    request_layout: Option<RemoteLayout>,
    authorized: Result<(), CaptureError>,
    current: Result<RemoteLayout, CaptureError>,
)
    ensures
        output_verdict(
            source,
            rendered_at_100ns,
            cached_layout,
            request,
            request_layout,
            authorized,
            current,
        ) is Ok <==> {
            &&& authorized is Ok
            &&& rendered_at_100ns > request.requested_at_100ns
            &&& source is RemoteTeamsWindow ==> current is Ok && request_layout == Some(
                current->Ok_0,
            ) && cached_layout == Some(current->Ok_0)
        },
{
}

impl CaptureRun {
    /// The attempt under way.
    pub open spec fn attempt(self) -> Option<CopyAttempt> {
        match self.phase {
            RunPhase::Recovering(recovery, _, _) => recovery.attempt(),
            _ => None,
        }
    }

    /// A frame that was found is newer than the baseline of the request that it answers.
    pub open spec fn is_sound(self) -> bool {
        self.phase is Recovering ==> self.phase->Recovering_0.is_sound()
    }
}

/// A frame that was waited for comes to be written only through its confirmation: where the
/// attempt goes on to the last look at the window, the authorization, the time and the
/// layout of the cached frame were confirmed just now.
pub proof fn law_waited_frames_are_confirmed(
    run: CaptureRun,
    source: CaptureSource,
    flags: SessionFlags,
    state: RuntimeState,
    event: RunEvent,
    now: u64,
)
    requires
        run.expects(source, state, event),
        ({
            let next = run.step(source, flags, state, event, now).0.attempt();
            next is Some && next->0.phase is Rechecking
        }),
    ensures
        run.phase is Recovering,
        event is OutputConfirmed,
        state.latest is Some,
        output_verdict(
            source,
            state.latest->0.rendered_at_100ns,
            state.latest->0.remote_layout,
            run.phase->Recovering_1,
            run.phase->Recovering_2,
            event->OutputConfirmed_0,
            event->OutputConfirmed_1,
        ) is Ok,
        run.step(source, flags, state, event, now).0.attempt()->0.phase->Rechecking_0.is_cached(
            state,
        ),
{
}

/// A frame that was waited for is written right after the last look at the window, while it
/// is still the one that was found newer than the baseline and confirmed. Every step keeps
/// what was found.
pub proof fn law_the_confirmed_frame_is_written(
    run: CaptureRun,
    source: CaptureSource,
    flags: SessionFlags,
    state: RuntimeState,
    event: RunEvent,
    now: u64,
)
    requires
        run.is_sound(),
        run.expects(source, state, event),
    ensures
        ({
            let next = run.step(source, flags, state, event, now);
            &&& next.0.is_sound()
            &&& next.1 == RunAction::Recovery(RecoveryAction::Copy(CopyAction::Write)) ==> {
                &&& run.attempt() is Some
                &&& run.attempt()->0.phase is Rechecking
                &&& run.attempt()->0.phase->Rechecking_0.is_newer()
                &&& run.attempt()->0.phase->Rechecking_0.is_cached(state)
            }
        }),
{
    match run.phase {
        RunPhase::Recovering(recovery, request, layout) => {
            law_the_fresh_frame_is_recovered(
                recovery,
                source,
                flags,
                state,
                CaptureRun::recovery_event(source, state, request, layout, event),
                now,
            );
        },
        _ => {},
    }
}

impl CaptureRun {
    /// Frames are kept from being cached in advance only before a frame is waited for.
    pub open spec fn preflight_is_over(self, flags: SessionFlags) -> bool {
        self.phase is Recovering || self.phase is Finished ==> !flags.preflight_in_progress
    }
}

/// Once a request waits for a frame or has ended, frames are cached in advance again, and
/// every step keeps it so.
pub proof fn law_preflight_ends_with_the_request(
    run: CaptureRun,
    source: CaptureSource,
    flags: SessionFlags,
    state: RuntimeState,
    event: RunEvent,
    now: u64,
)
    requires
        run.expects(source, state, event),
        run.preflight_is_over(flags),
    ensures
        ({
            let next = run.step(source, flags, state, event, now);
            &&& next.0.preflight_is_over(next.2)
            &&& next.1 is Done ==> !next.2.preflight_in_progress
        }),
{
}

/// The newest frame of a window is copied as it is where everything speaks for it: the
/// request is authorized, the window can be captured, its layout is confirmed twice and is
/// that of the frame, and nothing newer was seen. The receipt is that of the frame.
pub proof fn law_the_newest_frame_is_reused(
    run: CaptureRun,
    id: u32,
    flags: SessionFlags,
    state: RuntimeState,
    layout: RemoteLayout,
    now: u64,
)
    requires
        run.phase is Authorizing,
        state.latest is Some,
        run.latest_sequence == Some(state.latest->0.sequence),
        flags.observed_sequence == state.latest->0.sequence,
        !flags.stopped,
        state.latest->0.remote_layout == Some(layout),
        state.source_size == Some(
            FrameSize {
                width: state.latest->0.source_width,
                height: state.latest->0.source_height,
            },
        ),
    ensures
        ({
            let source = CaptureSource::RemoteTeamsWindow(id);
            let usable = TargetState { exists: true, minimized: false };
            let confirmed = RunEvent::LayoutConfirmed(Ok::<RemoteLayout, CaptureError>(layout));
            let frame = state.latest->0;
            let first = run.step(
                source,
                flags,
                state,
                RunEvent::Authorized(Ok::<(), CaptureError>(())),
                now,
            );
            let second = first.0.step(
                source,
                flags,
                state,
                RunEvent::Inspected(usable, false),
                now,
            );
            let third = second.0.step(source, flags, state, confirmed, now);
            let fourth = third.0.step(
                source,
                flags,
                state,
                RunEvent::Inspected(usable, false),
                now,
            );
            let fifth = fourth.0.step(source, flags, state, confirmed, now);
            let sixth = fifth.0.step(
                source,
                flags,
                state,
                RunEvent::Inspected(usable, false),
                now,
            );
            let last = sixth.0.step(
                source,
                flags,
                state,
                RunEvent::Written(Ok::<(), CaptureError>(())),
                now,
            );
            &&& first.1 is Inspect
            &&& second.1 == RunAction::ConfirmLayout(state.source_size->0)
            &&& third.1 is Inspect
            &&& fourth.1 == RunAction::ConfirmLayout(
                FrameSize {
                    width: layout.geometry.image_width,
                    height: layout.geometry.image_height,
                },
            )
            &&& fifth.1 is Inspect
            &&& sixth.1 is Write
            &&& last.1 is Done
            &&& last.1->Done_0 is Ok
            &&& !last.1->Done_1
            &&& last.1->Done_0->Ok_0.screen_rect == frame.fallback_screen_rect
            &&& last.1->Done_0->Ok_0.target_window_id == Some(id)
            &&& run.started_at <= now ==> last.1->Done_0->Ok_0.latency == now - run.started_at
            &&& frame.captured_at <= now ==> last.1->Done_0->Ok_0.frame_age == now
                - frame.captured_at
            &&& !last.2.preflight_in_progress
        }),
{
}

/// A frame of a monitor is never reused: once the request is authorized, the clock is read,
/// and a frame newer than every one seen so far is waited for.
pub proof fn law_monitors_are_captured_anew(
    run: CaptureRun,
    target: crate::source::LocalMonitorCaptureTarget,
    flags: SessionFlags,
    state: RuntimeState,
    window: TargetState,
    ended: bool,
    time: i64,
    now: u64,
)
    requires
        run.phase is Authorizing,
        !flags.stopped,
    ensures
        ({
            let source = CaptureSource::LocalMonitor(target);
            let begun = CaptureRun {
                latest_sequence: reusable_sequence(source, flags, state),
                ..run
            };
            let first = begun.step(
                source,
                flags,
                state,
                RunEvent::Authorized(Ok::<(), CaptureError>(())),
                now,
            );
            let second = first.0.step(source, flags, state, RunEvent::Inspected(window, ended), now);
            let third = second.0.step(
                source,
                flags,
                state,
                RunEvent::Clock(Ok::<i64, CaptureError>(time)),
                now,
            );
            &&& reusable_sequence(source, flags, state) is None
            &&& first.1 is Inspect
            &&& second.1 is ReadClock
            &&& third.1 == RunAction::Recovery(RecoveryAction::Copy(CopyAction::Inspect))
            &&& third.0.phase is Recovering
            &&& third.0.phase->Recovering_1.baseline_sequence == flags.observed_sequence
            &&& third.0.phase->Recovering_1.requested_at_100ns == time
            &&& third.0.phase->Recovering_2 is None
            &&& third.0.attempt() is Some
            &&& third.0.attempt()->0.request == Some(third.0.phase->Recovering_1)
            &&& third.2.capture_requested
            &&& !third.2.preflight_in_progress
            &&& third.3.requested_after_sequence == flags.observed_sequence
        }),
{
}

/// A frame is reused only if it is one of a window, cached, and the newest one seen.
pub proof fn law_only_the_newest_frame_is_reusable(
    source: CaptureSource,
    flags: SessionFlags,
    state: RuntimeState,
)
    ensures
        reusable_sequence(source, flags, state) is Some <==> source is RemoteTeamsWindow
            && state.latest is Some && state.latest->0.sequence == flags.observed_sequence,
        reusable_sequence(source, flags, state) is Some ==> reusable_sequence(
            source,
            flags,
            state,
        ) == Some(flags.observed_sequence),
{
}

/// A frame that was found reusable stays so only while it is cached, nothing newer was seen,
/// and its layout and its size are those of now.
pub proof fn law_reusable_frames_are_unchanged(
    flags: SessionFlags,
    state: RuntimeState,
    sequence: u64,
    layout: RemoteLayout,
)
    ensures
        is_still_current(flags, state, sequence, layout) <==> {
            &&& state.latest is Some
            &&& state.latest->0.sequence == sequence
            &&& flags.observed_sequence == sequence
            &&& state.latest->0.remote_layout == Some(layout)
            &&& state.source_size is Some
            &&& state.source_size->0.width == state.latest->0.source_width
            &&& state.source_size->0.height == state.latest->0.source_height
        },
{
}

/// Where the newest frame cannot be reused any more, a newer one is waited for under the
/// layout that was confirmed; a layout that has changed ends the request instead.
pub proof fn law_changed_frames_are_waited_for(
    run: CaptureRun,
    source: CaptureSource,
    flags: SessionFlags,
    state: RuntimeState,
    sequence: u64,
    layout: RemoteLayout,
    current: RemoteLayout,
    target: TargetState,
    now: u64,
)
    ensures
        ({
            let confirming = CaptureRun { phase: RunPhase::FastConfirming(sequence, layout), ..run };
            let looking = CaptureRun { phase: RunPhase::FastInspecting(sequence, layout), ..run };
            let read = confirming.step(
                source,
                flags,
                state,
                RunEvent::LayoutConfirmed(Ok::<RemoteLayout, CaptureError>(current)),
                now,
            );
            let looked = looking.step(
                source,
                flags,
                state,
                RunEvent::Inspected(target, true),
                now,
            );
            &&& current != layout ==> read.1 == RunAction::Done(
                Err::<CaptureReceipt, CaptureError>(CaptureError::LayoutMismatch),
                false,
            )
            &&& current == layout && (state.latest is None || state.latest->0.sequence != sequence
                || flags.observed_sequence != sequence || state.latest->0.remote_layout != Some(
                layout,
            )) ==> read.1 is ReadClock && read.0.phase == RunPhase::Arming(Some(layout))
            &&& flags.stopped ==> looked.1 == RunAction::Done(
                Err::<CaptureReceipt, CaptureError>(CaptureError::Stopped),
                false,
            )
            &&& !flags.stopped ==> looked.1 is ReadClock && looked.0.phase == RunPhase::Arming(
                Some(layout),
            )
        }),
{
}

/// Whatever fails ends the request at once, with just that, and frames are cached in advance
/// again.
pub proof fn law_failures_end_the_request(
    run: CaptureRun,
    source: CaptureSource,
    flags: SessionFlags,
    state: RuntimeState,
    event: RunEvent,
    now: u64,
)
    requires
        run.expects(source, state, event),
        !(run.phase is Recovering),
    ensures
        ({
            let next = run.step(source, flags, state, event, now);
            let reported = match event {
                RunEvent::Authorized(Err(error)) => Some(error),
                RunEvent::LayoutConfirmed(Err(error)) => Some(error),
                RunEvent::Written(Err(error)) => Some(error),
                RunEvent::Clock(Err(error)) => Some(error),
                _ => None,
            };
            &&& reported is Some ==> next.1 == RunAction::Done(
                Err::<CaptureReceipt, CaptureError>(reported->0),
                false,
            ) && !next.2.preflight_in_progress && next.0.phase is Finished
            &&& event is Inspected && source is RemoteTeamsWindow && !event->Inspected_0.exists
                && !(run.phase is FastInspecting) ==> next.1 == RunAction::Done(
                Err::<CaptureReceipt, CaptureError>(CaptureError::TargetMissing),
                false,
            )
            &&& event is Inspected && source is RemoteTeamsWindow && event->Inspected_0.exists
                && event->Inspected_0.minimized && !(run.phase is FastInspecting) ==> next.1
                == RunAction::Done(
                Err::<CaptureReceipt, CaptureError>(CaptureError::TargetMinimized),
                false,
            )
            &&& run.phase is Inspecting && source is RemoteTeamsWindow && event->Inspected_0.exists
                && !event->Inspected_0.minimized && state.source_size is None && state.latest
                is None ==> next.1 == RunAction::Done(
                Err::<CaptureReceipt, CaptureError>(CaptureError::Preparing),
                false,
            )
        }),
{
}

/// A frame that was waited for is refused for the first thing that is wrong: the
/// authorization, its age, the layout that could not be read, or a layout that is not that
/// of the request and of the frame.
pub proof fn law_refused_frames_say_why(
    source: CaptureSource,
    rendered_at_100ns: i64,
    cached_layout: Option<RemoteLayout>,
    request: ArmedRequest,
    request_layout: Option<RemoteLayout>,
    authorized: Result<(), CaptureError>,
    current: Result<RemoteLayout, CaptureError>,
)
    ensures
        ({
            let verdict = output_verdict(
                source,
                rendered_at_100ns,
                cached_layout,
                request,
                request_layout,
                authorized,
                current,
            );
            let late = rendered_at_100ns > request.requested_at_100ns;
            &&& authorized is Err ==> verdict is Err && verdict->Err_0 == authorized->Err_0
            &&& authorized is Ok && !late ==> verdict is Err && verdict->Err_0
                == CaptureError::FrameTooOld
            &&& authorized is Ok && late && source is LocalMonitor ==> verdict is Ok
            &&& authorized is Ok && late && source is RemoteTeamsWindow && current is Err
                ==> verdict is Err && verdict->Err_0 == current->Err_0
            &&& authorized is Ok && late && source is RemoteTeamsWindow && current is Ok && (
            request_layout != Some(current->Ok_0) || cached_layout != Some(current->Ok_0))
                ==> verdict is Err && verdict->Err_0 == CaptureError::LayoutMismatch
        }),
{
}

/// The end of the recovery is the end of the request: its receipt counts the time from the
/// click, and it says whether a new session took the place of the old one. A frame that is
/// to be validated is confirmed in the size of the frame that it was cut from.
pub proof fn law_recovered_requests_end_with_their_receipt(
    run: CaptureRun,
    recovery: Recovery,
    request: ArmedRequest,
    layout: Option<RemoteLayout>,
    state: RuntimeState,
    result: Result<CaptureReceipt, CaptureError>,
    replaced: bool,
    now: u64,
)
    requires
        run.started_at <= now,
        state.latest is Some,
    ensures
        ({
            let ended = run.after_recovery(
                recovery,
                RecoveryAction::Done(result, replaced),
                request,
                layout,
                state,
                now,
            );
            let validating = run.after_recovery(
                recovery,
                RecoveryAction::Copy(CopyAction::Validate),
                request,
                layout,
                state,
                now,
            );
            &&& ended.0.phase is Finished
            &&& ended.1 is Done
            &&& ended.1->Done_1 == replaced
            &&& result is Err ==> ended.1->Done_0 == result
            &&& result is Ok ==> ended.1->Done_0 is Ok && ended.1->Done_0->Ok_0.latency == now
                - run.started_at && ended.1->Done_0->Ok_0.screen_rect
                == result->Ok_0.screen_rect && ended.1->Done_0->Ok_0.frame_age
                == result->Ok_0.frame_age && ended.1->Done_0->Ok_0.target_window_id
                == result->Ok_0.target_window_id
            &&& validating.1 == RunAction::ConfirmOutput(
                FrameSize {
                    width: state.latest->0.source_width,
                    height: state.latest->0.source_height,
                },
            )
            &&& validating.0.phase == RunPhase::Recovering(recovery, request, layout)
        }),
{
}

/// A frame that was found and is confirmed goes on to the last look at its window, and from
/// there, where the window can still be captured, to be written.
pub proof fn law_confirmed_output_goes_on(
    run: CaptureRun,
    attempt: CopyAttempt,
    frame: crate::copy::FreshFrame,
    source: CaptureSource,
    flags: SessionFlags,
    state: RuntimeState,
    layout: RemoteLayout,
    ended: bool,
    now: u64,
)
    requires
        run.phase is Recovering,
        run.phase->Recovering_0 == Recovery::First(attempt) || run.phase->Recovering_0
            == Recovery::Second(attempt),
        attempt.phase == crate::copy::CopyPhase::Validating(frame),
        !flags.stopped,
        state.latest is Some,
        state.latest->0.rendered_at_100ns > run.phase->Recovering_1.requested_at_100ns,
        source is RemoteTeamsWindow ==> run.phase->Recovering_2 == Some(layout)
            && state.latest->0.remote_layout == Some(layout),
    ensures
        ({
            let confirmed = run.step(
                source,
                flags,
                state,
                RunEvent::OutputConfirmed(
                    Ok::<(), CaptureError>(()),
                    Ok::<RemoteLayout, CaptureError>(layout),
                ),
                now,
            );
            let looked = confirmed.0.step(
                source,
                flags,
                state,
                RunEvent::Recovery(
                    RecoveryEvent::Copy(
                        CopyEvent::Inspected(
                            TargetState { exists: true, minimized: false },
                            ended,
                        ),
                    ),
                ),
                now,
            );
            &&& confirmed.1 == RunAction::Recovery(RecoveryAction::Copy(CopyAction::Inspect))
            &&& looked.1 == RunAction::Recovery(RecoveryAction::Copy(CopyAction::Write))
        }),
{
}

/// A window whose newest frame cannot be reused is captured anew under the layout that was
/// confirmed for it: the clock is read, and the frames seen so far no longer count.
pub proof fn law_windows_without_a_newest_frame_wait(
    run: CaptureRun,
    id: u32,
    flags: SessionFlags,
    state: RuntimeState,
    layout: RemoteLayout,
    time: i64,
    times: (u64, u64),
)
    requires
        run.phase is ConfirmingLayout,
        run.latest_sequence is None,
        !flags.stopped,
    ensures
        ({
            let source = CaptureSource::RemoteTeamsWindow(id);
            let confirmed = run.step(
                source,
                flags,
                state,
                RunEvent::LayoutConfirmed(Ok::<RemoteLayout, CaptureError>(layout)),
                times.0,
            );
            let armed = confirmed.0.step(
                source,
                flags,
                state,
                RunEvent::Clock(Ok::<i64, CaptureError>(time)),
                times.1,
            );
            &&& confirmed.1 is ReadClock
            &&& armed.1 == RunAction::Recovery(RecoveryAction::Copy(CopyAction::Inspect))
            &&& armed.0.phase is Recovering
            &&& armed.0.phase->Recovering_1.baseline_sequence == flags.observed_sequence
            &&& armed.0.phase->Recovering_1.requested_at_100ns == time
            &&& armed.0.phase->Recovering_2 == Some(layout)
            &&& armed.2.capture_requested
            &&& !armed.2.preflight_in_progress
            &&& armed.3.requested_after_sequence == flags.observed_sequence
            &&& armed.3.latest == state.latest
        }),
{
}

/// A session that is stopped when the clock was read, or right before the newest frame is
/// written, ends the request as one that was stopped.
pub proof fn law_stopped_sessions_end_the_request(
    run: CaptureRun,
    source: CaptureSource,
    flags: SessionFlags,
    state: RuntimeState,
    time: i64,
    ended: bool,
    now: u64,
)
    requires
        flags.stopped,
    ensures
        ({
            let stopped = RunAction::Done(
                Err::<CaptureReceipt, CaptureError>(CaptureError::Stopped),
                false,
            );
            let armed = run.step(
                source,
                flags,
                state,
                RunEvent::Clock(Ok::<i64, CaptureError>(time)),
                now,
            );
            let checked = run.step(
                source,
                flags,
                state,
                RunEvent::Inspected(TargetState { exists: true, minimized: false }, ended),
                now,
            );
            &&& run.phase is Arming ==> armed.1 == stopped && !armed.2.capture_requested
                && !armed.2.preflight_in_progress
            &&& run.phase is FastRechecking ==> checked.1 == stopped
                && !checked.2.preflight_in_progress
            &&& run.phase is FastInspecting ==> checked.1 == stopped
        }),
{
}

/// Whether the source has ended decides only whether the newest frame may be reused: the
/// looks before the layout is read and before the frame is written do not depend on it. The
/// look in between does not depend on the window.
pub proof fn law_looks_see_what_they_look_for(
    run: CaptureRun,
    source: CaptureSource,
    flags: SessionFlags,
    state: RuntimeState,
    window: TargetState,
    other: TargetState,
    now: u64,
)
    ensures
        run.phase is Inspecting || run.phase is FastRechecking ==> run.step(
            source,
            flags,
            state,
            RunEvent::Inspected(window, true),
            now,
        ) == run.step(source, flags, state, RunEvent::Inspected(window, false), now),
        run.phase is FastInspecting ==> run.step(
            source,
            flags,
            state,
            RunEvent::Inspected(window, true),
            now,
        ) == run.step(source, flags, state, RunEvent::Inspected(other, true), now),
        run.phase is FastInspecting ==> run.step(
            source,
            flags,
            state,
            RunEvent::Inspected(window, false),
            now,
        ) == run.step(source, flags, state, RunEvent::Inspected(other, false), now),
        run.phase is FastRechecking && !flags.stopped && (source is LocalMonitor || (window.exists
            && !window.minimized)) ==> run.step(
            source,
            flags,
            state,
            RunEvent::Inspected(window, true),
            now,
        ).1 is Write,
{
}

/// Until a newer frame is asked for, a request changes nothing in the session but the mark
/// that it is being prepared, and nothing in what it was given at its beginning.
pub proof fn law_preparing_changes_nothing(
    run: CaptureRun,
    source: CaptureSource,
    flags: SessionFlags,
    state: RuntimeState,
    event: RunEvent,
    now: u64,
)
    requires
        !(run.phase is Recovering),
        !(event is Clock),
    ensures
        ({
            let next = run.step(source, flags, state, event, now);
            &&& next.0.latest_sequence == run.latest_sequence
            &&& next.0.started_at == run.started_at
            &&& next.3 == state
            &&& next.2.stopped == flags.stopped
            &&& next.2.observed_sequence == flags.observed_sequence
            &&& next.2.has_cached_frame == flags.has_cached_frame
            &&& next.2.capture_requested == flags.capture_requested
            &&& next.1 is Done || next.2.preflight_in_progress == flags.preflight_in_progress
        }),
{
}

} // verus!
