//! One attempt to copy a fresh frame, as a machine: each step takes what the last
//! action gave and says what to do next.

use vstd::prelude::*;

use crate::error::CaptureError;
use crate::geometry::{FrameSize, PixelRect, ScreenRect};
use crate::numeric::{elapsed, elapsed_since, CLOCK_LIMIT};
use crate::session::{RuntimeState, SessionFlags};
use crate::source::{CaptureReceipt, CaptureSource, LocalMonitorCaptureTarget, TargetState};

verus! {

/// How long a remote source may take to deliver a frame, in nanoseconds.
pub const FRESH_FRAME_WAIT: u64 = 200_000_000;

/// How long a local monitor may take to deliver a frame, in nanoseconds.
pub const LOCAL_FRESH_FRAME_WAIT: u64 = 200_000_000;

/// How long a first frame, or a frame being processed, may take, in nanoseconds.
pub const READY_TIMEOUT: u64 = 1_200_000_000;

/// A request for a frame that is newer than `baseline_sequence` and was rendered
/// after `requested_at_100ns`.
#[derive(Clone, Copy, Debug, PartialEq, Eq, Structural)]
pub struct ArmedRequest {
    pub baseline_sequence: u64,
    pub requested_at_100ns: i64,
}

/// The frame clock's reading, in units of 100 ns, from the performance counter and its
/// frequency.
pub open spec fn frame_clock(counter: i64, frequency: i64) -> Result<i64, CaptureError> {
    let ticks = counter as int * 10_000_000 / frequency as int;
    if counter < 0 || frequency <= 0 {
        Err(CaptureError::ClockUnavailable)
    } else if ticks > i64::MAX {
        Err(CaptureError::ClockOverflow)
    } else {
        Ok(ticks as i64)
    }
}

pub fn performance_time_100ns(counter: i64, frequency: i64) -> (result: Result<i64, CaptureError>)
    ensures
        result == frame_clock(counter, frequency),
{
    if counter < 0 || frequency <= 0 {
        return Err(CaptureError::ClockUnavailable);
    }
    let scaled: u128 = counter as u128 * 10_000_000;
    let divisor: u128 = frequency as u128;
    let ticks: u128 = scaled / divisor;
    if ticks > 0x7fff_ffff_ffff_ffff {
        return Err(CaptureError::ClockOverflow);
    }
    Ok(ticks as i64)
}

/// Pixels drawn before the request never answer it.
pub fn require_frame_after_request(rendered_at_100ns: i64, requested_at_100ns: i64) -> (result:
    Result<(), CaptureError>)
    ensures
        result == if rendered_at_100ns > requested_at_100ns {
            Ok::<(), CaptureError>(())
        } else {
            Err::<(), CaptureError>(CaptureError::FrameTooOld)
        },
{
    if rendered_at_100ns <= requested_at_100ns {
        return Err(CaptureError::FrameTooOld);
    }
    Ok(())
}

/// A remote source is not expected to deliver within the usual wait: its next frame is
/// further away than that, or it has been silent for as long already.
pub open spec fn is_quiescent(
    last_observed_at: Option<u64>,
    last_frame_interval: Option<u64>,
    now: u64,
) -> bool {
    match last_observed_at {
        None => false,
        Some(last) => {
            let silent = elapsed(now, last);
            ||| silent >= FRESH_FRAME_WAIT
            ||| last_frame_interval is Some && last_frame_interval->0 - silent > FRESH_FRAME_WAIT
        },
    }
}

/// How long to wait for a frame of a remote source. This only chooses when to begin
/// anew; it never authorizes cached pixels.
pub fn remote_frame_wait(
    last_observed_at: Option<u64>,
    last_frame_interval: Option<u64>,
    now: u64,
) -> (result: u64)
    ensures
        result == if is_quiescent(last_observed_at, last_frame_interval, now) {
            0
        } else {
            FRESH_FRAME_WAIT
        },
{
    match last_observed_at {
        None => FRESH_FRAME_WAIT,
        Some(last) => {
            let silent: u64 = elapsed_since(now, last);
            if let Some(interval) = last_frame_interval {
                if interval.saturating_sub(silent) > FRESH_FRAME_WAIT {
                    return 0;
                }
            }
            if silent >= FRESH_FRAME_WAIT {
                0
            } else {
                FRESH_FRAME_WAIT
            }
        },
    }
}

/// Arms a request: only frames after the baseline answer it. The baseline is the newest
/// frame seen so far unless another one is given.
pub fn arm_request(
    flags: &mut SessionFlags,
    state: &mut RuntimeState,
    baseline_override: Option<u64>,
    requested_at_100ns: i64,
) -> (result: ArmedRequest)
    ensures
        result == (ArmedRequest {
            baseline_sequence: match baseline_override {
                Some(baseline) => baseline,
                None => old(flags).observed_sequence,
            },
            requested_at_100ns,
        }),
        *final(flags) == (SessionFlags { capture_requested: true, ..*old(flags) }),
        *final(state) == (RuntimeState {
            requested_after_sequence: result.baseline_sequence,
            ..*old(state)
        }),
        old(state).consistent(*old(flags)) ==> final(state).consistent(*final(flags)),
{
    let baseline_sequence: u64 = match baseline_override {
        Some(baseline) => baseline,
        None => flags.observed_sequence,
    };
    state.requested_after_sequence = baseline_sequence;
    flags.capture_requested = true;
    ArmedRequest { baseline_sequence, requested_at_100ns }
}

/// Waiting for a frame: until `arrival_deadline` for one to arrive, until
/// `processing_deadline` for one that has arrived to be cached.
#[derive(Clone, Copy, Debug, PartialEq, Eq, Structural)]
pub struct CopyWait {
    pub request: ArmedRequest,
    pub arrival_deadline: u64,
    pub processing_deadline: u64,
}

/// What waiting has come to.
#[derive(Debug)]
pub enum WaitStep {
    Wait(u64),
    /// The cached frame, which has this number, is newer than the baseline.
    Fresh(u64),
    /// The deadline has passed without such a frame.
    Expired,
    Failed(CaptureError),
}

impl CopyWait {
    /// How long a frame may take to arrive.
    pub open spec fn arrival_wait(
        source: CaptureSource,
        state: RuntimeState,
        started_at: u64,
    ) -> u64 {
        if state.latest is None {
            READY_TIMEOUT
        } else if source is LocalMonitor {
            LOCAL_FRESH_FRAME_WAIT
        } else if is_quiescent(state.last_observed_at, state.last_frame_interval, started_at) {
            0
        } else {
            FRESH_FRAME_WAIT
        }
    }

    /// Sets the deadlines of a wait that begins at `now`.
    pub fn begin(
        source: &CaptureSource,
        state: &RuntimeState,
        request: ArmedRequest,
        started_at: u64,
        now: u64,
    ) -> (result: Self)
        requires
            now <= CLOCK_LIMIT,
        ensures
            result == (CopyWait {
                request,
                arrival_deadline: (now + Self::arrival_wait(*source, *state, started_at)) as u64,
                processing_deadline: (now + READY_TIMEOUT) as u64,
            }),
    {
        let wait: u64 = if state.latest.is_none() {
            READY_TIMEOUT
        } else if source.is_local_monitor() {
            LOCAL_FRESH_FRAME_WAIT
        } else {
            remote_frame_wait(state.last_observed_at, state.last_frame_interval, started_at)
        };
        CopyWait {
            request,
            arrival_deadline: now + wait,
            processing_deadline: now + READY_TIMEOUT,
        }
    }

    /// The cached frame is newer than the baseline.
    pub open spec fn is_fresh(&self, state: RuntimeState) -> bool {
        state.latest is Some && state.latest->0.sequence > self.request.baseline_sequence
    }

    /// The deadline that counts now.
    pub open spec fn deadline(&self, flags: SessionFlags) -> u64 {
        if flags.observed_sequence > self.request.baseline_sequence {
            self.processing_deadline
        } else {
            self.arrival_deadline
        }
    }

    /// What waiting has come to at `now`.
    pub open spec fn outcome(
        &self,
        flags: SessionFlags,
        state: RuntimeState,
        now: u64,
    ) -> WaitStep {
        if flags.stopped {
            WaitStep::Failed(CaptureError::Stopped)
        } else if state.last_error_sequence > self.request.baseline_sequence {
            match state.last_error {
                Some(message) => WaitStep::Failed(CaptureError::Reported(message)),
                None => WaitStep::Failed(CaptureError::FrameFailed),
            }
        } else if self.is_fresh(state) {
            WaitStep::Fresh(state.latest->0.sequence)
        } else if now >= self.deadline(flags) {
            WaitStep::Expired
        } else {
            WaitStep::Wait((self.deadline(flags) - now) as u64)
        }
    }

    pub fn poll(&self, flags: &SessionFlags, state: &RuntimeState, now: u64) -> (result: WaitStep)
        ensures
            result == self.outcome(*flags, *state, now),
    {
        if flags.stopped {
            return WaitStep::Failed(CaptureError::Stopped);
        }
        if state.last_error_sequence > self.request.baseline_sequence {
            return match &state.last_error {
                Some(message) => WaitStep::Failed(CaptureError::Reported(message.clone())),
                None => WaitStep::Failed(CaptureError::FrameFailed),
            };
        }
        if let Some(frame) = &state.latest {
            if frame.sequence > self.request.baseline_sequence {
                return WaitStep::Fresh(frame.sequence);
            }
        }
        let deadline: u64 = if flags.observed_sequence > self.request.baseline_sequence {
            self.processing_deadline
        } else {
            self.arrival_deadline
        };
        if now >= deadline {
            WaitStep::Expired
        } else {
            WaitStep::Wait(deadline - now)
        }
    }
}

/// The frame that an attempt has found, and the request that it answers.
#[derive(Clone, Copy, Debug, PartialEq, Eq, Structural)]
pub struct FreshFrame {
    pub sequence: u64,
    pub request: ArmedRequest,
}

impl FreshFrame {
    /// The frame is newer than the baseline of the request.
    pub open spec fn is_newer(self) -> bool {
        self.sequence > self.request.baseline_sequence
    }

    /// The frame is still the one that is cached.
    pub open spec fn is_cached(self, state: RuntimeState) -> bool {
        state.latest is Some && state.latest->0.sequence == self.sequence
    }
}

/// How far an attempt has come. From the moment at which it has found a frame it stays with
/// that one.
#[derive(Clone, Copy, Debug, PartialEq, Eq, Structural)]
pub enum CopyPhase {
    /// Looking at the target window before anything else.
    Inspecting,
    /// Reading the frame clock.
    Arming,
    Waiting(CopyWait),
    /// Confirming the shared monitor.
    Confirming(FreshFrame),
    /// Confirming the frame's time and layout.
    Validating(FreshFrame),
    /// Looking at the target window right before the output.
    Rechecking(FreshFrame),
    Writing(FreshFrame),
    /// Finding the content on the screen.
    Locating(CaptureReceipt),
    Finished,
}

/// One attempt to copy a frame.
#[derive(Clone, Copy, Debug, PartialEq, Eq, Structural)]
pub struct CopyAttempt {
    pub phase: CopyPhase,
    /// A request that was armed before the attempt began.
    pub request: Option<ArmedRequest>,
    /// The baseline of a request that the attempt arms itself.
    pub baseline_override: Option<u64>,
    pub started_at: u64,
}

/// What an action gave.
#[derive(Debug)]
pub enum CopyEvent {
    /// The target window's state, and whether the frame source has ended.
    Inspected(TargetState, bool),
    Clock(Result<i64, CaptureError>),
    Woke,
    MonitorConfirmed(Result<bool, CaptureError>),
    Validated(Result<(), CaptureError>),
    Written(Result<(), CaptureError>),
    Located(Option<ScreenRect>),
}

/// What to do next.
#[derive(Debug)]
pub enum CopyAction {
    /// Look at the target window and the frame source.
    Inspect,
    /// Read the frame clock.
    ReadClock,
    /// Wait for a change of the session, at most this long.
    Wait(u64),
    /// Find out whether this monitor is still the one shared.
    ConfirmMonitor(LocalMonitorCaptureTarget),
    /// Confirm the time and the layout of the cached frame.
    Validate,
    /// Write the cached frame out.
    Write,
    /// Find the content of the window on the screen.
    Locate(u32, PixelRect, FrameSize),
    Done(Result<CaptureReceipt, CaptureError>),
}

impl CopyAttempt {
    /// The attempt ends with an error.
    pub open spec fn failed(self, error: CaptureError) -> (CopyAttempt, CopyAction) {
        (
            CopyAttempt { phase: CopyPhase::Finished, ..self },
            CopyAction::Done(Err::<CaptureReceipt, CaptureError>(error)),
        )
    }

    pub open spec fn went_on(self, phase: CopyPhase, action: CopyAction) -> (
        CopyAttempt,
        CopyAction,
    ) {
        (CopyAttempt { phase, ..self }, action)
    }

    /// The request in force, once the clock was read as `time`.
    pub open spec fn armed(self, flags: SessionFlags, time: i64) -> ArmedRequest {
        match self.request {
            Some(request) => request,
            None => ArmedRequest {
                baseline_sequence: match self.baseline_override {
                    Some(baseline) => baseline,
                    None => flags.observed_sequence,
                },
                requested_at_100ns: time,
            },
        }
    }

    /// After the wait `wait` was looked at.
    pub open spec fn after_wait(
        self,
        wait: CopyWait,
        source: CaptureSource,
        flags: SessionFlags,
        state: RuntimeState,
        now: u64,
    ) -> (CopyAttempt, CopyAction) {
        match wait.outcome(flags, state, now) {
            WaitStep::Wait(remaining) => self.went_on(
                CopyPhase::Waiting(wait),
                CopyAction::Wait(remaining),
            ),
            WaitStep::Failed(error) => self.failed(error),
            WaitStep::Expired => self.failed(
                if source is LocalMonitor {
                    CaptureError::LocalFrameMissing
                } else {
                    CaptureError::RemoteFrameMissing
                },
            ),
            WaitStep::Fresh(sequence) => {
                let frame = FreshFrame { sequence, request: wait.request };
                match source {
                    CaptureSource::LocalMonitor(target) => self.went_on(
                        CopyPhase::Confirming(frame),
                        CopyAction::ConfirmMonitor(target),
                    ),
                    CaptureSource::RemoteTeamsWindow(_) => self.went_on(
                        CopyPhase::Validating(frame),
                        CopyAction::Validate,
                    ),
                }
            },
        }
    }

    /// The wait that begins at `now` for `request`.
    pub open spec fn new_wait(
        self,
        source: CaptureSource,
        state: RuntimeState,
        request: ArmedRequest,
        now: u64,
    ) -> CopyWait {
        CopyWait {
            request,
            arrival_deadline: (now + CopyWait::arrival_wait(source, state, self.started_at)) as u64,
            processing_deadline: (now + READY_TIMEOUT) as u64,
        }
    }

    /// What the written frame shows, apart from where it stands on the screen now.
    pub open spec fn receipt(
        self,
        source: CaptureSource,
        state: RuntimeState,
        now: u64,
    ) -> CaptureReceipt {
        CaptureReceipt {
            screen_rect: state.latest->0.fallback_screen_rect,
            target_window_id: source.window(),
            latency: elapsed(now, self.started_at),
            frame_age: elapsed(now, state.latest->0.captured_at),
        }
    }

    /// The attempt and the action that follow from an event. The session is given as
    /// it is after a request was armed.
    pub open spec fn next(
        self,
        source: CaptureSource,
        flags: SessionFlags,
        state: RuntimeState,
        event: CopyEvent,
        now: u64,
    ) -> (CopyAttempt, CopyAction) {
        match (self.phase, event) {
            (CopyPhase::Inspecting, CopyEvent::Inspected(target, ended)) => {
                if !source.accepts(target) {
                    self.failed(source.objection(target))
                } else if ended {
                    self.failed(CaptureError::SessionFinished)
                } else {
                    match self.request {
                        Some(request) => self.after_wait(
                            self.new_wait(source, state, request, now),
                            source,
                            flags,
                            state,
                            now,
                        ),
                        None => self.went_on(CopyPhase::Arming, CopyAction::ReadClock),
                    }
                }
            },
            (CopyPhase::Arming, CopyEvent::Clock(Err(error))) => self.failed(error),
            (CopyPhase::Arming, CopyEvent::Clock(Ok(time))) => self.after_wait(
                self.new_wait(source, state, self.armed(flags, time), now),
                source,
                flags,
                state,
                now,
            ),
            (CopyPhase::Waiting(wait), CopyEvent::Woke) => self.after_wait(
                wait,
                source,
                flags,
                state,
                now,
            ),
            (CopyPhase::Confirming(frame), CopyEvent::MonitorConfirmed(Ok(true))) => self.went_on(
                CopyPhase::Validating(frame),
                CopyAction::Validate,
            ),
            (CopyPhase::Confirming(_), CopyEvent::MonitorConfirmed(Ok(false))) => self.failed(
                CaptureError::SharedTargetChanged,
            ),
            (CopyPhase::Confirming(_), CopyEvent::MonitorConfirmed(Err(error))) => self.failed(
                error,
            ),
            (CopyPhase::Validating(_), CopyEvent::Validated(Err(error))) => self.failed(error),
            (CopyPhase::Validating(frame), CopyEvent::Validated(Ok(_))) => if flags.stopped {
                self.failed(CaptureError::Stopped)
            } else {
                self.went_on(CopyPhase::Rechecking(frame), CopyAction::Inspect)
            },
            (CopyPhase::Rechecking(frame), CopyEvent::Inspected(target, _)) => if !source.accepts(
                target,
            ) {
                self.failed(source.objection(target))
            } else {
                self.went_on(CopyPhase::Writing(frame), CopyAction::Write)
            },
            (CopyPhase::Writing(_), CopyEvent::Written(Err(error))) => self.failed(error),
            (CopyPhase::Writing(_), CopyEvent::Written(Ok(_))) => {
                let receipt = self.receipt(source, state, now);
                match source {
                    CaptureSource::RemoteTeamsWindow(id) => self.went_on(
                        CopyPhase::Locating(receipt),
                        CopyAction::Locate(
                            id,
                            state.latest->0.content_rect,
                            FrameSize {
                                width: state.latest->0.source_width,
                                height: state.latest->0.source_height,
                            },
                        ),
                    ),
                    CaptureSource::LocalMonitor(_) => self.went_on(
                        CopyPhase::Finished,
                        CopyAction::Done(Ok::<CaptureReceipt, CaptureError>(receipt)),
                    ),
                }
            },
            (CopyPhase::Locating(receipt), CopyEvent::Located(found)) => self.went_on(
                CopyPhase::Finished,
                CopyAction::Done(
                    Ok::<CaptureReceipt, CaptureError>(
                        CaptureReceipt {
                            screen_rect: match found {
                                Some(rect) => rect,
                                None => receipt.screen_rect,
                            },
                            latency: elapsed(now, self.started_at),
                            ..receipt
                        },
                    ),
                ),
            ),
            _ => self.failed(CaptureError::Stopped),
        }
    }

    /// The event is the one that the last action asked for, and the frame that the attempt
    /// has found is still cached: whoever carries an attempt out keeps it until it is
    /// written.
    pub open spec fn expects(self, state: RuntimeState, event: CopyEvent) -> bool {
        match self.phase {
            CopyPhase::Inspecting => event is Inspected,
            CopyPhase::Arming => event is Clock && self.request is None,
            CopyPhase::Waiting(_) => event is Woke,
            CopyPhase::Confirming(frame) => event is MonitorConfirmed && frame.is_cached(state),
            CopyPhase::Validating(frame) => event is Validated && frame.is_cached(state),
            CopyPhase::Rechecking(frame) => event is Inspected && frame.is_cached(state),
            CopyPhase::Writing(frame) => event is Written && frame.is_cached(state),
            CopyPhase::Locating(_) => event is Located,
            CopyPhase::Finished => false,
        }
    }

    /// The session after an event: it changes only when the attempt arms its own
    /// request.
    pub open spec fn armed_session(
        self,
        event: CopyEvent,
        flags: SessionFlags,
        state: RuntimeState,
    ) -> (SessionFlags, RuntimeState) {
        match event {
            CopyEvent::Clock(Ok(time)) => (
                SessionFlags { capture_requested: true, ..flags },
                RuntimeState {
                    requested_after_sequence: self.armed(flags, time).baseline_sequence,
                    ..state
                },
            ),
            _ => (flags, state),
        }
    }

    /// The attempt, the action and the session that follow from an event. Once the
    /// attempt is over, no request waits any more.
    pub open spec fn step(
        self,
        source: CaptureSource,
        flags: SessionFlags,
        state: RuntimeState,
        event: CopyEvent,
        now: u64,
    ) -> (CopyAttempt, CopyAction, SessionFlags, RuntimeState) {
        let session = self.armed_session(event, flags, state);
        let next = self.next(source, session.0, session.1, event, now);
        let flags = if next.1 is Done {
            SessionFlags { capture_requested: false, ..session.0 }
        } else {
            session.0
        };
        (next.0, next.1, flags, session.1)
    }

    /// A new attempt and its first action.
    pub open spec fn start(
        stopped: bool,
        request: Option<ArmedRequest>,
        baseline_override: Option<u64>,
        now: u64,
    ) -> (CopyAttempt, CopyAction) {
        let attempt = CopyAttempt {
            phase: CopyPhase::Inspecting,
            request,
            baseline_override,
            started_at: now,
        };
        if stopped {
            attempt.failed(CaptureError::Stopped)
        } else {
            (attempt, CopyAction::Inspect)
        }
    }

    /// Begins an attempt. A stopped session ends it at once.
    pub fn begin(
        flags: &mut SessionFlags,
        request: Option<ArmedRequest>,
        baseline_override: Option<u64>,
        now: u64,
    ) -> (result: (CopyAttempt, CopyAction))
        ensures
            result == Self::start(old(flags).stopped, request, baseline_override, now),
            *final(flags) == if old(flags).stopped {
                SessionFlags { capture_requested: false, ..*old(flags) }
            } else {
                *old(flags)
            },
    {
        let mut attempt = CopyAttempt {
            phase: CopyPhase::Inspecting,
            request,
            baseline_override,
            started_at: now,
        };
        if flags.stopped {
            attempt.phase = CopyPhase::Finished;
            flags.capture_requested = false;
            return (attempt, CopyAction::Done(Err(CaptureError::Stopped)));
        }
        (attempt, CopyAction::Inspect)
    }

    fn look_at_wait(
        &mut self,
        wait: CopyWait,
        source: &CaptureSource,
        flags: &SessionFlags,
        state: &RuntimeState,
        now: u64,
    ) -> (result: CopyAction)
        ensures
            (*final(self), result) == old(self).after_wait(wait, *source, *flags, *state, now),
    {
        match wait.poll(flags, state, now) {
            WaitStep::Wait(remaining) => {
                self.phase = CopyPhase::Waiting(wait);
                CopyAction::Wait(remaining)
            },
            WaitStep::Failed(error) => {
                self.phase = CopyPhase::Finished;
                CopyAction::Done(Err(error))
            },
            WaitStep::Expired => {
                self.phase = CopyPhase::Finished;
                if source.is_local_monitor() {
                    CopyAction::Done(Err(CaptureError::LocalFrameMissing))
                } else {
                    CopyAction::Done(Err(CaptureError::RemoteFrameMissing))
                }
            },
            WaitStep::Fresh(sequence) => {
                let frame = FreshFrame { sequence, request: wait.request };
                match source {
                    CaptureSource::LocalMonitor(target) => {
                        self.phase = CopyPhase::Confirming(frame);
                        CopyAction::ConfirmMonitor(*target)
                    },
                    CaptureSource::RemoteTeamsWindow(_) => {
                        self.phase = CopyPhase::Validating(frame);
                        CopyAction::Validate
                    },
                }
            },
        }
    }

    fn decide(
        &mut self,
        source: &CaptureSource,
        flags: &mut SessionFlags,
        state: &mut RuntimeState,
        event: CopyEvent,
        now: u64,
    ) -> (result: CopyAction)
        requires
            now <= CLOCK_LIMIT,
            old(self).expects(*old(state), event),
        ensures
            (*final(self), result) == old(self).next(
                *source,
                *final(flags),
                *final(state),
                event,
                now,
            ),
            (*final(flags), *final(state)) == old(self).armed_session(
                event,
                *old(flags),
                *old(state),
            ),
    {
        match event {
            CopyEvent::Inspected(target, ended) => {
                match source.validate_remote_target(target) {
                    Ok(()) => {},
                    Err(error) => {
                        self.phase = CopyPhase::Finished;
                        return CopyAction::Done(Err(error));
                    },
                }
                match self.phase {
                    CopyPhase::Rechecking(frame) => {
                        self.phase = CopyPhase::Writing(frame);
                        return CopyAction::Write;
                    },
                    _ => {},
                }
                if ended {
                    self.phase = CopyPhase::Finished;
                    return CopyAction::Done(Err(CaptureError::SessionFinished));
                }
                match self.request {
                    Some(request) => {
                        let wait = CopyWait::begin(source, state, request, self.started_at, now);
                        self.look_at_wait(wait, source, flags, state, now)
                    },
                    None => {
                        self.phase = CopyPhase::Arming;
                        CopyAction::ReadClock
                    },
                }
            },
            CopyEvent::Clock(Err(error)) => {
                self.phase = CopyPhase::Finished;
                CopyAction::Done(Err(error))
            },
            CopyEvent::Clock(Ok(time)) => {
                let request = arm_request(flags, state, self.baseline_override, time);
                let wait = CopyWait::begin(source, state, request, self.started_at, now);
                self.look_at_wait(wait, source, flags, state, now)
            },
            CopyEvent::Woke => match self.phase {
                CopyPhase::Waiting(wait) => self.look_at_wait(wait, source, flags, state, now),
                _ => CopyAction::Inspect,
            },
            CopyEvent::MonitorConfirmed(Ok(true)) => match self.phase {
                CopyPhase::Confirming(frame) => {
                    self.phase = CopyPhase::Validating(frame);
                    CopyAction::Validate
                },
                _ => CopyAction::Inspect,
            },
            CopyEvent::MonitorConfirmed(Ok(false)) => {
                self.phase = CopyPhase::Finished;
                CopyAction::Done(Err(CaptureError::SharedTargetChanged))
            },
            CopyEvent::MonitorConfirmed(Err(error)) => {
                self.phase = CopyPhase::Finished;
                CopyAction::Done(Err(error))
            },
            CopyEvent::Validated(Err(error)) => {
                self.phase = CopyPhase::Finished;
                CopyAction::Done(Err(error))
            },
            CopyEvent::Validated(Ok(())) => {
                if flags.stopped {
                    self.phase = CopyPhase::Finished;
                    return CopyAction::Done(Err(CaptureError::Stopped));
                }
                match self.phase {
                    CopyPhase::Validating(frame) => {
                        self.phase = CopyPhase::Rechecking(frame);
                    },
                    _ => {},
                }
                CopyAction::Inspect
            },
            CopyEvent::Written(Err(error)) => {
                self.phase = CopyPhase::Finished;
                CopyAction::Done(Err(error))
            },
            CopyEvent::Written(Ok(())) => match &state.latest {
                Some(cached) => {
                    let receipt = CaptureReceipt {
                        screen_rect: cached.fallback_screen_rect,
                        target_window_id: source.remote_target_id(),
                        latency: elapsed_since(now, self.started_at),
                        frame_age: elapsed_since(now, cached.captured_at),
                    };
                    match source {
                        CaptureSource::RemoteTeamsWindow(target_id) => {
                            self.phase = CopyPhase::Locating(receipt);
                            CopyAction::Locate(
                                *target_id,
                                cached.content_rect,
                                FrameSize {
                                    width: cached.source_width,
                                    height: cached.source_height,
                                },
                            )
                        },
                        CaptureSource::LocalMonitor(_) => {
                            self.phase = CopyPhase::Finished;
                            CopyAction::Done(Ok(receipt))
                        },
                    }
                },
                None => CopyAction::Inspect,
            },
            CopyEvent::Located(found) => match self.phase {
                CopyPhase::Locating(receipt) => {
                    self.phase = CopyPhase::Finished;
                    let screen_rect = match found {
                        Some(rect) => rect,
                        None => receipt.screen_rect,
                    };
                    CopyAction::Done(
                        Ok(
                            CaptureReceipt {
                                screen_rect,
                                target_window_id: receipt.target_window_id,
                                latency: elapsed_since(now, self.started_at),
                                frame_age: receipt.frame_age,
                            },
                        ),
                    )
                },
                _ => CopyAction::Inspect,
            },
        }
    }

    /// Takes what the last action gave.
    pub fn advance(
        &mut self,
        source: &CaptureSource,
        flags: &mut SessionFlags,
        state: &mut RuntimeState,
        event: CopyEvent,
        now: u64,
    ) -> (result: CopyAction)
        requires
            now <= CLOCK_LIMIT,
            old(self).expects(*old(state), event),
        ensures
            (*final(self), result, *final(flags), *final(state)) == old(self).step(
                *source,
                *old(flags),
                *old(state),
                event,
                now,
            ),
            result is Done == (final(self).phase is Finished),
            old(state).consistent(*old(flags)) ==> final(state).consistent(*final(flags)),
    {
        let action = self.decide(source, flags, state, event, now);
        match action {
            CopyAction::Done(_) => {
                flags.capture_requested = false;
            },
            _ => {},
        }
        action
    }
}

/// Pixels are written only by an attempt whose frame passed the validation and whose
/// window could still be captured, in a session that was not stopped.
pub proof fn law_output_follows_validation(
    attempt: CopyAttempt,
    source: CaptureSource,
    flags: SessionFlags,
    state: RuntimeState,
    event: CopyEvent,
    now: u64,
)
    requires
        attempt.expects(state, event),
    ensures
        attempt.next(source, flags, state, event, now).1 is Write ==> {
            &&& attempt.phase is Rechecking
            &&& event is Inspected
            &&& source.accepts(event->Inspected_0)
        },
        attempt.next(source, flags, state, event, now).0.phase is Rechecking ==> {
            &&& attempt.phase is Validating
            &&& event is Validated
            &&& event->Validated_0 is Ok
            &&& !flags.stopped
        },
        attempt.next(source, flags, state, event, now).0.phase is Validating ==> {
            ||| attempt.phase is Confirming && event == CopyEvent::MonitorConfirmed(
                Ok::<bool, CaptureError>(true),
            )
            ||| source is RemoteTeamsWindow && !flags.stopped && state.latest is Some
        },
{
}

impl CopyAttempt {
    /// The frame that the attempt has found, once it has.
    pub open spec fn frame(self) -> Option<FreshFrame> {
        match self.phase {
            CopyPhase::Confirming(frame) => Some(frame),
            CopyPhase::Validating(frame) => Some(frame),
            CopyPhase::Rechecking(frame) => Some(frame),
            CopyPhase::Writing(frame) => Some(frame),
            _ => None,
        }
    }

    /// A frame that the attempt has found is newer than the baseline of its request.
    pub open spec fn is_sound(self) -> bool {
        self.frame() is Some ==> self.frame()->0.is_newer()
    }
}

/// The frame that is written is the one that was found newer than the baseline: an attempt
/// finds only such a frame, stays with it at every step, and writes while it is cached.
pub proof fn law_the_fresh_frame_is_written(
    attempt: CopyAttempt,
    source: CaptureSource,
    flags: SessionFlags,
    state: RuntimeState,
    event: CopyEvent,
    now: u64,
)
    requires
        attempt.is_sound(),
        attempt.expects(state, event),
    ensures
        ({
            let next = attempt.step(source, flags, state, event, now);
            &&& next.0.is_sound()
            &&& next.0.frame() is Some ==> next.0.frame()->0.is_cached(state)
            &&& attempt.frame() is Some && next.0.frame() is Some ==> next.0.frame()
                == attempt.frame()
            &&& next.1 is Write ==> next.0.frame() is Some && attempt.frame() == next.0.frame()
        }),
{
}

/// An attempt begins without a frame.
pub proof fn law_an_attempt_begins_soundly(
    stopped: bool,
    request: Option<ArmedRequest>,
    baseline_override: Option<u64>,
    now: u64,
)
    ensures
        CopyAttempt::start(stopped, request, baseline_override, now).0.is_sound(),
{
}

/// A frame that is not newer than the baseline is never validated, let alone written:
/// the wait goes on, or the attempt fails.
pub proof fn law_stale_frame_is_never_copied(
    attempt: CopyAttempt,
    wait: CopyWait,
    source: CaptureSource,
    flags: SessionFlags,
    state: RuntimeState,
    now: u64,
)
    requires
        state.latest is None || state.latest->0.sequence <= wait.request.baseline_sequence,
    ensures
        ({
            let action = attempt.after_wait(wait, source, flags, state, now).1;
            ||| action is Wait
            ||| action is Done && action->Done_0 is Err
        }),
{
}

/// Waiting ends: no wait lasts longer than the time that a frame may take to be
/// processed.
pub proof fn law_wait_is_bounded(
    attempt: CopyAttempt,
    source: CaptureSource,
    state: RuntimeState,
    flags: SessionFlags,
    request: ArmedRequest,
    begun: u64,
    now: u64,
)
    requires
        begun <= CLOCK_LIMIT,
        now >= begun + READY_TIMEOUT,
    ensures
        !(attempt.new_wait(source, state, request, begun).outcome(flags, state, now) is Wait),
{
}

/// The monitor that is confirmed as the one shared is copied on; one that is not, or about
/// which nothing could be found out, ends the attempt with just that.
pub proof fn law_the_shared_monitor_is_confirmed(
    attempt: CopyAttempt,
    frame: FreshFrame,
    source: CaptureSource,
    flags: SessionFlags,
    state: RuntimeState,
    event: CopyEvent,
    now: u64,
)
    requires
        attempt.phase == CopyPhase::Confirming(frame),
        event is MonitorConfirmed,
    ensures
        ({
            let next = attempt.step(source, flags, state, event, now);
            &&& event->MonitorConfirmed_0 == Ok::<bool, CaptureError>(true) ==> next.0.phase
                == CopyPhase::Validating(frame) && next.1 is Validate
            &&& event->MonitorConfirmed_0 == Ok::<bool, CaptureError>(false) ==> next.1
                == CopyAction::Done(
                Err::<CaptureReceipt, CaptureError>(CaptureError::SharedTargetChanged),
            )
            &&& event->MonitorConfirmed_0 is Err ==> next.1 == CopyAction::Done(
                Err::<CaptureReceipt, CaptureError>(event->MonitorConfirmed_0->Err_0),
            )
        }),
{
}

/// A fresh frame of the shared monitor is copied whenever everything is confirmed: the
/// monitor is asked about, the frame validated, the target looked at again, the frame
/// written, and the capture ends well with the place of the monitor on the screen.
pub proof fn law_a_confirmed_monitor_is_copied(
    attempt: CopyAttempt,
    wait: CopyWait,
    target: LocalMonitorCaptureTarget,
    flags: SessionFlags,
    state: RuntimeState,
    window: TargetState,
    ended: bool,
    times: (u64, u64, u64, u64, u64),
)
    requires
        attempt.phase == CopyPhase::Waiting(wait),
        !flags.stopped,
        state.last_error_sequence <= wait.request.baseline_sequence,
        state.latest is Some,
        state.latest->0.sequence > wait.request.baseline_sequence,
    ensures
        ({
            let source = CaptureSource::LocalMonitor(target);
            let found = attempt.step(source, flags, state, CopyEvent::Woke, times.0);
            let confirmed = found.0.step(
                source,
                flags,
                state,
                CopyEvent::MonitorConfirmed(Ok::<bool, CaptureError>(true)),
                times.1,
            );
            let valid = confirmed.0.step(
                source,
                flags,
                state,
                CopyEvent::Validated(Ok::<(), CaptureError>(())),
                times.2,
            );
            let checked = valid.0.step(
                source,
                flags,
                state,
                CopyEvent::Inspected(window, ended),
                times.3,
            );
            let written = checked.0.step(
                source,
                flags,
                state,
                CopyEvent::Written(Ok::<(), CaptureError>(())),
                times.4,
            );
            &&& found.1 == CopyAction::ConfirmMonitor(target)
            &&& confirmed.1 is Validate
            &&& valid.1 is Inspect
            &&& checked.1 is Write
            &&& written.1 is Done
            &&& written.1->Done_0 is Ok
            &&& written.1->Done_0->Ok_0.screen_rect == state.latest->0.fallback_screen_rect
            &&& written.1->Done_0->Ok_0.target_window_id is None
            &&& written.0.phase is Finished
            &&& !written.2.capture_requested
        }),
{
}

/// A fresh frame of a Teams window is copied whenever everything is confirmed, and its
/// receipt names the window and where its content was found on the screen.
pub proof fn law_a_confirmed_window_is_copied(
    attempt: CopyAttempt,
    wait: CopyWait,
    id: u32,
    flags: SessionFlags,
    state: RuntimeState,
    found_at: Option<ScreenRect>,
    ended: bool,
    times: (u64, u64, u64, u64, u64),
)
    requires
        attempt.phase == CopyPhase::Waiting(wait),
        !flags.stopped,
        state.last_error_sequence <= wait.request.baseline_sequence,
        state.latest is Some,
        state.latest->0.sequence > wait.request.baseline_sequence,
    ensures
        ({
            let source = CaptureSource::RemoteTeamsWindow(id);
            let frame = state.latest->0;
            let found = attempt.step(source, flags, state, CopyEvent::Woke, times.0);
            let valid = found.0.step(
                source,
                flags,
                state,
                CopyEvent::Validated(Ok::<(), CaptureError>(())),
                times.1,
            );
            let checked = valid.0.step(
                source,
                flags,
                state,
                CopyEvent::Inspected(TargetState { exists: true, minimized: false }, ended),
                times.2,
            );
            let written = checked.0.step(
                source,
                flags,
                state,
                CopyEvent::Written(Ok::<(), CaptureError>(())),
                times.3,
            );
            let located = written.0.step(
                source,
                flags,
                state,
                CopyEvent::Located(found_at),
                times.4,
            );
            &&& found.1 is Validate
            &&& valid.1 is Inspect
            &&& checked.1 is Write
            &&& written.1 == CopyAction::Locate(
                id,
                frame.content_rect,
                FrameSize { width: frame.source_width, height: frame.source_height },
            )
            &&& located.1 is Done
            &&& located.1->Done_0 is Ok
            &&& located.1->Done_0->Ok_0.target_window_id == Some(id)
            &&& found_at is Some ==> located.1->Done_0->Ok_0.screen_rect == found_at->0
            &&& found_at is None ==> located.1->Done_0->Ok_0.screen_rect
                == frame.fallback_screen_rect
            &&& attempt.started_at <= times.4 ==> located.1->Done_0->Ok_0.latency == times.4
                - attempt.started_at
            &&& frame.captured_at <= times.3 ==> located.1->Done_0->Ok_0.frame_age == times.3
                - frame.captured_at
            &&& !located.2.capture_requested
        }),
{
}

/// Whatever fails, the attempt ends at once with that failure and waits for nothing more.
pub proof fn law_failures_end_the_attempt(
    attempt: CopyAttempt,
    source: CaptureSource,
    flags: SessionFlags,
    state: RuntimeState,
    event: CopyEvent,
    now: u64,
)
    requires
        attempt.expects(state, event),
    ensures
        ({
            let next = attempt.step(source, flags, state, event, now);
            let reported = match event {
                CopyEvent::Clock(Err(error)) => Some(error),
                CopyEvent::MonitorConfirmed(Err(error)) => Some(error),
                CopyEvent::Validated(Err(error)) => Some(error),
                CopyEvent::Written(Err(error)) => Some(error),
                _ => None,
            };
            &&& reported is Some ==> next.1 == CopyAction::Done(
                Err::<CaptureReceipt, CaptureError>(reported->0),
            )
            &&& next.1 is Done ==> next.0.phase is Finished && !next.2.capture_requested
        }),
{
}

/// A window that is gone or minimized is not captured, neither at the beginning nor right
/// before the output; a monitor has no such condition. A source that has ended is not
/// waited for.
pub proof fn law_unusable_targets_are_refused(
    attempt: CopyAttempt,
    source: CaptureSource,
    flags: SessionFlags,
    state: RuntimeState,
    window: TargetState,
    ended: bool,
    now: u64,
)
    requires
        attempt.phase is Inspecting || attempt.phase is Rechecking,
    ensures
        ({
            let next = attempt.step(source, flags, state, CopyEvent::Inspected(window, ended), now);
            &&& source is RemoteTeamsWindow && !window.exists ==> next.1 == CopyAction::Done(
                Err::<CaptureReceipt, CaptureError>(CaptureError::TargetMissing),
            )
            &&& source is RemoteTeamsWindow && window.exists && window.minimized ==> next.1
                == CopyAction::Done(
                Err::<CaptureReceipt, CaptureError>(CaptureError::TargetMinimized),
            )
            &&& source is LocalMonitor || (window.exists && !window.minimized) ==> {
                &&& attempt.phase is Rechecking ==> next.1 is Write
                &&& attempt.phase is Inspecting && ended ==> next.1 == CopyAction::Done(
                    Err::<CaptureReceipt, CaptureError>(CaptureError::SessionFinished),
                )
                &&& attempt.phase is Inspecting && !ended && attempt.request is None ==> next.1
                    is ReadClock
            }
        }),
{
}

/// A request that an attempt arms asks for frames after the newest one seen, unless another
/// baseline is given, and for pixels drawn after the clock was read; the session then knows
/// that a frame is asked for.
pub proof fn law_requests_ask_for_newer_frames(
    attempt: CopyAttempt,
    source: CaptureSource,
    flags: SessionFlags,
    state: RuntimeState,
    time: i64,
    now: u64,
)
    requires
        attempt.phase is Arming,
        attempt.request is None,
        now <= CLOCK_LIMIT,
    ensures
        ({
            let next = attempt.step(
                source,
                flags,
                state,
                CopyEvent::Clock(Ok::<i64, CaptureError>(time)),
                now,
            );
            let baseline = match attempt.baseline_override {
                Some(baseline) => baseline,
                None => flags.observed_sequence,
            };
            &&& next.3.requested_after_sequence == baseline
            &&& next.1 is Wait ==> {
                &&& next.2.capture_requested
                &&& next.0.phase is Waiting
                &&& next.0.phase->Waiting_0.request.baseline_sequence == baseline
                &&& next.0.phase->Waiting_0.request.requested_at_100ns == time
            }
            &&& next.0.frame() is Some ==> {
                &&& next.0.frame()->0.request.baseline_sequence == baseline
                &&& next.0.frame()->0.request.requested_at_100ns == time
                &&& next.0.frame()->0.sequence == state.latest->0.sequence
            }
        }),
{
}

/// How long an attempt waits: 1.2 s for a first frame and for one that is being processed;
/// 0.2 s for a monitor and for a window that has been sending; not at all for a window that
/// is known to be silent. The wait says how much of that is left, and at its end the attempt
/// fails as one without a frame.
pub proof fn law_waits_last_as_long_as_they_should(
    attempt: CopyAttempt,
    source: CaptureSource,
    flags: SessionFlags,
    state: RuntimeState,
    request: ArmedRequest,
    begun: u64,
    now: u64,
)
    requires
        begun <= now,
        begun <= CLOCK_LIMIT,
        attempt.started_at <= begun,
        !flags.stopped,
        state.last_error_sequence <= request.baseline_sequence,
        state.latest is None || state.latest->0.sequence <= request.baseline_sequence,
    ensures
        ({
            let wait = attempt.new_wait(source, state, request, begun);
            let next = attempt.after_wait(wait, source, flags, state, now);
            let spent = now - begun;
            let allowed: int = if flags.observed_sequence > request.baseline_sequence
                || state.latest is None {
                1_200_000_000
            } else if source is LocalMonitor {
                200_000_000
            } else {
                match (state.last_observed_at, state.last_frame_interval) {
                    (Some(last), _) if attempt.started_at >= last + 200_000_000 => 0,
                    (Some(last), Some(interval)) if last <= attempt.started_at && last + interval
                        > attempt.started_at + 200_000_000 => 0,
                    (Some(last), Some(interval)) if last > attempt.started_at && interval
                        > 200_000_000 => 0,
                    _ => 200_000_000,
                }
            };
            &&& spent < allowed ==> next.1 == CopyAction::Wait((allowed - spent) as u64)
                && next.0.phase == CopyPhase::Waiting(wait)
            &&& spent >= allowed && source is LocalMonitor ==> next.1 == CopyAction::Done(
                Err::<CaptureReceipt, CaptureError>(CaptureError::LocalFrameMissing),
            )
            &&& spent >= allowed && source is RemoteTeamsWindow ==> next.1 == CopyAction::Done(
                Err::<CaptureReceipt, CaptureError>(CaptureError::RemoteFrameMissing),
            )
        }),
{
}

/// While an attempt waits, a stopped session ends it, and so does a failure that is newer
/// than the request, in the words in which it was reported. An older failure does not.
pub proof fn law_newer_failures_end_the_wait(
    attempt: CopyAttempt,
    wait: CopyWait,
    source: CaptureSource,
    flags: SessionFlags,
    state: RuntimeState,
    now: u64,
)
    requires
        attempt.phase == CopyPhase::Waiting(wait),
    ensures
        ({
            let next = attempt.step(source, flags, state, CopyEvent::Woke, now);
            let newer = state.last_error_sequence > wait.request.baseline_sequence;
            &&& flags.stopped ==> next.1 == CopyAction::Done(
                Err::<CaptureReceipt, CaptureError>(CaptureError::Stopped),
            )
            &&& !flags.stopped && newer && state.last_error is Some ==> next.1
                == CopyAction::Done(
                Err::<CaptureReceipt, CaptureError>(CaptureError::Reported(state.last_error->0)),
            )
            &&& !flags.stopped && newer && state.last_error is None ==> next.1
                == CopyAction::Done(
                Err::<CaptureReceipt, CaptureError>(CaptureError::FrameFailed),
            )
            &&& !flags.stopped && !newer && state.latest is Some && state.latest->0.sequence
                > wait.request.baseline_sequence ==> !(next.1 is Done) && next.0.frame() is Some
        }),
{
}

/// The frame clock counts units of 100 ns: its reading is the number of whole units in the
/// time that the counter has run, and there is one unless the counter makes no sense or the
/// number does not fit.
pub proof fn law_the_clock_counts_whole_units(counter: i64, frequency: i64)
    ensures
        frame_clock(counter, frequency) is Ok ==> {
            let time = frame_clock(counter, frequency)->Ok_0;
            &&& counter >= 0
            &&& frequency > 0
            &&& time >= 0
            &&& time * frequency <= counter * 10_000_000 < (time + 1) * frequency
        },
        counter < 0 || frequency <= 0 ==> frame_clock(counter, frequency) == Err::<
            i64,
            CaptureError,
        >(CaptureError::ClockUnavailable),
        counter >= 0 && frequency > 0 && frame_clock(counter, frequency) is Err
            ==> frame_clock(counter, frequency)->Err_0 == CaptureError::ClockOverflow && counter
            * 10_000_000 > i64::MAX * frequency,
{
    if counter >= 0 && frequency > 0 {
        let scaled = counter as int * 10_000_000;
        let divisor = frequency as int;
        let ticks = scaled / divisor;
        assert(0 <= ticks && ticks * divisor <= scaled < (ticks + 1) * divisor) by (nonlinear_arith)
            requires
                divisor > 0,
                scaled >= 0,
                ticks == scaled / divisor,
        ;
        if ticks > i64::MAX {
            assert(scaled > i64::MAX * divisor) by (nonlinear_arith)
                requires
                    ticks * divisor <= scaled,
                    ticks >= i64::MAX + 1,
                    divisor > 0,
            ;
        }
    }
}

/// An attempt on a stopped session ends before it has looked at anything; every other one
/// begins by looking at the target, with the request that it was given.
pub proof fn law_attempts_begin_with_a_look(
    stopped: bool,
    request: Option<ArmedRequest>,
    baseline_override: Option<u64>,
    now: u64,
)
    ensures
        ({
            let begun = CopyAttempt::start(stopped, request, baseline_override, now);
            &&& stopped ==> begun.1 == CopyAction::Done(
                Err::<CaptureReceipt, CaptureError>(CaptureError::Stopped),
            ) && begun.0.phase is Finished
            &&& !stopped ==> begun.1 is Inspect && begun.0.phase is Inspecting
            &&& begun.0.request == request
            &&& begun.0.baseline_override == baseline_override
            &&& begun.0.started_at == now
        }),
{
}

/// A request that was armed before is the one that is waited for, whatever was seen
/// meanwhile.
pub proof fn law_armed_requests_are_kept(
    attempt: CopyAttempt,
    request: ArmedRequest,
    source: CaptureSource,
    flags: SessionFlags,
    state: RuntimeState,
    now: u64,
)
    requires
        attempt.phase is Inspecting,
        attempt.request == Some(request),
    ensures
        ({
            let next = attempt.step(
                source,
                flags,
                state,
                CopyEvent::Inspected(TargetState { exists: true, minimized: false }, false),
                now,
            );
            &&& next.0.phase is Waiting ==> next.0.phase->Waiting_0.request == request
            &&& next.0.frame() is Some ==> next.0.frame()->0.request == request
            &&& next.3 == state
            &&& !(next.1 is Done) ==> next.2 == flags
            &&& !flags.stopped && state.last_error_sequence <= request.baseline_sequence
                && state.latest is Some && state.latest->0.sequence > request.baseline_sequence
                ==> next.0.frame() is Some
        }),
{
}

/// A session that was stopped while the frame was validated writes nothing; any other looks
/// at the target once more. What becomes of it is told with the time since the request and
/// since the frame was taken.
pub proof fn law_stopped_sessions_write_nothing(
    attempt: CopyAttempt,
    frame: FreshFrame,
    source: CaptureSource,
    flags: SessionFlags,
    state: RuntimeState,
    now: u64,
)
    requires
        attempt.phase == CopyPhase::Validating(frame),
    ensures
        ({
            let next = attempt.step(
                source,
                flags,
                state,
                CopyEvent::Validated(Ok::<(), CaptureError>(())),
                now,
            );
            &&& flags.stopped ==> next.1 == CopyAction::Done(
                Err::<CaptureReceipt, CaptureError>(CaptureError::Stopped),
            )
            &&& !flags.stopped ==> next.1 is Inspect && next.0.phase == CopyPhase::Rechecking(
                frame,
            )
            &&& next.3 == state
            &&& next.2.stopped == flags.stopped
        }),
{
}

/// The receipt of a monitor counts the time from the beginning of the attempt, and the age
/// of the frame from the moment at which it was taken.
pub proof fn law_receipts_of_monitors_count_the_time(
    attempt: CopyAttempt,
    frame: FreshFrame,
    target: LocalMonitorCaptureTarget,
    flags: SessionFlags,
    state: RuntimeState,
    now: u64,
)
    requires
        attempt.phase == CopyPhase::Writing(frame),
        state.latest is Some,
        attempt.started_at <= now,
        state.latest->0.captured_at <= now,
    ensures
        ({
            let next = attempt.step(
                CaptureSource::LocalMonitor(target),
                flags,
                state,
                CopyEvent::Written(Ok::<(), CaptureError>(())),
                now,
            );
            &&& next.1 is Done
            &&& next.1->Done_0 is Ok
            &&& next.1->Done_0->Ok_0.latency == now - attempt.started_at
            &&& next.1->Done_0->Ok_0.frame_age == now - state.latest->0.captured_at
        }),
{
}

/// An attempt keeps the request that it was given and the moment at which it began; only
/// how far it has come changes. The session changes in nothing but the request that waits
/// in it.
pub proof fn law_attempts_keep_their_beginning(
    attempt: CopyAttempt,
    source: CaptureSource,
    flags: SessionFlags,
    state: RuntimeState,
    event: CopyEvent,
    now: u64,
)
    ensures
        ({
            let next = attempt.step(source, flags, state, event, now);
            &&& next.0.request == attempt.request
            &&& next.0.baseline_override == attempt.baseline_override
            &&& next.0.started_at == attempt.started_at
            &&& next.2.stopped == flags.stopped
            &&& next.2.observed_sequence == flags.observed_sequence
            &&& next.2.has_cached_frame == flags.has_cached_frame
            &&& next.2.preflight_in_progress == flags.preflight_in_progress
            &&& next.3.latest == state.latest
            &&& next.3.source_size == state.source_size
            &&& next.3.last_error == state.last_error
            &&& next.3.last_error_sequence == state.last_error_sequence
            &&& !(event is Clock) ==> next.3 == state
        }),
{
}

} // verus!
