use snapbar::copy::{
    arm_request, performance_time_100ns, remote_frame_wait, require_frame_after_request,
    ArmedRequest, CopyAction, CopyAttempt, CopyEvent, CopyPhase, FreshFrame, FRESH_FRAME_WAIT,
    READY_TIMEOUT,
};
use snapbar::error::CaptureError;
use snapbar::geometry::{FrameSize, PixelRect, ScreenRect, WindowGeometry};
use snapbar::layout::{require_matching_layout, RemoteLayout};
use snapbar::output::CaptureAuthorization;
use snapbar::recovery::{
    resident_retry_required, retire_stalled_remote, Recovery, RecoveryAction, RecoveryEvent,
    ResidentSession, RESIDENT_STALL_TIMEOUT,
};
use snapbar::request::{
    current_cached_sequence, validate_output, CaptureRun, RunAction, RunEvent,
};
use snapbar::session::{
    cache_crop, content_screen_rect, monitor_crop, observe_frame, on_closed, CachedFrame, Crop,
    FrameHandler, FrameStep, RuntimeState, SessionFlags, BACKUP_CACHE_INTERVAL,
};
use snapbar::source::{CaptureReceipt, CaptureSource, LocalMonitorCaptureTarget, TargetState};

const MS: u64 = 1_000_000;
const SECOND: u64 = 1_000 * MS;
const START: u64 = 10_000 * SECOND;

const PRESENT: TargetState = TargetState { exists: true, minimized: false };
const MINIMIZED: TargetState = TargetState { exists: true, minimized: true };
const MISSING: TargetState = TargetState { exists: false, minimized: false };

type Failure = CaptureError;

/// A session with a simulated window and clock.
struct Engine {
    source: CaptureSource,
    flags: SessionFlags,
    state: RuntimeState,
    target: TargetState,
    now: u64,
}

fn unit_rect() -> ScreenRect {
    ScreenRect { x: 0, y: 0, width: 1, height: 1 }
}

fn cached_remote_engine(target: TargetState) -> Engine {
    let rect = PixelRect::new(0, 0, 1, 1);
    Engine {
        source: CaptureSource::RemoteTeamsWindow(7),
        flags: SessionFlags {
            stopped: false,
            preflight_in_progress: false,
            capture_requested: false,
            observed_sequence: 1,
            has_cached_frame: true,
        },
        state: RuntimeState {
            latest: Some(CachedFrame {
                width: 1,
                height: 1,
                bytes: vec![10, 20, 30, 255],
                captured_at: START - 60 * SECOND,
                content_rect: rect,
                fallback_screen_rect: unit_rect(),
                source_width: 1,
                source_height: 1,
                sequence: 1,
                remote_layout: None,
                rendered_at_100ns: 0,
            }),
            content_rect: Some(rect),
            source_size: Some(FrameSize { width: 1, height: 1 }),
            confirmed_layout: None,
            last_observed_at: None,
            last_frame_interval: None,
            last_error: None,
            last_error_sequence: 0,
            requested_after_sequence: 0,
        },
        target,
        now: START,
    }
}

impl Engine {
    fn latest(&mut self) -> &mut CachedFrame {
        self.state.latest.as_mut().unwrap()
    }

    fn is_ready(&self) -> bool {
        self.flags.is_ready(Some(false))
    }

    fn is_finished(&self) -> bool {
        self.flags.is_finished(Some(false))
    }

    fn clock(&self) -> Result<i64, Failure> {
        performance_time_100ns((self.now / 100) as i64, 10_000_000)
    }

    /// Answers one action of an attempt.
    fn answer(
        &mut self,
        action: CopyAction,
        copy: &mut dyn FnMut(u32, u32, &[u8]) -> Result<(), Failure>,
        validate: &mut dyn FnMut(&CachedFrame) -> Result<(), Failure>,
        wait: &mut dyn FnMut(&mut Engine, u64),
    ) -> CopyEvent {
        match action {
            CopyAction::Inspect => CopyEvent::Inspected(self.target, false),
            CopyAction::ReadClock => CopyEvent::Clock(self.clock()),
            CopyAction::Wait(longest) => {
                wait(self, longest);
                CopyEvent::Woke
            }
            CopyAction::ConfirmMonitor(_) => CopyEvent::MonitorConfirmed(Ok(true)),
            CopyAction::Validate => {
                CopyEvent::Validated(validate(self.state.latest.as_ref().unwrap()))
            }
            CopyAction::Write => {
                let frame = self.state.latest.as_ref().unwrap();
                CopyEvent::Written(copy(frame.width, frame.height, &frame.bytes))
            }
            CopyAction::Locate(_, _, _) => CopyEvent::Located(None),
            CopyAction::Done(_) => panic!("an ended attempt asks for nothing"),
        }
    }

    fn copy_latest_armed(
        &mut self,
        copy: &mut dyn FnMut(u32, u32, &[u8]) -> Result<(), Failure>,
        baseline: Option<u64>,
        validate: &mut dyn FnMut(&CachedFrame) -> Result<(), Failure>,
        request: Option<ArmedRequest>,
        wait: &mut dyn FnMut(&mut Engine, u64),
    ) -> Result<CaptureReceipt, Failure> {
        let now = self.now;
        let (mut attempt, mut action) =
            CopyAttempt::begin(&mut self.flags, request, baseline, now);
        loop {
            if let CopyAction::Done(result) = action {
                return result;
            }
            let event = self.answer(action, copy, validate, wait);
            let source = self.source;
            let now = self.now;
            action = attempt.advance(&source, &mut self.flags, &mut self.state, event, now);
        }
    }

    fn copy_latest_with(
        &mut self,
        mut copy: impl FnMut(u32, u32, &[u8]) -> Result<(), Failure>,
    ) -> Result<CaptureReceipt, Failure> {
        self.copy_latest_armed(&mut copy, None, &mut |_| Ok(()), None, &mut sleep)
    }

    fn copy_latest_since(
        &mut self,
        mut copy: impl FnMut(u32, u32, &[u8]) -> Result<(), Failure>,
        baseline: Option<u64>,
    ) -> Result<CaptureReceipt, Failure> {
        self.copy_latest_armed(&mut copy, baseline, &mut |_| Ok(()), None, &mut sleep)
    }

    fn copy_with_recovery_armed(
        &mut self,
        copy: &mut dyn FnMut(u32, u32, &[u8]) -> Result<(), Failure>,
        restart: impl FnOnce(&Engine) -> Result<Engine, Failure>,
        validate: &mut dyn FnMut(&CachedFrame) -> Result<(), Failure>,
        wait: &mut dyn FnMut(&mut Engine, u64),
    ) -> (Result<CaptureReceipt, Failure>, Option<Engine>) {
        let now = self.now;
        let (mut recovery, mut action) = Recovery::begin(&mut self.flags, None, now);
        let mut restart = Some(restart);
        let mut replacement: Option<Engine> = None;
        loop {
            let event = match action {
                RecoveryAction::Done(result, replaced) => {
                    assert_eq!(replaced, replacement.is_some());
                    return (result, replacement);
                }
                RecoveryAction::Inspect => RecoveryEvent::Inspected(self.target),
                RecoveryAction::Restart(_) => {
                    let restart = restart.take().expect("a request restarts once");
                    RecoveryEvent::Restarted(restart(self).map(|engine| {
                        replacement = Some(engine);
                    }))
                }
                RecoveryAction::Copy(action) => {
                    let engine = replacement.as_mut().unwrap_or(self);
                    RecoveryEvent::Copy(engine.answer(action, copy, validate, wait))
                }
            };
            let source = self.source;
            let engine = replacement.as_mut().unwrap_or(self);
            let now = engine.now;
            action = recovery.advance(&source, &mut engine.flags, &mut engine.state, event, now);
        }
    }

    fn copy_with_recovery(
        &mut self,
        mut copy: impl FnMut(u32, u32, &[u8]) -> Result<(), Failure>,
        restart: impl FnOnce(&Engine) -> Result<Engine, Failure>,
    ) -> (Result<CaptureReceipt, Failure>, Option<Engine>) {
        self.copy_with_recovery_armed(&mut copy, restart, &mut |_| Ok(()), &mut sleep)
    }
}

fn sleep(engine: &mut Engine, longest: u64) {
    engine.now += longest;
}

fn reported(text: &str) -> Failure {
    CaptureError::Reported(text.to_string())
}

fn unit_layout() -> RemoteLayout {
    RemoteLayout {
        revision: 0,
        geometry: WindowGeometry::from_screen_rect(unit_rect(), 1, 1),
        content_rect: PixelRect { x: 0, y: 0, width: 1, height: 1 },
    }
}

/// Runs a request in which the layout is confirmed as `confirmed` each time. `before_check`
/// runs before the layout is confirmed for a frame that is reused.
fn run_request(
    engine: &mut Engine,
    authorized: Result<(), Failure>,
    confirmed: &mut dyn FnMut(u32) -> Result<RemoteLayout, Failure>,
    before_check: &mut dyn FnMut(&mut Engine),
    copy: &mut dyn FnMut(&[u8]) -> Result<(), Failure>,
) -> (Result<CaptureReceipt, Failure>, bool) {
    let (mut run, mut action) =
        CaptureRun::begin(&engine.source, &mut engine.flags, &engine.state, engine.now);
    let mut authorized = Some(authorized);
    let mut looks = 0;
    loop {
        let event = match action {
            RunAction::Done(result, replaced) => return (result, replaced),
            RunAction::Authorize => RunEvent::Authorized(authorized.take().unwrap()),
            RunAction::Inspect => RunEvent::Inspected(engine.target, false),
            RunAction::ConfirmLayout(_) => {
                looks += 1;
                if looks == 2 {
                    before_check(engine);
                }
                RunEvent::LayoutConfirmed(confirmed(looks))
            }
            RunAction::Write => {
                RunEvent::Written(copy(&engine.state.latest.as_ref().unwrap().bytes))
            }
            RunAction::ReadClock => RunEvent::Clock(engine.clock()),
            RunAction::ConfirmOutput(_) => {
                looks += 1;
                RunEvent::OutputConfirmed(Ok(()), confirmed(looks))
            }
            RunAction::Recovery(inner) => RunEvent::Recovery(match inner {
                RecoveryAction::Inspect => RecoveryEvent::Inspected(engine.target),
                RecoveryAction::Restart(_) => {
                    RecoveryEvent::Restarted(Err(reported("fresh session unavailable")))
                }
                RecoveryAction::Copy(action) => RecoveryEvent::Copy(engine.answer(
                    action,
                    &mut |_, _, bytes| copy(bytes),
                    &mut |_| panic!("the request confirms its own output"),
                    &mut sleep,
                )),
                RecoveryAction::Done(_, _) => panic!("the request ends itself"),
            }),
        };
        action = run.advance(
            &engine.source,
            &mut engine.flags,
            &mut engine.state,
            event,
            engine.now,
        );
    }
}

#[test]
fn latest_frame_fast_path_rechecks_observations_layout_and_stop() {
    let mut engine = cached_remote_engine(PRESENT);
    let layout = unit_layout();
    engine.latest().remote_layout = Some(layout);
    let sequence =
        current_cached_sequence(&engine.source, &engine.flags, &engine.state).unwrap();
    assert_eq!(sequence, 1);
    let mut copies = 0;

    let (result, _) = run_request(
        &mut engine,
        Ok(()),
        &mut |look| if look == 1 { Ok(layout) } else { Err(reported("evidence invalidated")) },
        &mut |_| {},
        &mut |_| panic!("invalid evidence must not write clipboard or PNG"),
    );
    assert_eq!(result.unwrap_err().message(), "evidence invalidated");
    assert!(!engine.flags.preflight_in_progress);

    // A static frame can be old in wall-clock time while still being the latest one.
    let (result, replaced) = run_request(
        &mut engine,
        Ok(()),
        &mut |_| Ok(layout),
        &mut |_| {},
        &mut |bytes| {
            assert_eq!(bytes, &[10, 20, 30, 255]);
            copies += 1;
            Ok(())
        },
    );
    let receipt = result.unwrap();
    assert_eq!(receipt.frame_age, 60 * SECOND);
    assert_eq!(receipt.target_window_id, Some(7));
    assert!(!replaced);

    let changed = RemoteLayout {
        content_rect: PixelRect { x: 1, ..layout.content_rect },
        ..layout
    };
    let (result, _) = run_request(
        &mut engine,
        Ok(()),
        &mut |_| Ok(changed),
        &mut |_| {},
        &mut |_| panic!("changed crop"),
    );
    assert!(result.is_err());

    // A newer arrival that is not cached invalidates the frame.
    let mut engine = cached_remote_engine(PRESENT);
    engine.latest().remote_layout = Some(layout);
    let (result, _) = run_request(
        &mut engine,
        Ok(()),
        &mut |_| Ok(layout),
        &mut |engine| {
            let now = engine.now;
            let size = FrameSize { width: 1, height: 1 };
            observe_frame(&mut engine.flags, &mut engine.state, size, now);
        },
        &mut |_| panic!("frame changed during output validation"),
    );
    assert_eq!(result.unwrap_err().message(), "fresh session unavailable");
    assert!(current_cached_sequence(&engine.source, &engine.flags, &engine.state).is_none());

    let mut engine = cached_remote_engine(PRESENT);
    engine.latest().remote_layout = Some(layout);
    engine.flags.stop();
    let (result, _) = run_request(
        &mut engine,
        Ok(()),
        &mut |_| Ok(layout),
        &mut |_| {},
        &mut |_| panic!("stopped"),
    );
    assert!(result.is_err());
    assert_eq!(copies, 1);
}

#[test]
fn a_request_ends_before_anything_is_read_where_it_is_not_authorized() {
    let mut engine = cached_remote_engine(PRESENT);
    let (result, _) = run_request(
        &mut engine,
        Err(CaptureError::Revoked),
        &mut |_| panic!("nothing is confirmed"),
        &mut |_| {},
        &mut |_| panic!("nothing is written"),
    );
    assert!(matches!(result, Err(CaptureError::Revoked)));
    assert!(!engine.flags.preflight_in_progress);
}

#[test]
fn a_request_waits_for_a_frame_where_the_newest_one_cannot_be_reused() {
    let layout = unit_layout();
    let mut engine = cached_remote_engine(PRESENT);
    engine.latest().remote_layout = Some(layout);
    engine.flags.observed_sequence = 0;
    let mut copied = 0;
    // The frame is newer than the baseline, but was drawn before the request.
    let (result, replaced) = run_request(
        &mut engine,
        Ok(()),
        &mut |_| Ok(layout),
        &mut |_| {},
        &mut |_| {
            copied += 1;
            Ok(())
        },
    );
    assert_eq!(result.unwrap_err().message(), "fresh session unavailable");
    assert!(!replaced);
    assert!(engine.is_finished());

    let mut engine = cached_remote_engine(PRESENT);
    engine.latest().remote_layout = Some(layout);
    engine.latest().rendered_at_100ns = i64::MAX;
    engine.flags.observed_sequence = 0;
    let (result, _) = run_request(
        &mut engine,
        Ok(()),
        &mut |_| Ok(layout),
        &mut |_| {},
        &mut |_| {
            copied += 1;
            Ok(())
        },
    );
    assert!(result.is_ok());
    assert_eq!(copied, 1);
    assert!(!engine.flags.capture_requested);
}

#[test]
fn stopped_engine_does_not_report_ready_or_copy_retained_frame() {
    let mut engine = cached_remote_engine(PRESENT);
    assert!(engine.is_ready());
    engine.flags.stop();
    assert!(!engine.is_ready());
    assert!(engine.is_finished());
    let result =
        engine.copy_latest_since(|_, _, _| panic!("stopped capture must not publish"), Some(0));
    assert!(result.unwrap_err().message().contains("停止"));
}

#[test]
fn minimized_remote_capture_preserves_clipboard() {
    let mut engine = cached_remote_engine(MINIMIZED);
    assert!(engine.is_ready());
    let mut clipboard = vec![99];

    let error = engine
        .copy_latest_with(|_, _, bytes| {
            clipboard = bytes.to_vec();
            Ok(())
        })
        .unwrap_err();
    assert!(error.message().contains("最小化"));
    assert_eq!(clipboard, [99]);
    assert!(engine.is_ready());
    assert!(!engine.flags.capture_requested);
}

#[test]
fn minimized_remote_recovery_does_not_retry_or_replace() {
    let mut engine = cached_remote_engine(MINIMIZED);
    let (result, replacement) = engine.copy_with_recovery(
        |_, _, _| panic!("minimized capture must not write to clipboard"),
        |_| panic!("minimized capture must not restart"),
    );
    assert!(result.unwrap_err().message().contains("最小化"));
    assert!(replacement.is_none());
}

#[test]
fn remote_capture_does_not_require_foreground_window() {
    let mut engine = cached_remote_engine(PRESENT);
    engine.flags.observed_sequence = 0;
    let mut clipboard = vec![99];
    engine
        .copy_latest_with(|width, height, bytes| {
            assert_eq!((width, height), (1, 1));
            clipboard = bytes.to_vec();
            Ok(())
        })
        .unwrap();
    assert_eq!(clipboard, [10, 20, 30, 255]);
}

#[test]
fn missing_remote_window_does_not_copy_cached_frame() {
    let mut engine = cached_remote_engine(MISSING);
    let error = engine
        .copy_latest_with(|_, _, _| panic!("missing window must not write to clipboard"))
        .unwrap_err();
    assert!(error.message().contains("見つかりません"));
}

#[test]
fn shrinking_share_at_unchanged_frame_size_preserves_clipboard() {
    let mut engine = cached_remote_engine(PRESENT);
    let geometry = WindowGeometry::from_screen_rect(
        ScreenRect { x: 0, y: 0, width: 1600, height: 900 },
        1600,
        900,
    );
    let previous = RemoteLayout {
        revision: 0,
        geometry,
        content_rect: PixelRect::new(100, 100, 1400, 750),
    };
    let current = RemoteLayout {
        revision: 0,
        geometry,
        content_rect: PixelRect::new(100, 100, 1100, 750),
    };
    engine.latest().remote_layout = Some(previous);
    let mut clipboard = vec![99];
    let result = engine.copy_latest_armed(
        &mut |_, _, bytes| {
            clipboard = bytes.to_vec();
            Ok(())
        },
        Some(0),
        &mut |cached| require_matching_layout(cached.remote_layout, current),
        None,
        &mut sleep,
    );
    assert!(result.unwrap_err().message().contains("共有範囲"));
    assert_eq!(clipboard, [99]);
}

#[test]
fn unavailable_uia_never_falls_back_to_a_confirmed_crop() {
    let mut engine = cached_remote_engine(PRESENT);
    engine.flags.observed_sequence = 0;
    let (result, replacement) = engine.copy_with_recovery_armed(
        &mut |_, _, _| panic!("unconfirmed layout must not reach output"),
        |_| panic!("UIA failure must not restart and reuse the crop"),
        &mut |_| Err(reported("UIA unavailable")),
        &mut sleep,
    );
    assert_eq!(result.unwrap_err().message(), "UIA unavailable");
    assert!(replacement.is_none());
}

#[test]
fn same_crop_with_changed_window_geometry_is_rejected() {
    let rect = ScreenRect { x: 0, y: 0, width: 1600, height: 900 };
    let previous = RemoteLayout {
        revision: 0,
        geometry: WindowGeometry::from_screen_rect(rect, 1600, 900),
        content_rect: PixelRect::new(100, 100, 1400, 750),
    };
    for rect in [
        ScreenRect { x: 20, ..rect },
        ScreenRect { width: 1800, ..rect },
    ] {
        let current = RemoteLayout {
            geometry: WindowGeometry::from_screen_rect(rect, 1600, 900),
            ..previous
        };
        assert!(require_matching_layout(Some(previous), current).is_err());
    }
    assert!(require_matching_layout(Some(previous), previous).is_ok());
    assert!(require_matching_layout(None, previous).is_err());
}

#[test]
fn share_ending_while_waiting_for_a_frame_prevents_output() {
    let mut engine = cached_remote_engine(PRESENT);
    let authorization = CaptureAuthorization::default();
    let worker_auth = authorization.clone();
    let mut output_calls = 0;
    let result = engine.copy_latest_armed(
        &mut |_, _, _| {
            authorization.with_current(|| {
                output_calls += 1;
                Ok(())
            })
        },
        None,
        &mut |_| Ok(()),
        None,
        &mut |engine, _| {
            assert!(engine.flags.capture_requested);
            worker_auth.invalidate();
            engine.latest().sequence = 2;
            engine.flags.observed_sequence = 2;
        },
    );
    assert!(result.is_err());
    assert_eq!(output_calls, 0);
}

#[test]
fn late_delivery_of_preflight_pixels_never_reaches_output() {
    let mut engine = cached_remote_engine(PRESENT);
    let result = engine.copy_latest_armed(
        &mut |_, _, _| panic!("a later sequence does not prove when the pixels were drawn"),
        Some(0),
        &mut |cached| require_frame_after_request(cached.rendered_at_100ns, 10),
        None,
        &mut sleep,
    );
    assert!(result.unwrap_err().is_frame_unavailable());
    assert!(require_frame_after_request(10, 10).is_err());
    assert!(require_frame_after_request(11, 10).is_ok());
}

#[test]
fn remote_static_cache_requires_a_frame_after_the_request() {
    let mut engine = cached_remote_engine(PRESENT);
    let error = engine
        .copy_latest_with(|_, _, _| panic!("pre-request pixels must not be copied"))
        .unwrap_err();
    assert!(error.is_frame_unavailable());
}

#[test]
fn quiescent_source_skips_wait_without_authorizing_old_pixels() {
    let now = START;
    assert_eq!(remote_frame_wait(None, None, now), FRESH_FRAME_WAIT);
    assert_eq!(remote_frame_wait(Some(now), None, now), FRESH_FRAME_WAIT);
    assert_eq!(remote_frame_wait(Some(now - FRESH_FRAME_WAIT), None, now), 0);
    let mut engine = cached_remote_engine(PRESENT);
    engine.state.last_observed_at = Some(now - SECOND);
    let (result, replacement) = engine.copy_with_recovery(
        |_, _, _| panic!("quiescence does not authorize old pixels"),
        |_| Err(reported("fresh session unavailable")),
    );
    assert_eq!(result.unwrap_err().message(), "fresh session unavailable");
    assert!(replacement.is_none());
    assert_eq!(engine.now, START);
}

#[test]
fn low_rate_frame_during_preflight_skips_wait_but_still_requires_new_pixels() {
    let mut engine = cached_remote_engine(PRESENT);
    let now = START;
    let size = FrameSize { width: 1, height: 1 };
    observe_frame(&mut engine.flags, &mut engine.state, size, now - SECOND);
    observe_frame(&mut engine.flags, &mut engine.state, size, now);
    let interval = engine.state.last_frame_interval;
    assert_eq!(remote_frame_wait(Some(now), interval, now), 0);
    assert_eq!(remote_frame_wait(Some(now), Some(16 * MS), now), FRESH_FRAME_WAIT);
    let (result, _) = engine.copy_with_recovery(
        |_, _, _| panic!("cadence must not authorize old pixels"),
        |_| Err(reported("fresh session unavailable")),
    );
    assert_eq!(result.unwrap_err().message(), "fresh session unavailable");
}

#[test]
fn preflight_pauses_backup_without_consuming_the_capture_request() {
    let mut engine = cached_remote_engine(PRESENT);
    engine.flags.preflight_in_progress = true;
    assert!(engine.flags.backup_paused(false));
    assert!(!engine.flags.capture_requested);
    let size = FrameSize { width: 20, height: 30 };
    observe_frame(&mut engine.flags, &mut engine.state, size, START);
    assert_eq!(engine.state.source_size, Some(size));
    assert!(!engine.flags.backup_paused(true));
    engine.flags.preflight_in_progress = false;
    assert!(!engine.flags.backup_paused(false));
    assert!(!engine.flags.capture_requested);
}

#[test]
fn frame_between_arming_and_waiting_is_not_swallowed_by_a_new_baseline() {
    let mut engine = cached_remote_engine(PRESENT);
    let time = engine.clock().unwrap();
    let request = arm_request(&mut engine.flags, &mut engine.state, None, time);
    let size = FrameSize { width: 1, height: 1 };
    let sequence = observe_frame(&mut engine.flags, &mut engine.state, size, START);
    assert!(sequence > request.baseline_sequence);
    assert_eq!(engine.state.requested_after_sequence, request.baseline_sequence);
    let frame = engine.latest();
    frame.sequence = sequence;
    frame.rendered_at_100ns = request.requested_at_100ns + 1;
    frame.bytes[0] = 77;
    let mut copied = 0;
    engine
        .copy_latest_armed(
            &mut |_, _, bytes| {
                copied = bytes[0];
                Ok(())
            },
            None,
            &mut |frame| {
                require_frame_after_request(frame.rendered_at_100ns, request.requested_at_100ns)
            },
            Some(request),
            &mut sleep,
        )
        .unwrap();
    assert_eq!(copied, 77);
    assert!(!engine.flags.capture_requested);
}

#[test]
fn remote_copy_waits_for_each_80ms_frame_at_4hz() {
    let mut engine = cached_remote_engine(PRESENT);
    let started = engine.now;
    for value in 1_u8..=8 {
        engine.now = started + u64::from(value - 1) * 250 * MS;
        let mut copied = 0;
        engine
            .copy_latest_armed(
                &mut |_, _, bytes| {
                    copied = bytes[0];
                    Ok(())
                },
                None,
                &mut |_| Ok(()),
                None,
                &mut |engine, longest| {
                    assert!(longest >= 80 * MS);
                    engine.now += 80 * MS;
                    engine.flags.observed_sequence += 1;
                    let sequence = engine.flags.observed_sequence;
                    let now = engine.now;
                    let latest = engine.latest();
                    latest.bytes[0] = value;
                    latest.sequence = sequence;
                    latest.captured_at = now;
                    engine.flags.capture_requested = false;
                },
            )
            .unwrap();
        assert_eq!(copied, value);
    }
}

#[test]
fn remote_copy_rejects_stale_cache_after_an_observed_frame() {
    let mut engine = cached_remote_engine(PRESENT);
    engine.flags.observed_sequence = 1;
    let mut copied = false;
    let result = engine.copy_latest_armed(
        &mut |_, _, _| {
            copied = true;
            Ok(())
        },
        None,
        &mut |_| Ok(()),
        None,
        &mut |engine, longest| {
            if engine.flags.observed_sequence == 1 {
                engine.now += 80 * MS;
                engine.flags.observed_sequence = 2;
            } else {
                engine.now += longest;
            }
        },
    );
    assert!(result.is_err());
    assert!(!copied);
    assert!(!engine.flags.capture_requested);
}

#[test]
fn frame_unavailable_restarts_once_and_returns_replacement() {
    let mut engine = cached_remote_engine(PRESENT);
    engine.flags.observed_sequence = 2;
    let mut replacement = cached_remote_engine(PRESENT);
    replacement.latest().bytes[0] = 77;

    let mut copied = 0;
    let (result, replaced) = engine.copy_with_recovery(
        |_, _, bytes| {
            copied = bytes[0];
            Ok(())
        },
        |engine| {
            assert!(engine.is_finished());
            assert!(!engine.is_ready());
            Ok(replacement)
        },
    );
    assert!(result.is_ok());
    assert_eq!(copied, 77);
    assert!(replaced.is_some());
}

#[test]
fn clipboard_error_does_not_restart_capture() {
    let mut engine = cached_remote_engine(PRESENT);
    engine.flags.observed_sequence = 0;
    let mut restarts = 0;
    let (result, replacement) = engine.copy_with_recovery(
        |_, _, _| Err(reported("clipboard failed")),
        |_| {
            restarts += 1;
            Ok(cached_remote_engine(PRESENT))
        },
    );
    assert!(result.is_err());
    assert_eq!(restarts, 0);
    assert!(replacement.is_none());
}

#[test]
fn restart_failure_is_returned_without_a_replacement() {
    let mut engine = cached_remote_engine(PRESENT);
    engine.flags.observed_sequence = 2;
    let (result, replacement) =
        engine.copy_with_recovery(|_, _, _| Ok(()), |_| Err(reported("restart failed")));
    assert_eq!(result.unwrap_err().message(), "restart failed");
    assert!(replacement.is_none());
    assert!(engine.is_finished());
}

#[test]
fn failed_retry_returns_the_replacement_engine() {
    let mut engine = cached_remote_engine(PRESENT);
    engine.flags.observed_sequence = 2;
    let mut replacement = cached_remote_engine(PRESENT);
    replacement.flags.observed_sequence = 2;
    replacement.latest().sequence = 0;
    let (result, replacement) = engine.copy_with_recovery(|_, _, _| Ok(()), |_| Ok(replacement));
    assert!(result.is_err());
    assert!(replacement.is_some());
}

#[test]
fn restarted_session_accepts_its_initial_cached_frame() {
    let mut engine = cached_remote_engine(PRESENT);
    let started = engine.now;
    let result = engine.copy_latest_since(|_, _, _| Ok(()), Some(0));
    assert!(result.is_ok());
    assert!(engine.now - started < FRESH_FRAME_WAIT);
}

fn local_target() -> LocalMonitorCaptureTarget {
    LocalMonitorCaptureTarget { monitor_handle: 0, screen_rect: unit_rect() }
}

#[test]
fn local_copy_requires_a_new_cache_even_if_another_frame_arrived() {
    let mut engine = cached_remote_engine(MISSING);
    engine.source = CaptureSource::LocalMonitor(local_target());
    let result = engine.copy_latest_armed(
        &mut |_, _, _| panic!("stale local frame must not be copied"),
        None,
        &mut |_| Ok(()),
        None,
        &mut |engine, longest| {
            if engine.flags.observed_sequence == 1 {
                engine.flags.observed_sequence = 2;
            } else {
                engine.now += longest;
            }
        },
    );
    assert!(result.unwrap_err().message().contains("新しいフレーム"));
    assert!(!engine.flags.capture_requested);
}

#[test]
fn arrived_frame_finishes_uia_after_the_arrival_timeout_without_restart() {
    let mut engine = cached_remote_engine(PRESENT);
    let mut copied = Vec::new();
    let (result, replacement) = engine.copy_with_recovery_armed(
        &mut |_, _, bytes| {
            copied = bytes.to_vec();
            Ok(())
        },
        |_| panic!("a healthy in-flight crop must not restart WGC"),
        &mut |_| Ok(()),
        &mut |engine, longest| {
            if engine.flags.observed_sequence == 1 {
                engine.flags.observed_sequence = 2;
            } else {
                // Exceed the 200 ms arrival budget while processing a real arrival.
                assert!(longest >= 300 * MS);
                engine.now += 300 * MS;
                let cached = engine.latest();
                cached.sequence = 2;
                cached.bytes = vec![40, 50, 60, 255];
            }
        },
    );
    result.unwrap();
    assert!(replacement.is_none());
    assert_eq!(copied, [40, 50, 60, 255]);
}

#[test]
fn fresh_uia_failure_is_reported_without_a_timeout_or_session_restart() {
    let mut engine = cached_remote_engine(PRESENT);
    let (result, replacement) = engine.copy_with_recovery_armed(
        &mut |_, _, _| panic!("unconfirmed pixels must not be copied"),
        |_| panic!("a UIA failure is not a dead WGC session"),
        &mut |_| Ok(()),
        &mut |engine, _| {
            engine.flags.observed_sequence = 2;
            engine.state.latest = None;
            engine.state.last_error = Some("test: authoritative UIA unavailable".to_string());
            engine.state.last_error_sequence = 2;
        },
    );
    assert_eq!(result.unwrap_err().message(), "test: authoritative UIA unavailable");
    assert!(replacement.is_none());
}

#[test]
fn lost_crop_keeps_only_source_dimensions_for_a_new_preflight() {
    let size = FrameSize { width: 1920, height: 1080 };
    let state = RuntimeState {
        source_size: Some(size),
        last_error: Some("transient UIA failure".to_string()),
        ..RuntimeState::default()
    };
    assert_eq!(state.source_dimensions(), Some(size));
    assert!(state.latest.is_none());
    assert!(state.content_rect.is_none());
    assert_eq!(RuntimeState::default().source_dimensions(), None);
}

#[test]
fn explicit_retry_can_recover_an_empty_pixel_cache() {
    let mut engine = cached_remote_engine(PRESENT);
    engine.state.source_size = Some(FrameSize { width: 1, height: 1 });
    engine.state.latest = None;
    engine.state.last_error = Some("previous UIA failure".to_string());
    engine.state.last_error_sequence = 1;
    engine.flags.has_cached_frame = false;
    let mut copied = false;
    let (result, replacement) = engine.copy_with_recovery(
        |_, _, _| {
            copied = true;
            Ok(())
        },
        |_| Ok(cached_remote_engine(PRESENT)),
    );
    result.unwrap();
    assert!(copied);
    assert!(replacement.is_some());
}

#[test]
fn in_flight_crop_has_a_fixed_total_deadline() {
    let mut engine = cached_remote_engine(PRESENT);
    let started = engine.now;
    let error = engine
        .copy_latest_armed(
            &mut |_, _, _| panic!("no fresh crop"),
            None,
            &mut |_| Ok(()),
            None,
            &mut |engine, longest| {
                engine.flags.observed_sequence = 2;
                engine.now += longest;
            },
        )
        .unwrap_err();
    assert!(error.is_frame_unavailable());
    assert!(engine.now - started >= READY_TIMEOUT);
    assert!(!engine.flags.capture_requested);
}

#[test]
fn empty_cache_waits_past_an_old_in_flight_crop_for_the_requested_frame() {
    let mut engine = cached_remote_engine(PRESENT);
    let mut old = engine.state.latest.take();
    engine.flags.has_cached_frame = false;
    let mut copied = 0;
    let (result, replacement) = engine.copy_with_recovery_armed(
        &mut |_, _, bytes| {
            copied = bytes[0];
            Ok(())
        },
        |_| panic!("a pre-request crop must not end a fresh-frame wait"),
        &mut |_| Ok(()),
        &mut |engine, longest| {
            if let Some(old) = old.take() {
                engine.state.latest = Some(old);
            } else {
                assert!(longest >= 80 * MS);
                engine.now += 80 * MS;
                engine.flags.observed_sequence = 2;
                let frame = engine.latest();
                frame.sequence = 2;
                frame.bytes[0] = 88;
            }
        },
    );
    result.unwrap();
    assert!(replacement.is_none());
    assert_eq!(copied, 88);
}

#[test]
fn same_rectangle_from_a_new_uia_revision_is_not_old_frame_authorization() {
    let geometry = WindowGeometry::from_screen_rect(
        ScreenRect { x: 0, y: 0, width: 1600, height: 900 },
        1600,
        900,
    );
    let old = RemoteLayout {
        geometry,
        content_rect: PixelRect::new(100, 100, 1400, 700),
        revision: 1,
    };
    let next = RemoteLayout { revision: 2, ..old };
    assert!(require_matching_layout(Some(old), next).is_err());
    assert!(require_matching_layout(Some(next), next).is_ok());
}

#[test]
fn the_frame_clock_counts_in_units_of_100ns() {
    assert_eq!(performance_time_100ns(3_000_000, 3_000_000).unwrap(), 10_000_000);
    assert_eq!(performance_time_100ns(7, 3).unwrap(), 23_333_333);
    assert!(matches!(performance_time_100ns(-1, 3), Err(CaptureError::ClockUnavailable)));
    assert!(matches!(performance_time_100ns(1, 0), Err(CaptureError::ClockUnavailable)));
    assert!(matches!(performance_time_100ns(i64::MAX, 1), Err(CaptureError::ClockOverflow)));
}

#[test]
fn a_monitor_that_is_not_shared_any_more_is_not_captured() {
    let mut engine = cached_remote_engine(MISSING);
    engine.source = CaptureSource::LocalMonitor(local_target());
    engine.flags.observed_sequence = 0;
    for (confirmed, expected) in [
        (Ok(false), "Teamsの共有対象が変わったため、誤撮影を防ぐために停止しました"),
        (Err(reported("enumeration failed")), "enumeration failed"),
    ] {
        let (mut attempt, action) = CopyAttempt::begin(&mut engine.flags, None, None, START);
        assert!(matches!(action, CopyAction::Inspect));
        let source = engine.source;
        let flags = &mut engine.flags;
        let state = &mut engine.state;
        let action =
            attempt.advance(&source, flags, state, CopyEvent::Inspected(MISSING, false), START);
        assert!(matches!(action, CopyAction::ReadClock));
        let action = attempt.advance(&source, flags, state, CopyEvent::Clock(Ok(5)), START);
        assert!(matches!(action, CopyAction::ConfirmMonitor(target) if target == local_target()));
        let event = CopyEvent::MonitorConfirmed(confirmed);
        match attempt.advance(&source, flags, state, event, START) {
            CopyAction::Done(Err(error)) => assert_eq!(error.message(), expected),
            _ => panic!("the attempt has to end"),
        }
    }
}

#[test]
fn an_ended_frame_source_asks_for_a_new_session() {
    let mut engine = cached_remote_engine(PRESENT);
    let (mut attempt, _) = CopyAttempt::begin(&mut engine.flags, None, None, START);
    let source = engine.source;
    let event = CopyEvent::Inspected(PRESENT, true);
    match attempt.advance(&source, &mut engine.flags, &mut engine.state, event, START) {
        CopyAction::Done(Err(error)) => {
            assert_eq!(error.message(), "キャプチャセッションが終了しています");
            assert!(error.is_frame_unavailable());
        }
        _ => panic!("the attempt has to end"),
    }
}

#[test]
fn output_is_refused_in_the_order_of_its_checks() {
    let mut engine = cached_remote_engine(PRESENT);
    let layout = unit_layout();
    engine.latest().remote_layout = Some(layout);
    engine.latest().rendered_at_100ns = 11;
    let request = ArmedRequest { baseline_sequence: 0, requested_at_100ns: 10 };
    let source = engine.source;
    let cached = engine.state.latest.as_ref().unwrap();
    assert!(validate_output(&source, cached, request, Some(layout), Ok(()), Ok(layout)).is_ok());
    assert!(matches!(
        validate_output(
            &source,
            cached,
            request,
            Some(layout),
            Err(CaptureError::Revoked),
            Ok(layout)
        ),
        Err(CaptureError::Revoked)
    ));
    let late = ArmedRequest { requested_at_100ns: 11, ..request };
    assert!(matches!(
        validate_output(&source, cached, late, Some(layout), Ok(()), Ok(layout)),
        Err(CaptureError::FrameTooOld)
    ));
    let moved = RemoteLayout { revision: 9, ..layout };
    assert!(matches!(
        validate_output(&source, cached, request, Some(moved), Ok(()), Ok(layout)),
        Err(CaptureError::LayoutMismatch)
    ));
    assert!(matches!(
        validate_output(&source, cached, request, Some(moved), Ok(()), Ok(moved)),
        Err(CaptureError::LayoutMismatch)
    ));
    let local = CaptureSource::LocalMonitor(local_target());
    assert!(
        validate_output(&local, cached, request, None, Ok(()), Err(CaptureError::ResolverMissing))
            .is_ok()
    );
}

fn crop(rect: PixelRect, size: FrameSize, sequence: u64) -> Crop {
    Crop {
        size,
        content_rect: rect,
        captured_at: START,
        fallback_screen_rect: unit_rect(),
        sequence,
        remote_layout: None,
        rendered_at_100ns: 5,
    }
}

#[test]
fn padded_rows_are_packed() {
    let mut flags = SessionFlags::new();
    let mut state = RuntimeState::new(None);
    let size = FrameSize { width: 4, height: 4 };
    let crop = crop(PixelRect::new(1, 1, 2, 3), size, 3);
    let mut raw = Vec::new();
    for row in 0..3_u8 {
        for byte in 0..8_u8 {
            raw.push(row * 16 + byte);
        }
        if row < 2 {
            raw.extend([200, 201, 202]);
        }
    }
    flags.capture_requested = true;
    state.requested_after_sequence = 2;
    state.last_error = Some("old".to_string());
    cache_crop(&mut flags, &mut state, &crop, &raw, 11).unwrap();
    let frame = state.latest.as_ref().unwrap();
    let expected: Vec<u8> = (0..3_u8).flat_map(|row| (0..8).map(move |b| row * 16 + b)).collect();
    assert_eq!(frame.bytes, expected);
    assert_eq!((frame.width, frame.height, frame.sequence), (2, 3, 3));
    assert!(flags.has_cached_frame);
    assert!(!flags.capture_requested);
    assert!(state.last_error.is_none());

    // A crop that was under way when the request was armed does not answer it.
    flags.capture_requested = true;
    state.requested_after_sequence = 3;
    cache_crop(&mut flags, &mut state, &crop, &expected, 8).unwrap();
    assert!(flags.capture_requested);
    assert_eq!(state.latest.as_ref().unwrap().bytes, expected);

    raw.pop();
    let before = state.latest.as_ref().unwrap().bytes.clone();
    assert!(matches!(
        cache_crop(&mut flags, &mut state, &crop, &raw, 11),
        Err(CaptureError::FrameBufferSize)
    ));
    assert_eq!(state.latest.as_ref().unwrap().bytes, before);
    let outside = Crop { content_rect: PixelRect::new(3, 1, 2, 3), ..crop };
    assert!(matches!(
        cache_crop(&mut flags, &mut state, &outside, &raw, 11),
        Err(CaptureError::LayoutChanged)
    ));
}

#[test]
fn frames_are_cached_in_advance_from_time_to_time() {
    let source = CaptureSource::RemoteTeamsWindow(7);
    let mut handler = FrameHandler::new();
    let mut flags = SessionFlags::new();
    let mut state = RuntimeState::new(None);
    let size = FrameSize { width: 4, height: 4 };
    let mut now = START;
    let step = handler.on_frame_arrived(&source, &mut flags, &mut state, size, now);
    assert_eq!(step, FrameStep::CacheContent(7, 1));
    let news = handler.frame_done(
        &source,
        &mut flags,
        &mut state,
        Err(CaptureError::ContentNotFound),
        size,
        1,
        now,
    );
    assert!(news);
    assert_eq!(
        state.last_error.as_deref(),
        Some("Teamsの共有コンテンツ要素を確認できませんでした")
    );
    assert_eq!(state.last_error_sequence, 1);
    now += MS;
    let step = handler.on_frame_arrived(&source, &mut flags, &mut state, size, now);
    assert_eq!(step, FrameStep::Ignore);
    flags.capture_requested = true;
    let step = handler.on_frame_arrived(&source, &mut flags, &mut state, size, now);
    assert_eq!(step, FrameStep::CacheContent(7, 3));
    let repeated = handler.frame_done(
        &source,
        &mut flags,
        &mut state,
        Err(CaptureError::ContentNotFound),
        size,
        3,
        now,
    );
    assert!(!repeated);
    flags.capture_requested = false;
    handler.frame_done(&source, &mut flags, &mut state, Ok(()), size, 3, now);
    assert_eq!(handler.last_cache_update, Some(now));
    now += BACKUP_CACHE_INTERVAL;
    flags.preflight_in_progress = true;
    let step = handler.on_frame_arrived(&source, &mut flags, &mut state, size, now);
    assert_eq!(step, FrameStep::Ignore);
    flags.preflight_in_progress = false;
    let step = handler.on_frame_arrived(&source, &mut flags, &mut state, size, now);
    assert_eq!(step, FrameStep::CacheContent(7, 5));
    flags.stop();
    let step = handler.on_frame_arrived(&source, &mut flags, &mut state, size, now);
    assert_eq!(step, FrameStep::Ignore);
    assert_eq!(flags.observed_sequence, 5);
}

#[test]
fn a_shared_monitor_is_cached_whole() {
    let target = LocalMonitorCaptureTarget {
        monitor_handle: 3,
        screen_rect: ScreenRect { x: -4, y: 0, width: 4, height: 2 },
    };
    let source = CaptureSource::LocalMonitor(target);
    let mut handler = FrameHandler::new();
    let mut flags = SessionFlags::new();
    let mut state = RuntimeState::new(None);
    let size = FrameSize { width: 4, height: 2 };
    let step = handler.on_frame_arrived(&source, &mut flags, &mut state, size, START);
    assert_eq!(step, FrameStep::CacheMonitor(target, 1));
    assert_eq!(monitor_crop(target, size, Ok(true)).unwrap(), PixelRect::new(0, 0, 4, 2));
    assert!(matches!(
        monitor_crop(target, size, Ok(false)),
        Err(CaptureError::MonitorUnconfirmed)
    ));
    assert!(matches!(
        monitor_crop(target, FrameSize { width: 3, height: 2 }, Ok(true)),
        Err(CaptureError::MonitorSizeChanged)
    ));
    assert!(matches!(
        monitor_crop(target, size, Err(CaptureError::Stopped)),
        Err(CaptureError::Stopped)
    ));
    handler.frame_done(&source, &mut flags, &mut state, Ok(()), size, 1, START);
    assert_eq!(handler.last_source_size, Some(size));
}

#[test]
fn a_closed_window_fails_whoever_waits() {
    let mut engine = cached_remote_engine(PRESENT);
    let (result, _) = engine.copy_with_recovery_armed(
        &mut |_, _, _| panic!("a closed window has no frame"),
        |_| panic!("a closed window is not restarted"),
        &mut |_| Ok(()),
        &mut |engine, _| on_closed(&mut engine.flags, &mut engine.state),
    );
    assert_eq!(result.unwrap_err().message(), "選択中のTeamsウィンドウが閉じられました");
    assert!(!engine.is_ready());
}

#[test]
fn content_is_placed_on_the_screen() {
    let layout = RemoteLayout {
        geometry: WindowGeometry::from_screen_rect(
            ScreenRect { x: -100, y: 50, width: 200, height: 100 },
            400,
            200,
        ),
        content_rect: PixelRect::new(40, 20, 100, 60),
        revision: 1,
    };
    assert_eq!(
        content_screen_rect(layout).unwrap(),
        ScreenRect { x: -80, y: 60, width: 50, height: 30 }
    );
    let outside = RemoteLayout { content_rect: PixelRect::new(400, 0, 1, 1), ..layout };
    assert!(matches!(content_screen_rect(outside), Err(CaptureError::ScreenCoordinates)));
}

fn failed_remote_engine(last_observed_at: u64) -> Engine {
    let mut engine = cached_remote_engine(MISSING);
    engine.state.latest = None;
    engine.state.content_rect = None;
    engine.state.last_error = Some("authoritative UIA timed out".to_string());
    engine.state.last_error_sequence = 1;
    engine.state.last_observed_at = Some(last_observed_at);
    engine.flags.has_cached_frame = false;
    engine
}

impl Engine {
    fn retire(&mut self, now: u64, pending_stops: usize) -> bool {
        retire_stalled_remote(&self.source, &mut self.flags, &self.state, now, pending_stops)
    }
}

#[test]
fn lost_cache_and_silent_stream_are_retired_at_the_stall_boundary() {
    let last = START;
    let mut engine = failed_remote_engine(last);
    assert!(!engine.retire(last + RESIDENT_STALL_TIMEOUT - MS, 0));
    assert!(!engine.is_finished());
    assert!(engine.retire(last + RESIDENT_STALL_TIMEOUT, 0));
    assert!(engine.is_finished());
    assert!(!engine.is_ready());
    let (result, replaced) = run_request(
        &mut engine,
        Ok(()),
        &mut |_| Ok(unit_layout()),
        &mut |_| {},
        &mut |_| panic!("a retired session writes nothing"),
    );
    assert!(result.is_err());
    assert!(!replaced);
}

fn resident(engine: Engine) -> Option<ResidentSession> {
    Some(ResidentSession {
        source: engine.source,
        flags: engine.flags,
        state: engine.state,
        source_ended: Some(false),
    })
}

#[test]
fn a_twenty_seven_minute_stall_does_not_need_a_click_to_be_detected() {
    let now = START;
    let mut engine = failed_remote_engine(now - 27 * 60 * SECOND);
    assert!(engine.retire(now, 0));
    let mut session = resident(engine);
    assert!(resident_retry_required(&mut session, false, now, 0));
}

#[test]
fn a_resident_session_is_started_where_there_is_none() {
    assert!(resident_retry_required(&mut None, false, START, 0));
    let mut healthy = resident(cached_remote_engine(PRESENT));
    assert!(!resident_retry_required(&mut healthy, false, START, 0));
    let mut stalled = resident(failed_remote_engine(START - 60 * SECOND));
    assert!(!resident_retry_required(&mut stalled, true, START, 0));
    assert!(resident_retry_required(&mut stalled, false, START, 0));
    assert!(stalled.unwrap().flags.stopped);
    let mut ended = resident(cached_remote_engine(PRESENT));
    ended.as_mut().unwrap().source_ended = Some(true);
    assert!(resident_retry_required(&mut ended, false, START, 0));
}

#[test]
fn repeated_uia_failures_with_frame_arrivals_do_not_restart_wgc() {
    let start = START;
    let mut engine = failed_remote_engine(start);
    for second in 1..=60 {
        let now = start + second * SECOND;
        let size = FrameSize { width: 1, height: 1 };
        observe_frame(&mut engine.flags, &mut engine.state, size, now);
        assert!(!engine.retire(now, 0));
    }
    assert!(!engine.is_finished());
    assert!(!engine.is_ready());
}

#[test]
fn an_arrival_after_the_stall_cancels_retirement_even_before_uia_recovers() {
    let now = START;
    let mut engine = failed_remote_engine(now - 60 * SECOND);
    let size = FrameSize { width: 1, height: 1 };
    observe_frame(&mut engine.flags, &mut engine.state, size, now);
    assert!(!engine.retire(now, 0));
    assert!(!engine.is_finished());
}

#[test]
fn a_healthy_static_cached_frame_is_not_a_stalled_session() {
    let now = START;
    let mut engine = cached_remote_engine(MISSING);
    engine.state.last_observed_at = Some(now - 60 * 60 * SECOND);
    assert!(!engine.retire(now, 0));
    assert!(engine.is_ready());
}

#[test]
fn active_requests_and_preflight_are_not_interrupted() {
    let now = START;
    let mut engine = failed_remote_engine(now - 60 * SECOND);
    engine.flags.preflight_in_progress = true;
    assert!(!engine.retire(now, 0));
    engine.flags.preflight_in_progress = false;
    engine.flags.capture_requested = true;
    assert!(!engine.retire(now, 0));
    engine.flags.capture_requested = false;
    assert!(engine.retire(now, 0));
}

#[test]
fn a_busy_state_lock_is_skipped_instead_of_blocking_the_resident_tick() {
    let now = START;
    let mut session = resident(failed_remote_engine(now - 60 * SECOND));
    assert!(!resident_retry_required(&mut session, true, now, 0));
    assert!(!session.as_ref().unwrap().flags.stopped);
    assert!(resident_retry_required(&mut session, false, now, 0));
}

#[test]
fn pending_native_cleanup_prevents_an_automatic_restart_loop() {
    let now = START;
    let mut engine = failed_remote_engine(now - 60 * SECOND);
    assert!(!engine.retire(now, 1));
    assert!(!engine.is_finished());
    assert!(engine.retire(now, 0));
}

#[test]
fn no_recorded_failure_or_no_observation_is_not_stall_evidence() {
    let now = START;
    let mut engine = failed_remote_engine(now - 60 * SECOND);
    engine.state.last_error = None;
    assert!(!engine.retire(now, 0));
    engine.state.last_error = Some("UIA unavailable".to_string());
    engine.state.last_observed_at = None;
    assert!(!engine.retire(now, 0));
}

#[test]
fn remote_stall_policy_does_not_change_local_monitor_recovery() {
    let now = START;
    let mut engine = failed_remote_engine(now - 60 * SECOND);
    engine.source = CaptureSource::LocalMonitor(local_target());
    assert!(!engine.retire(now, 0));
    assert!(!engine.is_finished());
}

#[test]
fn an_attempt_stays_with_the_frame_that_it_has_found() {
    let mut engine = cached_remote_engine(PRESENT);
    engine.latest().sequence = 5;
    engine.flags.observed_sequence = 5;
    let request = ArmedRequest { baseline_sequence: 4, requested_at_100ns: 0 };
    let frame = FreshFrame { sequence: 5, request };
    let (mut attempt, _) = CopyAttempt::begin(&mut engine.flags, Some(request), None, START);
    let source = engine.source;
    let mut advance = |event| {
        let action =
            attempt.advance(&source, &mut engine.flags, &mut engine.state, event, START);
        (attempt.phase, action)
    };
    let (phase, action) = advance(CopyEvent::Inspected(PRESENT, false));
    assert_eq!(phase, CopyPhase::Validating(frame));
    assert!(matches!(action, CopyAction::Validate));
    let (phase, action) = advance(CopyEvent::Validated(Ok(())));
    assert_eq!(phase, CopyPhase::Rechecking(frame));
    assert!(matches!(action, CopyAction::Inspect));
    let (phase, action) = advance(CopyEvent::Inspected(PRESENT, false));
    assert_eq!(phase, CopyPhase::Writing(frame));
    assert!(matches!(action, CopyAction::Write));
}
