use snapbar::flash::{
    alpha_at, current_screen_rect, flash_target_is_visible, suspend_deadline, FlashFade,
    FlashRequest, FlashState, FlashTarget, FlashWork, SuspendStep, FLASH_STEPS, SUSPEND_TIMEOUT,
};
use snapbar::flash_color::FlashColorGate;
use snapbar::geometry::{Edges, PixelRect, ScreenRect};
use snapbar::numeric::{scale_ceil, scale_floor};

#[test]
fn scaling_keeps_bounds_inside_target() {
    assert_eq!(scale_floor(100, 1500, 1000), 150);
    assert_eq!(scale_ceil(101, 1500, 1000), 152);
    assert_eq!(scale_floor(2_000, 1500, 1000), 1500);
    assert_eq!(scale_ceil(u64::from(u32::MAX), u32::MAX, 1), u32::MAX);
}

#[test]
fn invalid_source_size_has_no_screen_rect() {
    let window = Some(Edges::new(0, 0, 10, 10));
    assert!(current_screen_rect(window, PixelRect::new(0, 0, 1, 1), 0, 1).is_none());
    assert!(current_screen_rect(window, PixelRect::new(0, 0, 1, 1), 1, 0).is_none());
    assert!(current_screen_rect(None, PixelRect::new(0, 0, 1, 1), 1, 1).is_none());
}

#[test]
fn content_follows_its_window() {
    let content = PixelRect::new(10, 20, 101, 50);
    assert_eq!(
        current_screen_rect(Some(Edges::new(-300, 40, -100, 140)), content, 400, 200),
        Some(ScreenRect { x: -295, y: 50, width: 51, height: 25 })
    );
    assert_eq!(
        current_screen_rect(Some(Edges::new(5, 5, 5, 9)), content, 400, 200),
        None
    );
    assert_eq!(
        current_screen_rect(Some(Edges::new(0, 0, 10, 10)), PixelRect::new(9, 9, 0, 0), 5, 5),
        None
    );
}

fn hidden() -> FlashTarget {
    FlashTarget { exists: true, visible: false, minimized: false }
}

#[test]
fn hidden_or_closed_remote_target_has_no_flash() {
    assert!(!flash_target_is_visible(Some(hidden())));
    let closed = FlashTarget { exists: false, visible: true, minimized: false };
    assert!(!flash_target_is_visible(Some(closed)));
    let minimized = FlashTarget { exists: true, visible: true, minimized: true };
    assert!(!flash_target_is_visible(Some(minimized)));
    assert!(flash_target_is_visible(None));
}

fn request(width: u32) -> FlashRequest {
    FlashRequest {
        rect: ScreenRect { x: 0, y: 0, width, height: 5 },
        target_window_id: None,
        display_affinity: 0,
    }
}

#[test]
fn a_fade_releases_its_surface_after_the_last_step() {
    assert_eq!(
        (0..FLASH_STEPS).map(alpha_at).collect::<Vec<_>>(),
        vec![210, 210, 176, 136, 94, 56, 24, 0]
    );
    let mut fade = FlashFade::new();
    let mut shown = vec![alpha_at(0)];
    while let Some(alpha) = fade.advance(true) {
        shown.push(alpha);
    }
    assert_eq!(shown, vec![210, 210, 176, 136, 94, 56, 24, 0]);
    let mut fade = FlashFade::new();
    assert_eq!(fade.advance(false), None);
}

#[test]
fn the_worker_acknowledges_a_suspension_and_drops_what_waited() {
    let mut state = FlashState::new();
    assert!(!state.show(request(0)));
    assert!(state.show(request(3)));
    assert!(state.show(request(4)));
    assert_eq!(state.work(false), FlashWork::Show(request(4)));
    assert_eq!(state.work(true), FlashWork::Animate);
    assert!(state.pauses());
    assert_eq!(state.work(false), FlashWork::Wait);
    state.show(request(5));
    assert!(!state.pauses());
    let deadline = suspend_deadline(100);
    assert_eq!(deadline, 100 + SUSPEND_TIMEOUT);
    state.suspend();
    assert_eq!(state.poll_suspension(100, deadline), SuspendStep::Wait(SUSPEND_TIMEOUT));
    assert_eq!(state.work(true), FlashWork::Suspend);
    assert_eq!(state.poll_suspension(100, deadline), SuspendStep::Suspended);
    assert!(!state.show(request(6)));
    state.resume();
    assert_eq!(state.work(false), FlashWork::Wait);
}

#[test]
fn the_worker_acknowledges_again_after_a_suspension_is_repeated() {
    let mut state = FlashState::new();
    state.suspend();
    assert_eq!(state.work(false), FlashWork::Suspend);
    assert!(state.suspend_ack);
    state.resume();
    state.suspend();
    assert!(!state.suspend_ack);
    assert_eq!(state.work(false), FlashWork::Suspend);
    assert!(state.suspend_ack);
}

#[test]
fn a_suspension_that_is_not_acknowledged_is_withdrawn() {
    let mut state = FlashState::new();
    state.suspend();
    assert_eq!(state.poll_suspension(50, 50), SuspendStep::TimedOut);
    assert!(!state.suspended);
    assert!(state.show(request(3)));
}

#[test]
fn a_complete_flash_changes_the_epoch_even_if_both_observations_are_idle() {
    let mut gate = FlashColorGate::new();
    let before = gate.idle_epoch().unwrap();
    assert!(!before.follows_flash());
    let mut flash = gate.begin();
    assert!(gate.idle_epoch().is_none());
    flash.mark_removed();
    // Removal is published when the native owner lets the flash end.
    assert!(gate.idle_epoch().is_none());
    gate.end(flash);
    let after = gate.idle_epoch().unwrap();
    assert_ne!(before, after);
    assert!(after.follows_flash());
}

#[test]
fn overlapping_owners_keep_reads_blocked_until_both_are_removed() {
    let mut gate = FlashColorGate::new();
    let mut first = gate.begin();
    let mut second = gate.begin();
    first.mark_removed();
    gate.end(first);
    assert!(gate.idle_epoch().is_none());
    second.mark_removed();
    gate.end(second);
    assert!(gate.idle_epoch().is_some());
}

#[test]
fn failed_native_cleanup_cannot_be_erased_by_a_later_successful_flash() {
    let mut gate = FlashColorGate::new();
    let flash = gate.begin();
    gate.end(flash);
    assert!(gate.idle_epoch().is_none());
    let mut next = gate.begin();
    next.mark_removed();
    gate.end(next);
    assert!(gate.idle_epoch().is_none());
}

#[test]
fn a_busy_gate_is_skipped_without_waiting_for_the_writer() {
    let gate = FlashColorGate::new();
    assert!(FlashColorGate::idle_epoch_of(None).is_none());
    assert!(FlashColorGate::idle_epoch_of(Some(&gate)).is_some());
}

#[test]
fn epoch_exhaustion_fails_closed_instead_of_reusing_an_old_token() {
    let mut gate = FlashColorGate::new();
    gate.epoch = u64::MAX;
    let mut flash = gate.begin();
    flash.mark_removed();
    gate.end(flash);
    assert!(gate.idle_epoch().is_none());
}
