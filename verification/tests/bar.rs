use snapbar::bar::controller::{
    BarError, CaptureStart, EngineState, OverlayState, Snapbar,
};
use snapbar::bar::feedback::{CaptureState, COPY_FEEDBACK_DURATION};
use snapbar::bar::hover::{ControlHint, ControlHover, ExpandedControl};
use snapbar::bar::page::{IslandPage, QuitAction};
use snapbar::bar::palette::{
    capture_background, capture_icon_color, idle_camera_color, mix_rgb, TitlebarPalette,
};
use snapbar::bar::requests::CaptureRequests;
use snapbar::bar::view::view;
use snapbar::geometry::ScreenRect;
use snapbar::meeting::monitor::MeetingSnapshot;
use snapbar::single::{from_int, ratio};
use snapbar::source::{CaptureSource, CaptureTarget, LocalMonitorCaptureTarget};

const NOW: u64 = 50_000_000_000;

#[test]
fn busy_capture_coalesces_click_and_hotkey_bursts_into_one_followup() {
    let mut requests = CaptureRequests::default();
    assert!(!requests.queue_if_active());
    requests.start(1);
    for _ in 0..40 {
        assert!(requests.queue_if_active());
    }
    assert!(requests.finish(1));
    requests.start(2);
    assert!(!requests.finish(2));
    assert!(requests.active.is_none());
    assert!(!requests.pending);
}

#[test]
fn retargeting_discards_old_intent_but_keeps_running_work_serialized() {
    let mut requests = CaptureRequests::default();
    requests.start(1);
    assert!(requests.queue_if_active());
    requests.clear_pending();
    assert_eq!(requests.active, Some(1));
    assert!(!requests.finish(1));

    requests.start(2);
    requests.clear_pending();
    // A deliberate click after retargeting is retained until old work ends.
    assert!(requests.queue_if_active());
    assert!(!requests.finish(1));
    assert_eq!(requests.active, Some(2));
    assert!(requests.finish(2));
}

#[test]
fn copy_feedback_stays_visible_while_a_safety_zone_keeps_the_hint() {
    let now = NOW;
    let mut hover = ControlHover::default();
    hover.update(ExpandedControl::Save, true);
    hover.update(ExpandedControl::Save, false);
    let copied = CaptureState::Copied { until: now + COPY_FEEDBACK_DURATION };

    assert_eq!(copied.icon_path(), "icons/check.svg");
    assert_eq!(
        hover.display_hint(copied, true),
        Some(ExpandedControl::Save.hover_hint(true))
    );
    let ready = copied.after_feedback_timeout(now + COPY_FEEDBACK_DURATION);
    assert_eq!(ready.icon_path(), "icons/camera.svg");
    assert_eq!(hover.display_hint(ready, true), hover.display_hint(copied, true));
}

#[test]
fn another_capture_gets_its_full_feedback_duration() {
    let now = NOW;
    let first = CaptureState::Copied { until: now + COPY_FEEDBACK_DURATION };
    let second = CaptureState::Copied { until: now + COPY_FEEDBACK_DURATION * 2 };

    assert_eq!(
        first.after_feedback_timeout(now + COPY_FEEDBACK_DURATION),
        CaptureState::Idle
    );
    assert_eq!(second.after_feedback_timeout(now + COPY_FEEDBACK_DURATION), second);
    assert_eq!(
        second.after_feedback_timeout(now + COPY_FEEDBACK_DURATION * 2),
        CaptureState::Idle
    );
    for next in [
        CaptureState::Capturing,
        CaptureState::Error,
        CaptureState::WaitingForShare,
        CaptureState::NoTarget,
    ] {
        assert_eq!(next.after_feedback_timeout(now + COPY_FEEDBACK_DURATION * 3), next);
    }
}

#[test]
fn save_errors_override_success_and_hints_without_losing_the_safety_zone() {
    let copied = CaptureState::Copied { until: NOW + COPY_FEEDBACK_DURATION };
    let mut hover = ControlHover::default();
    hover.update(ExpandedControl::Save, true);
    hover.update(ExpandedControl::Save, false);
    let warning = copied.with_error(true);

    assert_eq!(warning.icon_path(), "icons/alert.svg");
    assert_eq!(hover.display_hint(warning, true), None);
    assert_eq!(
        hover.display_hint(copied.with_error(false), true),
        Some(ExpandedControl::Save.hover_hint(true))
    );
}

fn relative_luminance(color: u32) -> f32 {
    let linear_channel = |shift: u32| {
        let value = ((color >> shift) & 0xff_u32) as f32 / 255.0;
        if value <= 0.04045 {
            value / 12.92
        } else {
            ((value + 0.055) / 1.055).powf(2.4)
        }
    };
    0.2126 * linear_channel(16) + 0.7152 * linear_channel(8) + 0.0722 * linear_channel(0)
}

fn contrast_ratio(left: u32, right: u32) -> f32 {
    let lighter = relative_luminance(left).max(relative_luminance(right));
    let darker = relative_luminance(left).min(relative_luminance(right));
    (lighter + 0.05) / (darker + 0.05)
}

fn palette(surface: u32) -> TitlebarPalette {
    TitlebarPalette::for_surface(surface, relative_luminance(surface) >= 0.5)
}

#[test]
fn feedback_icons_have_contrast_in_both_caption_themes() {
    let copied = CaptureState::Copied { until: NOW + COPY_FEEDBACK_DURATION };
    for surface in [0x111111, 0xf3f3f3] {
        let palette = palette(surface);
        for state in [copied, CaptureState::Error] {
            let color = capture_icon_color(state, palette, true, from_int(0));
            assert!(contrast_ratio(color, surface) >= 3.0);
        }
        let color = capture_icon_color(copied, palette, true, from_int(1));
        assert!(contrast_ratio(color, 0x277a46) >= 4.5);
    }
}

#[test]
fn gaps_keep_the_hint_without_extending_the_save_hover() {
    let mut hover = ControlHover::default();
    hover.update(ExpandedControl::Save, true);
    hover.update(ExpandedControl::Save, false);
    assert_eq!(hover.hint, Some(ExpandedControl::Save));
    assert_eq!(hover.current, None);
    assert_eq!(hover.pending_hint(), None);
    assert!(!IslandPage::Controls.allows_save_info(hover.current, true, false, false));

    hover.update(ExpandedControl::Capture, true);
    assert_eq!(hover.hint, Some(ExpandedControl::Save));
    assert!(!IslandPage::Controls.allows_save_info(hover.current, true, false, false));
    assert!(hover.settle_hint(ExpandedControl::Capture));
    assert_eq!(hover.hint, Some(ExpandedControl::Capture));
}

#[test]
fn crossing_buttons_does_not_publish_transient_explanations() {
    let mut hover = ControlHover::default();
    hover.update(ExpandedControl::Capture, true);
    hover.update(ExpandedControl::Capture, false);
    for control in [ExpandedControl::Save, ExpandedControl::Refresh] {
        hover.update(control, true);
        hover.update(control, false);
        assert!(!hover.settle_hint(control));
        assert_eq!(hover.hint, Some(ExpandedControl::Capture));
    }
    hover.update(ExpandedControl::Quit, true);
    assert!(!hover.settle_hint(ExpandedControl::Refresh));
    assert_eq!(hover.hint, Some(ExpandedControl::Capture));
    assert!(hover.settle_hint(ExpandedControl::Quit));
    assert_eq!(hover.hint, Some(ExpandedControl::Quit));
}

#[test]
fn late_leave_and_duplicate_enter_do_not_cancel_the_new_hint() {
    let mut hover = ControlHover::default();
    hover.update(ExpandedControl::Save, true);
    hover.update(ExpandedControl::Refresh, true);
    assert!(!hover.update(ExpandedControl::Save, false));
    assert!(!hover.update(ExpandedControl::Refresh, true));
    assert_eq!(hover.current, Some(ExpandedControl::Refresh));
    assert!(hover.settle_hint(ExpandedControl::Refresh));

    hover.update(ExpandedControl::Quit, true);
    hover = ControlHover::default();
    assert!(!hover.settle_hint(ExpandedControl::Quit));
    assert_eq!(hover.hint, None);
}

#[test]
fn delayed_save_help_requires_the_same_visible_control_at_the_deadline() {
    let controls = IslandPage::Controls;
    assert!(controls.allows_save_info(Some(ExpandedControl::Save), true, false, false));
    for hovered in [
        None,
        Some(ExpandedControl::Capture),
        Some(ExpandedControl::Quit),
    ] {
        assert!(!controls.allows_save_info(hovered, true, false, false));
    }
    for (expanded, compact, quitting) in [
        (false, false, false),
        (true, true, false),
        (true, false, true),
    ] {
        assert!(!controls.allows_save_info(
            Some(ExpandedControl::Save),
            expanded,
            compact,
            quitting,
        ));
    }
    for page in [IslandPage::SaveInfo, IslandPage::ConfirmQuit] {
        assert!(!page.allows_save_info(Some(ExpandedControl::Save), true, false, false));
    }
}

#[test]
fn save_help_cannot_confirm_an_exit_and_dismisses_to_controls() {
    let mut page = IslandPage::SaveInfo;
    assert!(!page.handle_quit(QuitAction::Confirm));
    assert_eq!(page, IslandPage::Controls);
    page = IslandPage::SaveInfo;
    assert!(!page.handle_quit(QuitAction::Cancel));
    assert_eq!(page, IslandPage::Controls);
}

#[test]
fn requesting_quit_never_exits_until_the_confirmation_action() {
    let mut page = IslandPage::default();
    assert!(!page.handle_quit(QuitAction::Confirm));
    assert!(!page.handle_quit(QuitAction::Request));
    assert_eq!(page, IslandPage::ConfirmQuit);
    assert!(!page.handle_quit(QuitAction::Request));
    assert!(page.handle_quit(QuitAction::Confirm));
    assert_eq!(page, IslandPage::Controls);
    assert!(!page.handle_quit(QuitAction::Confirm));
}

#[test]
fn cancel_or_disclosure_dismissal_invalidates_a_pending_quit() {
    let mut page = IslandPage::default();
    for _ in 0..3 {
        assert!(!page.handle_quit(QuitAction::Request));
        assert!(!page.handle_quit(QuitAction::Cancel));
        assert_eq!(page, IslandPage::Controls);
        assert!(!page.handle_quit(QuitAction::Confirm));
    }
}

#[test]
fn titlebar_palette_preserves_the_sampled_surface() {
    for surface in [0x111111, 0xf3f3f3] {
        assert_eq!(palette(surface).surface, surface);
    }
}

#[test]
fn expanded_control_hints_separate_actions_from_their_details() {
    assert_eq!(
        ExpandedControl::Capture.hover_hint(false),
        ControlHint { label: "撮影", detail: "Ctrl+Alt+S", is_shortcut: true }
    );
    assert_eq!(
        ExpandedControl::Save.hover_hint(false),
        ControlHint { label: "PNG保存", detail: "OFF", is_shortcut: false }
    );
    assert_eq!(ExpandedControl::Save.hover_hint(true).detail, "ON");
    assert_eq!(
        ExpandedControl::Refresh.hover_hint(false),
        ControlHint { label: "再検出", detail: "会議・共有", is_shortcut: false }
    );
    assert_eq!(
        ExpandedControl::Quit.hover_hint(false),
        ControlHint { label: "終了", detail: "Snapbar", is_shortcut: false }
    );
}

#[test]
fn idle_camera_stays_neutral_until_hover_disclosure() {
    for surface in [0x111111, 0xf3f3f3] {
        let palette = palette(surface);
        assert_eq!(idle_camera_color(palette, true), palette.primary_text);
        assert_eq!(idle_camera_color(palette, false), palette.secondary_text);
        assert_ne!(idle_camera_color(palette, true), 0xe5484d);
    }
}

#[test]
fn titlebar_palette_inverts_text_and_controls_for_light_and_dark() {
    let dark = palette(0x111111);
    let light = palette(0xf3f3f3);
    assert!(!dark.is_light);
    assert!(light.is_light);
    assert!(relative_luminance(dark.primary_text) > relative_luminance(dark.surface));
    assert!(relative_luminance(light.primary_text) < relative_luminance(light.surface));
    assert!(relative_luminance(dark.control_hover) > relative_luminance(dark.surface));
    assert!(relative_luminance(light.control_hover) < relative_luminance(light.surface));
}

#[test]
fn titlebar_text_contrast_remains_accessible_in_both_themes() {
    for surface in [0x111111, 0x242424, 0xeeeeee, 0xf5f5f5] {
        let palette = palette(surface);
        assert!(contrast_ratio(palette.primary_text, palette.surface) >= 4.5);
        assert!(contrast_ratio(palette.secondary_text, palette.surface) >= 4.5);
    }
}

#[test]
fn colours_are_mixed_as_in_single_precision() {
    for percent in [12_u32, 14, 16, 22, 24, 32, 55] {
        let amount = percent as f32 / 100.0;
        for base in 0..256_u32 {
            for target in 0..256_u32 {
                let mixed = base as f32 + (target as f32 - base as f32) * amount;
                let expected = mixed.round() as u32;
                assert_eq!(
                    mix_rgb(base * 0x10101, target * 0x10101, ratio(u64::from(percent), 100)),
                    expected * 0x10101
                );
            }
        }
    }
    assert_eq!(mix_rgb(0x102030, 0xffffff, ratio(16, 100)), 0x364451);
    assert_eq!(mix_rgb(0x102030, 0xff80c0, from_int(0)), 0x102030);
    assert_eq!(mix_rgb(0x102030, 0xff80c0, from_int(7)), 0xff80c0);
    assert_eq!(mix_rgb(0x102030, 0xff80c0, ratio(1, 2).neg()), 0x102030);
}

fn window(id: u32) -> CaptureTarget {
    CaptureTarget { id, title: "Call".to_string(), app_name: "ms-teams.exe".to_string() }
}

fn shared(id: u32, generation: u64) -> MeetingSnapshot {
    MeetingSnapshot {
        generation,
        target: Some(window(id)),
        shared_content_hint: true,
        ..MeetingSnapshot::default()
    }
}

const READY: EngineState = EngineState { ready: true, local_monitor: false };
const LOCAL: EngineState = EngineState { ready: true, local_monitor: true };

fn ready_bar() -> Snapbar {
    let mut bar = Snapbar::new(true);
    let effects = bar.apply_meeting_snapshot(shared(42, 1));
    assert_eq!(effects.restart, Some(CaptureSource::RemoteTeamsWindow(42)));
    assert!(effects.hotkey_enabled && effects.notify && !effects.retarget);
    bar.engine_started(Ok(()));
    assert_eq!(bar.capture_state, CaptureState::WaitingForShare);
    assert!(bar.sync_capture_state(true, NOW));
    assert_eq!(bar.capture_state, CaptureState::Idle);
    bar
}

#[test]
fn a_shared_window_becomes_ready() {
    let mut bar = ready_bar();
    assert!(!bar.needs_snapshot(1));
    let effects = bar.apply_meeting_snapshot(shared(42, 2));
    assert_eq!(effects.restart, None);
    assert!(!effects.notify);
    let effects = bar.apply_meeting_snapshot(shared(43, 3));
    assert_eq!(effects.restart, Some(CaptureSource::RemoteTeamsWindow(43)));
    assert!(!bar.has_engine);
    bar.engine_started(Err("no session".to_string()));
    assert_eq!(bar.capture_state, CaptureState::Error);
    assert_eq!(bar.last_error.as_ref().unwrap().message(), "no session");
    let monitor = LocalMonitorCaptureTarget {
        monitor_handle: 5,
        screen_rect: ScreenRect { x: 0, y: 0, width: 1, height: 1 },
    };
    let effects = bar.apply_meeting_snapshot(MeetingSnapshot {
        local_monitor_target: Some(monitor),
        ..shared(43, 4)
    });
    assert_eq!(effects.restart, Some(CaptureSource::LocalMonitor(monitor)));
}

#[test]
fn a_meeting_that_ends_leaves_nothing_behind() {
    let mut bar = ready_bar();
    bar.sync_overlay_state(
        Some(OverlayState { compact: false, visible: true, expanded: true }),
        false,
    );
    assert!(bar.expanded);
    bar.on_quit_clicked();
    let effects = bar.apply_meeting_snapshot(MeetingSnapshot::default());
    assert!(effects.notify && effects.retarget && !effects.hotkey_enabled);
    assert_eq!(bar.capture_state, CaptureState::NoTarget);
    assert_eq!(bar.island_page, IslandPage::Controls);
    assert!(!bar.expanded && !bar.has_engine);
    let only_toolbar = MeetingSnapshot {
        presenter_toolbar_id: Some(3),
        ..MeetingSnapshot::default()
    };
    bar.apply_meeting_snapshot(only_toolbar);
    assert_eq!(bar.capture_state, CaptureState::WaitingForShare);
}

#[test]
fn captures_run_one_after_the_other() {
    let mut bar = ready_bar();
    let generation = bar.capture_generation + 1;
    assert_eq!(
        bar.start_capture(READY, None, true),
        CaptureStart::Started {
            generation,
            save_to_screenshots: true,
            wait_for_composition: false
        }
    );
    assert_eq!(bar.capture_state, CaptureState::Capturing);
    assert_eq!(bar.start_capture(READY, None, true), CaptureStart::Ignored);
    let end = bar.capture_finished(generation, false, Ok(None), NOW);
    assert!(end.capture_again && !end.show_flash && !end.outdated);
    assert_eq!(
        bar.capture_state,
        CaptureState::Copied { until: NOW + COPY_FEEDBACK_DURATION }
    );
    assert!(matches!(bar.start_capture(READY, None, true), CaptureStart::Started { .. }));
    let generation = bar.capture_generation;
    let end = bar.capture_finished(generation, false, Ok(Some(Err("disk full".to_string()))), NOW);
    assert!(end.show_flash && !end.capture_again);
    assert_eq!(
        bar.last_error.as_ref().unwrap().message(),
        "コピー済み / ファイル保存失敗: disk full"
    );
    assert!(matches!(bar.start_capture(READY, None, true), CaptureStart::Started { .. }));
    let generation = bar.capture_generation;
    bar.capture_finished(generation, false, Err("clipboard failed".to_string()), NOW);
    assert_eq!(bar.capture_state, CaptureState::Error);
    assert_eq!(bar.last_error.as_ref().unwrap().message(), "clipboard failed");
}

#[test]
fn an_outdated_capture_changes_nothing() {
    let mut bar = ready_bar();
    bar.start_capture(READY, None, false);
    let generation = bar.capture_generation;
    bar.start_capture(READY, None, false);
    bar.apply_meeting_snapshot(MeetingSnapshot::default());
    let end = bar.capture_finished(generation, true, Ok(None), NOW);
    assert!(end.outdated && !end.show_flash && !end.capture_again);
    assert_eq!(bar.capture_state, CaptureState::NoTarget);
    assert!(!bar.has_engine);
}

#[test]
fn a_capture_needs_something_ready_and_the_bar_out_of_the_way() {
    let mut bar = Snapbar::new(false);
    assert_eq!(bar.start_capture(READY, None, false), CaptureStart::RequestScan);
    assert_eq!(bar.capture_state, CaptureState::NoTarget);
    let mut bar = ready_bar();
    let waiting = EngineState { ready: false, local_monitor: false };
    assert_eq!(bar.start_capture(waiting, None, false), CaptureStart::Refused);
    assert_eq!(
        bar.last_error.as_ref().unwrap().message(),
        "共有コンテンツを待機中です"
    );
    assert!(bar.wants_overlay_exclusion(LOCAL));
    assert!(!bar.wants_overlay_exclusion(READY));
    assert_eq!(bar.start_capture(LOCAL, Some(false), true), CaptureStart::Refused);
    assert_eq!(
        bar.last_error.as_ref().unwrap().message(),
        "Snapbarを共有画面から一時的に除外できなかったため撮影を停止しました"
    );
    assert!(matches!(
        bar.start_capture(LOCAL, Some(true), true),
        CaptureStart::Started { wait_for_composition: true, .. }
    ));
}

#[test]
fn redetection_starts_a_session_anew() {
    let mut bar = ready_bar();
    let generation = bar.capture_generation;
    assert_eq!(bar.request_redetection(), Some(CaptureSource::RemoteTeamsWindow(42)));
    assert_eq!(bar.capture_generation, generation + 1);
    assert!(!bar.has_engine);
    let mut idle = Snapbar::new(true);
    assert_eq!(idle.request_redetection(), None);
    assert_eq!(idle.capture_generation, 0);
    assert_eq!(idle.restart_capture_engine(), None);
    assert_eq!(idle.capture_generation, 1);
}

fn expanded_bar() -> Snapbar {
    let mut bar = ready_bar();
    let (changed, retarget) = bar.sync_overlay_state(
        Some(OverlayState { compact: false, visible: true, expanded: true }),
        false,
    );
    assert!(changed && retarget);
    bar
}

#[test]
fn the_page_on_saving_opens_after_a_rest() {
    let mut bar = expanded_bar();
    let effects = bar.update_hovered_control(ExpandedControl::Save, true);
    assert!(effects.notify && effects.start_dwell);
    assert_eq!(effects.start_hint, None);
    assert!(!bar.open_save_info(false));
    assert!(bar.open_save_info(true));
    assert_eq!(bar.island_page, IslandPage::SaveInfo);
    assert!(!bar.update_hovered_control(ExpandedControl::Quit, true).notify);
    assert!(bar.save_info_loaded(Ok("C:/Screenshots".to_string())));
    let shown = view(&bar, true, false, palette(0x111111));
    assert_eq!(shown.save_path.as_deref(), Some("C:/Screenshots"));
    bar.on_save_info_back();
    assert_eq!(bar.island_page, IslandPage::Controls);
    assert!(!bar.save_info_loaded(Err("late".to_string())));
}

#[test]
fn explanations_change_after_a_rest() {
    let mut bar = expanded_bar();
    bar.update_hovered_control(ExpandedControl::Capture, true);
    let effects = bar.update_hovered_control(ExpandedControl::Refresh, true);
    assert_eq!(effects.start_hint, Some(ExpandedControl::Refresh));
    assert!(!bar.settle_control_hint(ExpandedControl::Refresh, false));
    assert!(!bar.settle_control_hint(ExpandedControl::Quit, true));
    assert!(bar.settle_control_hint(ExpandedControl::Refresh, true));
    let shown = view(&bar, true, false, palette(0xf3f3f3));
    assert_eq!(shown.context_label, "再検出");
    assert_eq!(shown.refresh_background, Some(palette(0xf3f3f3).control_hover));
    assert_eq!(shown.quit_background, None);
}

#[test]
fn saving_is_switched_only_if_the_setting_is_stored() {
    let mut bar = expanded_bar();
    assert!(!bar.on_save_toggled(Ok(())));
    assert!(!bar.save_to_screenshots);
    bar.update_hovered_control(ExpandedControl::Save, true);
    assert!(bar.on_save_toggled(Err("registry".to_string())));
    assert!(!bar.save_to_screenshots);
    assert!(matches!(bar.last_error, Some(BarError::SettingNotStored(_))));
    assert_eq!(
        bar.last_error.as_ref().unwrap().message(),
        "保存設定を更新できませんでした: registry"
    );
}

#[test]
fn quitting_is_confirmed_and_final() {
    let mut bar = expanded_bar();
    assert!(!bar.on_confirm_quit());
    assert!(bar.on_quit_clicked());
    bar.on_cancel_quit();
    assert!(!bar.on_confirm_quit());
    assert!(bar.on_quit_clicked());
    assert!(bar.on_confirm_quit());
    assert!(bar.quitting && !bar.has_engine);
    assert!(!bar.begin_quit());
    assert_eq!(bar.start_capture(READY, None, false), CaptureStart::Ignored);
    assert!(!bar.on_quit_clicked());
}

#[test]
fn a_hidden_or_missing_window_collapses_the_bar() {
    let mut bar = expanded_bar();
    bar.on_quit_clicked();
    let hidden = OverlayState { compact: false, visible: false, expanded: true };
    assert_eq!(bar.sync_overlay_state(Some(hidden), false), (true, true));
    assert_eq!(bar.island_page, IslandPage::Controls);
    assert_eq!(bar.sync_overlay_state(Some(hidden), false), (false, false));
    assert_eq!(bar.sync_overlay_state(Some(hidden), true), (true, false));
    let compact = OverlayState { compact: true, visible: true, expanded: true };
    assert_eq!(bar.sync_overlay_state(Some(compact), false), (true, false));
    assert!(bar.compact_layout && !bar.expanded);
    assert_eq!(bar.sync_overlay_state(None, false), (true, false));
    assert!(!bar.compact_layout);
}

#[test]
fn the_state_follows_the_session() {
    let mut bar = ready_bar();
    assert!(bar.sync_capture_state(false, NOW));
    assert_eq!(bar.capture_state, CaptureState::WaitingForShare);
    bar.capture_state = CaptureState::Capturing;
    assert!(!bar.sync_capture_state(false, NOW));
    bar.capture_state = CaptureState::Copied { until: NOW };
    assert!(bar.sync_capture_state(true, NOW));
    assert_eq!(bar.capture_state, CaptureState::Idle);
    let mut alone = Snapbar::new(true);
    alone.capture_state = CaptureState::Error;
    assert!(alone.sync_capture_state(false, NOW));
    assert_eq!(alone.capture_state, CaptureState::NoTarget);
}

#[test]
fn the_view_shows_the_bar() {
    let mut bar = ready_bar();
    let dark = palette(0x111111);
    let shown = view(&bar, true, false, dark);
    assert!(shown.can_capture && shown.caption_morph && shown.morph_capture);
    assert_eq!(shown.context_label, "準備完了");
    assert_eq!(shown.status_color, 0x55c27c);
    assert_eq!(shown.capture_background, 0xe5484d);
    assert_eq!(shown.row_icon_color, 0xffffff);
    assert_eq!(shown.save_icon_color, dark.save_icon);
    assert_eq!(shown.save_path, None);
    let inline = view(&bar, false, true, dark);
    assert!(!inline.can_capture && !inline.caption_morph && inline.label_has_dot);
    assert_eq!(inline.row_icon_color, dark.disabled_icon);
    assert_eq!(inline.idle_icon_color, dark.secondary_text);
    bar.start_capture(EngineState { ready: false, local_monitor: false }, None, false);
    let failed = view(&bar, true, false, palette(0xf3f3f3));
    assert_eq!(failed.context_label, "要確認");
    assert_eq!(failed.capture_icon, "icons/alert.svg");
    assert_eq!(failed.status_color, 0xb4232c);
    assert_eq!(capture_background(CaptureState::Capturing, dark), 0xc83f47);
    assert_eq!(capture_background(CaptureState::NoTarget, dark), dark.disabled_control);
    assert_eq!(CaptureState::NoTarget.status_label(false), "会議待ち");
    assert_eq!(CaptureState::WaitingForShare.status_label(false), "共有待ち");
    assert_eq!(CaptureState::Capturing.status_label(false), "撮影中");
    assert_eq!(CaptureState::WaitingForShare.status_color(false, true), 0x986500);
    assert_eq!(CaptureState::Capturing.status_color(false, true), 0xc7363f);
}
