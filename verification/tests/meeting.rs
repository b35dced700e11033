use snapbar::accessibility::ControlType;
use snapbar::meeting::debounce::{
    DebouncedMeetingState, MeetingEvidence, ENTRY_FALLBACK_STABLE_FOR, ENTRY_STABLE_FOR,
    REQUIRED_ENTRY_SCANS,
};
use snapbar::meeting::events::{
    win_event_is_window_geometry_follow, win_event_requires_scan,
    win_event_requires_scan_after_follow, EVENT_OBJECT_CREATE, EVENT_OBJECT_DESTROY,
    EVENT_OBJECT_FOCUS, EVENT_OBJECT_HIDE, EVENT_OBJECT_LOCATIONCHANGE, EVENT_OBJECT_REORDER,
    EVENT_OBJECT_SHOW, EVENT_OBJECT_STATECHANGE, EVENT_SYSTEM_FOREGROUND,
    EVENT_SYSTEM_MINIMIZEEND, EVENT_SYSTEM_MINIMIZESTART, EVENT_SYSTEM_MOVESIZEEND,
    EVENT_SYSTEM_MOVESIZESTART,
};
use snapbar::meeting::monitor::{
    scan_wake_deadline, GateStep, MeetingSnapshot, MonitorState, ScanGate, MIN_SCAN_INTERVAL,
    WATCHDOG_INTERVAL,
};
use snapbar::meeting::names::{
    is_call_control, is_leave_control, is_shared_content_name, is_teams_lowercase,
    is_teams_window, normalize_name, presenter_element_confirms_local_share, ChildClassEvidence,
};
use snapbar::meeting::scan::{
    inspect_presenter_toolbar, scan_meeting_uia, scan_meeting_windows, warmup_point,
    InspectedWindow, MeetingElement, MeetingUiaEvidence, WindowKind, WindowSight,
};
use snapbar::meeting::toolbar::{
    presenter_toolbar_score, PresenterToolbarEvidence, PresenterToolbarState,
    WDA_EXCLUDEFROMCAPTURE,
};
use snapbar::source::{CaptureTarget, LocalMonitorCaptureTarget};
use snapbar::geometry::{ScreenPoint, ScreenRect};

const MS: u64 = 1_000_000;
const STARTED: u64 = 10_000 * MS;

fn evidence(id: u32, leave: bool, call: bool, video: bool, shared: bool) -> MeetingEvidence {
    MeetingEvidence {
        target: CaptureTarget {
            id,
            title: "Meeting | Microsoft Teams".to_string(),
            app_name: "ms-teams.exe".to_string(),
        },
        minimized: false,
        visible: true,
        focused: true,
        has_webview: true,
        has_video: video,
        has_leave_control: leave,
        has_call_control: call,
        has_shared_content: shared,
        score: 300,
    }
}

fn toolbar_evidence(id: u32) -> PresenterToolbarEvidence {
    PresenterToolbarEvidence { id, score: 190, local_share_active: true }
}

#[test]
fn a_populated_nonmeeting_tree_does_not_need_a_second_scan_or_prove_a_meeting() {
    let calendar = MeetingUiaEvidence { provider_has_controls: true, ..Default::default() };
    assert!(!calendar.has_signal());
    assert!(!calendar.needs_provider_warmup());
}

#[test]
fn an_empty_provider_still_gets_the_warmup_retry() {
    assert!(MeetingUiaEvidence::default().needs_provider_warmup());
    assert!(
        !MeetingUiaEvidence { has_shared_content: true, ..Default::default() }
            .needs_provider_warmup()
    );
}

#[test]
fn elements_without_names_and_ids_cannot_contribute_detection_evidence() {
    assert!(!is_shared_content_name(""));
    for control_type in [
        None,
        Some(ControlType::Button),
        Some(ControlType::SplitButton),
        Some(ControlType::MenuItem),
        Some(ControlType::Text),
        Some(ControlType::Pane),
    ] {
        assert!(!is_leave_control("", control_type));
        assert!(!is_call_control("", control_type));
        assert!(!presenter_element_confirms_local_share("", "", control_type));
    }
}

#[test]
fn client_animation_and_caret_events_do_not_trigger_meeting_scans() {
    for object_id in [-4, -8] {
        assert!(!win_event_requires_scan(EVENT_OBJECT_LOCATIONCHANGE, object_id, 0));
        assert!(!win_event_requires_scan(EVENT_OBJECT_SHOW, object_id, 0));
    }
    assert!(!win_event_requires_scan(EVENT_OBJECT_FOCUS, 0, 0));
    assert!(!win_event_requires_scan(EVENT_OBJECT_LOCATIONCHANGE, 0, 1));
}

#[test]
fn native_window_lifecycle_and_geometry_still_wake_meeting_detection() {
    for event in [
        EVENT_OBJECT_CREATE,
        EVENT_OBJECT_DESTROY,
        EVENT_OBJECT_HIDE,
        EVENT_OBJECT_SHOW,
        EVENT_OBJECT_LOCATIONCHANGE,
        EVENT_SYSTEM_MOVESIZEEND,
    ] {
        assert!(win_event_requires_scan(event, 0, 0));
    }
    assert!(!win_event_requires_scan(EVENT_SYSTEM_MOVESIZESTART, 0, 0));
}

#[test]
fn followed_moves_skip_uia_but_lifecycle_and_move_end_still_scan() {
    assert!(!win_event_requires_scan_after_follow(EVENT_OBJECT_LOCATIONCHANGE, 0, 0, true));
    assert!(win_event_requires_scan_after_follow(EVENT_OBJECT_LOCATIONCHANGE, 0, 0, false));
    for event in [
        EVENT_OBJECT_SHOW,
        EVENT_OBJECT_HIDE,
        EVENT_OBJECT_DESTROY,
        EVENT_SYSTEM_MINIMIZESTART,
        EVENT_SYSTEM_MOVESIZEEND,
    ] {
        assert!(win_event_requires_scan_after_follow(event, 0, 0, true));
    }
    for event in [
        EVENT_OBJECT_SHOW,
        EVENT_OBJECT_HIDE,
        EVENT_OBJECT_DESTROY,
        EVENT_OBJECT_LOCATIONCHANGE,
    ] {
        assert!(!win_event_is_window_geometry_follow(event, -4, 0));
        assert!(!win_event_requires_scan_after_follow(event, -4, 0, false));
    }
}

#[test]
fn geometry_follow_filter_only_accepts_window_location_changes() {
    assert!(win_event_is_window_geometry_follow(EVENT_OBJECT_LOCATIONCHANGE, 0, 0));
    assert!(!win_event_is_window_geometry_follow(EVENT_OBJECT_LOCATIONCHANGE, -4, 0));
    assert!(!win_event_is_window_geometry_follow(EVENT_OBJECT_LOCATIONCHANGE, 0, 1));
    assert!(win_event_is_window_geometry_follow(EVENT_SYSTEM_MOVESIZESTART, -4, 1));
    assert!(win_event_is_window_geometry_follow(EVENT_SYSTEM_MOVESIZEEND, -4, 1));
}

#[test]
fn foreground_and_minimize_events_do_not_depend_on_accessibility_object_ids() {
    for event in [
        EVENT_SYSTEM_FOREGROUND,
        EVENT_SYSTEM_MINIMIZESTART,
        EVENT_SYSTEM_MINIMIZEEND,
    ] {
        assert!(win_event_requires_scan(event, -4, 1));
    }
}

#[test]
fn event_numbers_are_those_of_the_window_system() {
    assert_eq!(
        [
            EVENT_SYSTEM_FOREGROUND,
            EVENT_SYSTEM_MOVESIZESTART,
            EVENT_SYSTEM_MOVESIZEEND,
            EVENT_SYSTEM_MINIMIZESTART,
            EVENT_SYSTEM_MINIMIZEEND,
            EVENT_OBJECT_CREATE,
            EVENT_OBJECT_REORDER,
            EVENT_OBJECT_STATECHANGE,
            EVENT_OBJECT_LOCATIONCHANGE,
        ],
        [3, 10, 11, 22, 23, 32768, 32772, 32778, 32779]
    );
    assert!(win_event_requires_scan(EVENT_OBJECT_REORDER, 0, 0));
    assert!(win_event_requires_scan(EVENT_OBJECT_STATECHANGE, 0, 0));
}

#[test]
fn leave_control_names_are_strict() {
    assert!(is_leave_control(&normalize_name("会議から退出"), Some(ControlType::Button)));
    assert!(is_leave_control(&normalize_name("Leave call"), Some(ControlType::MenuItem)));
    assert!(!is_leave_control(&normalize_name("退出予定者"), Some(ControlType::Text)));
}

#[test]
fn shared_content_names_are_detected() {
    assert!(is_shared_content_name(&normalize_name("共有コンテンツ")));
    assert!(is_shared_content_name(&normalize_name("Shared content")));
    assert!(!is_shared_content_name(&normalize_name("共有を開始")));
}

#[test]
fn stable_call_control_ids_are_detected() {
    assert!(is_call_control("hangup-button", Some(ControlType::Button)));
    assert!(is_call_control("call-duration-custom", Some(ControlType::Text)));
    assert!(!is_call_control("share-button", Some(ControlType::Button)));
}

#[test]
fn call_control_ids_ignore_case_and_surrounding_space() {
    assert!(is_call_control("  HangUp-Button\u{3000}", Some(ControlType::SplitButton)));
    assert!(!is_call_control("hangup-button", Some(ControlType::Text)));
    assert!(!is_call_control("call-duration-custom", Some(ControlType::Button)));
    assert!(!is_call_control("hangup button", Some(ControlType::Button)));
}

#[test]
fn names_are_normalized_without_separators_in_lower_case() {
    assert_eq!(normalize_name("You’re  sharing_your-SCREEN / \\ now"), "youresharingyourscreennow");
    assert_eq!(normalize_name("İ"), "i\u{307}");
    assert_eq!(normalize_name("共有・コンテンツ"), "共有コンテンツ");
}

#[test]
fn presenter_toolbar_requires_an_active_local_share_action() {
    assert!(presenter_element_confirms_local_share(
        &normalize_name("共有を停止"),
        "share-button",
        Some(ControlType::Button),
    ));
    assert!(presenter_element_confirms_local_share(
        &normalize_name("You're sharing your screen"),
        "",
        Some(ControlType::Button),
    ));
    assert!(!presenter_element_confirms_local_share(
        &normalize_name("共有"),
        "share-button",
        Some(ControlType::Button),
    ));
}

#[test]
fn presenter_toolbar_is_detected_before_and_after_its_title_changes() {
    assert!(
        presenter_toolbar_score(
            "共有コントロール バー | Microsoft Teams",
            297,
            35,
            true,
            true,
            None,
        )
        .is_some()
    );
    assert!(
        presenter_toolbar_score(
            "Meeting | Microsoft Teams",
            790,
            55,
            true,
            true,
            Some(WDA_EXCLUDEFROMCAPTURE),
        )
        .is_some()
    );
}

#[test]
fn ordinary_teams_windows_are_not_presenter_toolbars() {
    assert!(
        presenter_toolbar_score("Meeting | Microsoft Teams", 1_200, 800, true, false, None)
            .is_none()
    );
    assert!(
        presenter_toolbar_score("Calendar | Microsoft Teams", 900, 55, true, true, None).is_none()
    );
}

#[test]
fn presenter_toolbar_scores_add_up() {
    assert_eq!(
        presenter_toolbar_score("Sharing toolbar", 300, 40, true, true, Some(0x11)),
        Some(190)
    );
    assert_eq!(presenter_toolbar_score("Sharing toolbar", 300, 40, false, false, None), Some(100));
    assert_eq!(presenter_toolbar_score("x", 300, 40, false, true, Some(0x11)), Some(80));
    assert_eq!(presenter_toolbar_score("x", 300, 40, true, true, Some(0x10)), None);
    assert_eq!(presenter_toolbar_score("Sharing toolbar", 299, 100, true, true, None), None);
    assert_eq!(presenter_toolbar_score("Sharing toolbar", 300, 100, false, false, None), Some(100));
    assert_eq!(presenter_toolbar_score("Sharing toolbar", 1601, 40, true, true, None), None);
    assert_eq!(presenter_toolbar_score("Sharing toolbar", 219, 40, true, true, None), None);
}

#[test]
fn presenter_toolbar_survives_one_missing_scan() {
    let started = STARTED;
    let mut state = PresenterToolbarState::default();
    let evidence = toolbar_evidence(77);
    assert_eq!(state.update(started, vec![evidence]), Some(77));
    assert_eq!(state.update(started + 200 * MS, Vec::new()), Some(77));
    assert_eq!(state.update(started + 700 * MS, Vec::new()), None);
}

#[test]
fn presenter_toolbar_switches_immediately_when_teams_recreates_its_hwnd() {
    let started = STARTED;
    let mut state = PresenterToolbarState::default();
    assert_eq!(state.update(started, vec![toolbar_evidence(77)]), Some(77));
    assert_eq!(state.update(started + 10 * MS, vec![toolbar_evidence(88)]), Some(88));
}

#[test]
fn the_last_of_equal_toolbars_is_taken() {
    let mut state = PresenterToolbarState::default();
    assert_eq!(
        state.update(STARTED, vec![toolbar_evidence(1), toolbar_evidence(2)]),
        Some(2)
    );
    assert_eq!(state.confirmation_deadline(), None);
    assert_eq!(state.update(STARTED + MS, Vec::new()), Some(2));
    assert_eq!(state.confirmation_deadline(), Some(STARTED + 451 * MS));
    assert_eq!(
        state.update(STARTED + 500 * MS, vec![toolbar_evidence(1), toolbar_evidence(2)]),
        Some(2)
    );
    assert_eq!(state.missing_scans, 0);
}

#[test]
fn meeting_entry_is_debounced() {
    let started = STARTED;
    let mut state = DebouncedMeetingState::default();
    assert!(
        state
            .update(started, vec![evidence(42, true, true, true, false)], false)
            .is_none()
    );
    let active = state.update(
        started + 700 * MS,
        vec![evidence(42, true, true, true, false)],
        false,
    );
    assert_eq!(REQUIRED_ENTRY_SCANS, 2);
    assert_eq!(active.map(|meeting| meeting.target.id), Some(42));
}

#[test]
fn single_participant_meeting_enters_without_shared_content() {
    let started = STARTED;
    let mut state = DebouncedMeetingState::default();
    assert!(
        state
            .update(started, vec![evidence(42, false, true, false, false)], false)
            .is_none()
    );
    let active = state.update(
        started + 1_200 * MS,
        vec![evidence(42, false, true, false, false)],
        false,
    );
    assert_eq!(active.map(|meeting| meeting.target.id), Some(42));
}

#[test]
fn shared_content_alone_does_not_enter_a_meeting() {
    let started = STARTED;
    let mut state = DebouncedMeetingState::default();
    assert!(
        state
            .update(started, vec![evidence(42, false, false, false, true)], false)
            .is_none()
    );
    assert!(
        state
            .update(
                started + 2_000 * MS,
                vec![evidence(42, false, false, false, true)],
                false,
            )
            .is_none()
    );
}

#[test]
fn transient_missing_signal_does_not_exit() {
    let started = STARTED;
    let mut state = DebouncedMeetingState::default();
    let _ = state.update(started, vec![evidence(42, true, true, true, false)], false);
    let _ = state.update(
        started + 700 * MS,
        vec![evidence(42, true, true, true, false)],
        false,
    );
    assert_eq!(
        state
            .update(started + 1_000 * MS, Vec::new(), false)
            .map(|meeting| meeting.target.id),
        Some(42)
    );
}

#[test]
fn strong_evidence_requires_250ms_from_the_first_candidate() {
    let started = STARTED;
    let candidate = evidence(42, true, true, false, false);
    let mut state = DebouncedMeetingState::default();

    assert!(state.update(started, vec![candidate.clone()], false).is_none());
    assert_eq!(state.confirmation_deadline(), Some(started + ENTRY_STABLE_FOR));
    assert!(state.update(started + 249 * MS, vec![candidate.clone()], false).is_none());
    assert_eq!(
        state
            .update(started + ENTRY_STABLE_FOR, vec![candidate], false)
            .map(|meeting| meeting.target.id),
        Some(42)
    );
    assert!(state.confirmation_deadline().is_none());
}

#[test]
fn transient_evidence_loss_discards_the_entry_candidate_and_deadline() {
    let started = STARTED;
    let candidate = evidence(42, true, true, false, false);
    let mut state = DebouncedMeetingState::default();

    assert!(state.update(started, vec![candidate.clone()], false).is_none());
    assert!(state.update(started + 100 * MS, Vec::new(), false).is_none());
    assert!(state.entry.is_none());
    assert!(state.confirmation_deadline().is_none());
    assert!(state.update(started + ENTRY_STABLE_FOR, vec![candidate], false).is_none());
}

#[test]
fn fallback_evidence_still_uses_the_1100ms_entry_window() {
    let started = STARTED;
    let candidate = evidence(42, false, true, false, false);
    let mut state = DebouncedMeetingState::default();

    assert!(state.update(started, vec![candidate.clone()], false).is_none());
    assert!(state.update(started + 1_099 * MS, vec![candidate.clone()], false).is_none());
    assert_eq!(
        state
            .update(started + ENTRY_FALLBACK_STABLE_FOR, vec![candidate], false)
            .map(|meeting| meeting.target.id),
        Some(42)
    );
}

#[test]
fn replacing_the_best_candidate_restarts_its_stability_deadline() {
    let started = STARTED;
    let first = evidence(42, true, true, false, false);
    let replacement = evidence(77, true, true, false, false);
    let mut state = DebouncedMeetingState::default();

    assert!(state.update(started, vec![first], false).is_none());
    assert!(state.update(started + 200 * MS, vec![replacement.clone()], false).is_none());
    assert!(state.update(started + 449 * MS, vec![replacement.clone()], false).is_none());
    assert_eq!(
        state
            .update(started + 450 * MS, vec![replacement], false)
            .map(|meeting| meeting.target.id),
        Some(77)
    );
}

#[test]
fn scan_wake_deadline_respects_not_before_for_pending_and_scheduled_scans() {
    let now = STARTED;
    let not_before = now + 100 * MS;
    let scheduled = now + 10 * MS;

    assert_eq!(scan_wake_deadline(true, not_before, scheduled), not_before);
    assert_eq!(scan_wake_deadline(false, not_before, scheduled), not_before);
    assert_eq!(scan_wake_deadline(false, not_before, now + 250 * MS), now + 250 * MS);
}

#[test]
fn scan_requests_coalesce_without_losing_pending_work_during_the_minimum_gap() {
    let mut signal = ScanGate::new();
    let now = STARTED;
    let not_before = now + 80 * MS;
    let scheduled = now + 60_000 * MS;

    signal.request();
    signal.request();
    signal.request();
    assert_eq!(signal.poll(false, now, not_before, scheduled), GateStep::Wait(80 * MS));
    assert!(signal.pending);
    let completed = not_before;
    assert_eq!(signal.poll(false, completed, not_before, scheduled), GateStep::Scan);
    assert!(completed >= not_before);
    assert!(!signal.pending);
    assert_eq!(
        signal.poll(false, completed, not_before, scheduled),
        GateStep::Wait(scheduled - completed)
    );
    assert_eq!(signal.poll(true, scheduled, not_before, scheduled), GateStep::Stop);
}

#[test]
fn full_meeting_exit_retains_the_1400ms_debounce() {
    let started = STARTED;
    let candidate = evidence(42, true, true, false, false);
    let mut state = DebouncedMeetingState::default();

    assert!(state.update(started, vec![candidate.clone()], false).is_none());
    assert!(state.update(started + ENTRY_STABLE_FOR, vec![candidate], false).is_some());
    assert!(
        state
            .update(started + ENTRY_STABLE_FOR + MS, Vec::new(), false)
            .is_some()
    );
    assert!(
        state
            .update(started + ENTRY_STABLE_FOR + 1_399 * MS, Vec::new(), false)
            .is_some()
    );
    assert!(
        state
            .update(started + ENTRY_STABLE_FOR + 1_401 * MS, Vec::new(), false)
            .is_none()
    );
}

#[test]
fn a_minimized_meeting_goes_on_without_any_evidence() {
    let candidate = evidence(42, true, true, false, false);
    let mut state = DebouncedMeetingState::default();
    state.update(STARTED, vec![candidate.clone()], false);
    state.update(STARTED + ENTRY_STABLE_FOR, vec![candidate], false);
    for seconds in 1..100 {
        let kept = state
            .update(STARTED + seconds * 1_000 * MS, Vec::new(), true)
            .expect("the meeting goes on");
        assert!(kept.minimized);
        assert_eq!(kept.target.id, 42);
    }
}

fn sight(id: u32, title: &str, app_name: &str) -> WindowSight {
    WindowSight {
        id,
        title: title.to_string(),
        app_name: app_name.to_string(),
        exists: true,
        minimized: false,
        visible: true,
        focused: false,
        width: 1_200,
        height: 800,
        topmost: false,
        display_affinity: None,
    }
}

fn inspected(sight: WindowSight) -> InspectedWindow {
    InspectedWindow {
        sight: Some(sight),
        local_share_active: false,
        classes: ChildClassEvidence::new(),
        uia: MeetingUiaEvidence::default(),
    }
}

#[test]
fn windows_of_teams_are_told_by_program_or_title() {
    assert!(is_teams_window("MS-Teams.exe", ""));
    assert!(is_teams_window("", "Microsoft Teams"));
    assert!(is_teams_window("", "Chat | Microsoft Teams"));
    assert!(is_teams_window("", "MICROSOFT TEAMS - Call"));
    assert!(!is_teams_window("notepad.exe", "About Microsoft Teams today"));
    assert!(!is_teams_lowercase("", "chat|microsoft teams"));
    assert!(!is_teams_lowercase("", "Microsoft Teams"));
}

#[test]
fn child_classes_are_found_in_any_case() {
    let mut classes = ChildClassEvidence::new();
    classes.note("Chrome_WidgetWin_0");
    assert!(!classes.has_webview && !classes.has_video);
    classes.note("TeamsWebView");
    assert!(classes.has_webview && !classes.has_video);
    classes.note("XTEAMSVIDEO2");
    assert!(classes.has_webview && classes.has_video);
}

#[test]
fn a_scan_scores_sorts_and_separates_windows() {
    let quiet = inspected(sight(1, "Chat | Microsoft Teams", "ms-teams.exe"));
    let other = inspected(sight(2, "Readme", "notepad.exe"));
    let mut gone = inspected(sight(3, "Chat | Microsoft Teams", "ms-teams.exe"));
    gone.sight.as_mut().unwrap().exists = false;
    let mut meeting = inspected(sight(4, "Call | Microsoft Teams", "ms-teams.exe"));
    meeting.sight.as_mut().unwrap().focused = true;
    meeting.classes = ChildClassEvidence { has_webview: true, has_video: true };
    meeting.uia = MeetingUiaEvidence {
        has_leave_control: true,
        has_call_control: true,
        has_shared_content: true,
        provider_has_controls: true,
    };
    let mut bar = inspected(sight(5, "Sharing toolbar", "ms-teams.exe"));
    bar.sight.as_mut().unwrap().width = 300;
    bar.sight.as_mut().unwrap().height = 40;
    assert_eq!(bar.sight.as_ref().unwrap().classify(), WindowKind::Toolbar(110));
    bar.local_share_active = true;
    let nothing = InspectedWindow { sight: None, ..inspected(sight(0, "", "")) };

    let scan = scan_meeting_windows(vec![quiet, other, nothing, gone, meeting, bar]);
    assert_eq!(
        scan.meetings.iter().map(|found| (found.target.id, found.score)).collect::<Vec<_>>(),
        vec![(4, 130 + 110 + 85 + 55 + 20 + 18 + 8 + 5 + 16), (1, 8 + 5 + 20)]
    );
    assert_eq!(
        scan.presenter_toolbars,
        vec![PresenterToolbarEvidence { id: 5, score: 150, local_share_active: true }]
    );
}

#[test]
fn equal_scores_are_ordered_by_focus_and_keep_their_order() {
    let mut first = inspected(sight(1, "A | Microsoft Teams", "ms-teams.exe"));
    first.sight.as_mut().unwrap().minimized = true;
    let mut windows = Vec::new();
    for _ in 0..20 {
        windows.push(inspected(sight(9, "Readme", "notepad.exe")));
    }
    windows.push(first);
    let mut second = inspected(sight(2, "B | Microsoft Teams", "ms-teams.exe"));
    second.sight.as_mut().unwrap().minimized = true;
    windows.push(second);
    let mut third = inspected(sight(3, "C | Microsoft Teams", "ms-teams.exe"));
    third.sight.as_mut().unwrap().minimized = true;
    third.sight.as_mut().unwrap().visible = false;
    third.sight.as_mut().unwrap().focused = true;
    windows.push(third);
    let scan = scan_meeting_windows(windows);
    assert_eq!(
        scan.meetings.iter().map(|found| (found.target.id, found.score)).collect::<Vec<_>>(),
        vec![(3, 18), (1, 8), (2, 8)]
    );
}

fn element(name: &str, id: &str, control_type: ControlType) -> MeetingElement {
    MeetingElement {
        offscreen: Some(false),
        name: name.to_string(),
        automation_id: id.to_string(),
        control_type: Some(control_type),
    }
}

#[test]
fn elements_are_read_until_nothing_more_can_be_learned() {
    let hidden = MeetingElement { offscreen: None, ..element("退出", "", ControlType::Button) };
    assert_eq!(scan_meeting_uia(&vec![hidden]), MeetingUiaEvidence::default());
    let evidence = scan_meeting_uia(&vec![
        element("Calendar", "", ControlType::Pane),
        element("Leave meeting", "", ControlType::Button),
        element("", "hangup-button", ControlType::Button),
        element("Shared screen", "", ControlType::Pane),
    ]);
    assert!(evidence.has_leave_control && evidence.has_call_control && evidence.has_shared_content);
    assert!(evidence.provider_has_controls);
    let calendar = scan_meeting_uia(&vec![element("Today", "", ControlType::Text)]);
    assert!(calendar.provider_has_controls && !calendar.has_signal());
}

#[test]
fn a_toolbar_proves_local_sharing_by_a_visible_element() {
    let stop = element("Stop sharing", "share-button", ControlType::Button);
    assert!(inspect_presenter_toolbar(&vec![element("x", "", ControlType::Text), stop]));
    let hidden = MeetingElement {
        offscreen: Some(true),
        ..element("Stop sharing", "share-button", ControlType::Button)
    };
    assert!(!inspect_presenter_toolbar(&vec![hidden]));
}

#[test]
fn the_provider_is_woken_in_the_lower_middle_of_the_window() {
    assert_eq!(warmup_point(-100, 50, 801, 400), ScreenPoint { x: 300, y: 350 });
    assert_eq!(
        warmup_point(i32::MAX, 0, 10, u32::MAX),
        ScreenPoint { x: i32::MAX, y: 1_073_741_823 }
    );
}

#[test]
fn the_monitor_reports_changes_once() {
    let mut monitor = MonitorState::new(STARTED);
    let mut snapshot = MeetingSnapshot::default();
    let mut call = inspected(sight(4, "Call | Microsoft Teams", "ms-teams.exe"));
    call.uia.has_leave_control = true;
    call.uia.has_call_control = true;
    let findings = monitor.absorb(STARTED, scan_meeting_windows(vec![call]), false);
    assert!(findings.active.is_none());
    assert!(!snapshot.refresh(&findings, None));
    monitor.schedule(STARTED + 10 * MS);
    assert_eq!(monitor.not_before, STARTED + 10 * MS + MIN_SCAN_INTERVAL);
    assert_eq!(monitor.scheduled, STARTED + ENTRY_STABLE_FOR);

    let mut call = inspected(sight(4, "Call | Microsoft Teams", "ms-teams.exe"));
    call.uia.has_leave_control = true;
    call.uia.has_call_control = true;
    let mut bar = inspected(sight(5, "Sharing toolbar", "ms-teams.exe"));
    bar.sight.as_mut().unwrap().width = 300;
    bar.sight.as_mut().unwrap().height = 40;
    bar.local_share_active = true;
    let now = STARTED + ENTRY_STABLE_FOR;
    let findings = monitor.absorb(now, scan_meeting_windows(vec![call, bar]), false);
    assert_eq!(findings.presenter_toolbar, Some(5));
    assert!(findings.local_share_active);
    let shared = LocalMonitorCaptureTarget {
        monitor_handle: 7,
        screen_rect: ScreenRect { x: 0, y: 0, width: 10, height: 10 },
    };
    assert!(snapshot.refresh(&findings, Some(shared)));
    assert_eq!(snapshot.generation, 1);
    assert_eq!(snapshot.target.as_ref().map(|target| target.id), Some(4));
    assert_eq!(snapshot.local_monitor_target, Some(shared));
    assert!(!snapshot.refresh(&findings, Some(shared)));
    assert_eq!(snapshot.clone(), snapshot);
    assert!(snapshot.refresh(&findings, None));
    assert_eq!(snapshot.generation, 2);
    monitor.schedule(now);
    assert_eq!(monitor.scheduled, now + WATCHDOG_INTERVAL);
}

#[test]
fn a_shared_monitor_counts_only_while_something_is_shared() {
    let mut monitor = MonitorState::new(STARTED);
    let mut snapshot = MeetingSnapshot::default();
    let findings = monitor.absorb(STARTED, scan_meeting_windows(vec![]), false);
    assert!(!findings.local_share_active);
    let other = LocalMonitorCaptureTarget {
        monitor_handle: 9,
        screen_rect: ScreenRect { x: 0, y: 0, width: 10, height: 10 },
    };
    assert!(!snapshot.refresh(&findings, Some(other)));
    assert_eq!(snapshot.local_monitor_target, None);
    assert_eq!(snapshot.generation, 0);
}
