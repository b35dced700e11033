use snapbar::accessibility::{
    authoritative_control_rank, authoritative_name_rank, normalize_accessible_name,
    normalized_name_rank, ControlType,
};
use snapbar::content::{
    authoritative_candidate_from_element, candidate_from_ranked_name, insert_or_replace_candidate,
    is_authoritative_content_rect, rects_are_stable, select_element,
    select_unique_authoritative_candidate, AuthoritativeCandidate, ElementReport,
};
use snapbar::error::CaptureError;
use snapbar::geometry::{
    screen_rect_from_rect, Edges, PixelRect, ScreenPoint, ScreenRect, WindowGeometry,
    WindowReport,
};
use snapbar::ratio::{round_to_nearest, Limit, NARROW_PRECISION, WIDE_PRECISION};
use snapbar::source::{
    is_expected_monitor, process_is_teams, select_monitor_target, BorderReport, CaptureSource,
    CaptureTarget, LocalMonitorCaptureTarget, MonitorCandidate, TargetState,
};
use snapbar::text::{
    contains, ends_with, eq_ignore_ascii_case, is_whitespace, joined, same_text, starts_with, trim,
};

#[test]
fn screen_coordinates_map_across_dpi_and_negative_monitor_origin() {
    let geometry = WindowGeometry {
        screen_left: -1920,
        screen_top: 120,
        screen_width: 1600,
        screen_height: 900,
        image_width: 2400,
        image_height: 1350,
    };
    let mapped = geometry
        .map_ui_rect(Edges::new(-1760, 210, -560, 810))
        .expect("UIA rectangle should overlap the captured window");

    assert_eq!(mapped, PixelRect::new(240, 135, 1800, 900));
}

#[test]
fn exact_measured_rect_maps_to_teams_relative_coordinates() {
    let geometry = WindowGeometry {
        screen_left: 828,
        screen_top: -1448,
        screen_width: 2255,
        screen_height: 1397,
        image_width: 2255,
        image_height: 1397,
    };
    let mapped = geometry
        .map_ui_rect_strict(Edges::new(840, -1305, 3071, -51))
        .expect("measured shared content should map inside Teams");

    assert_eq!(mapped, PixelRect::new(12, 143, 2231, 1254));
}

#[test]
fn pixel_rect_maps_back_to_negative_monitor_coordinates() {
    let geometry = WindowGeometry {
        screen_left: -1920,
        screen_top: 120,
        screen_width: 1600,
        screen_height: 900,
        image_width: 2400,
        image_height: 1350,
    };

    assert_eq!(
        geometry.map_pixel_rect_to_screen(PixelRect::new(240, 135, 1800, 900)),
        Some(ScreenRect { x: -1760, y: 210, width: 1200, height: 600 })
    );
}

#[test]
fn authoritative_name_requires_strong_shared_content_semantics() {
    assert_eq!(authoritative_name_rank("共有コンテンツ"), Some(4));
    assert_eq!(authoritative_name_rank("共有  コンテンツ"), Some(4));
    assert_eq!(authoritative_name_rank("Shared content"), Some(4));
    assert_eq!(authoritative_name_rank("共有"), None);
    assert_eq!(authoritative_name_rank("コンテンツ"), None);
    assert_eq!(authoritative_name_rank("共有を停止"), None);
}

#[test]
fn unique_highest_rank_candidate_is_selected() {
    let lower = AuthoritativeCandidate { rect: PixelRect::new(0, 0, 900, 600), rank: 43 };
    let menu_item = AuthoritativeCandidate { rect: PixelRect::new(12, 143, 2231, 1254), rank: 45 };

    assert_eq!(select_unique_authoritative_candidate(&[lower, menu_item]), Some(menu_item));
}

#[test]
fn ambiguous_equal_rank_candidates_fail_closed() {
    let left = AuthoritativeCandidate { rect: PixelRect::new(10, 100, 900, 600), rank: 45 };
    let right = AuthoritativeCandidate { rect: PixelRect::new(920, 100, 900, 600), rank: 45 };

    assert_eq!(select_unique_authoritative_candidate(&[left, right]), None);
    assert_eq!(select_unique_authoritative_candidate(&[]), None);
}

#[test]
fn names_rank_by_what_they_say() {
    assert_eq!(normalize_accessible_name("Screen - Sharing_X"), "screensharingx");
    assert_eq!(authoritative_name_rank("Screen Sharing"), Some(3));
    assert_eq!(authoritative_name_rank("SHARED-SCREEN"), Some(3));
    assert_eq!(authoritative_name_rank("Presentation Content"), Some(4));
    assert_eq!(normalized_name_rank("presentedcontent"), Some(4));
    assert_eq!(normalized_name_rank("sharingcontent"), Some(4));
    assert_eq!(normalized_name_rank("Shared content"), None);
    assert_eq!(authoritative_control_rank(ControlType::MenuItem), Some(5));
    assert_eq!(authoritative_control_rank(ControlType::Document), Some(4));
    assert_eq!(authoritative_control_rank(ControlType::Group), Some(3));
    assert_eq!(authoritative_control_rank(ControlType::Button), None);
}

fn whole(width: u32, height: u32) -> WindowGeometry {
    WindowGeometry::from_screen_rect(ScreenRect { x: 0, y: 0, width, height }, width, height)
}

#[test]
fn elements_make_candidates() {
    let geometry = whole(1000, 1000);
    let mut element = ElementReport {
        offscreen: Some(false),
        name: Some("Shared content".to_string()),
        control_type: Some(ControlType::Pane),
        bounds: Some(Edges::new(100, 100, 900, 900)),
    };
    let expected = AuthoritativeCandidate { rect: PixelRect::new(100, 100, 800, 800), rank: 43 };
    assert_eq!(authoritative_candidate_from_element(&element, geometry), Some(expected));
    assert_eq!(
        candidate_from_ranked_name(
            true,
            Some(30),
            element.control_type,
            element.bounds,
            geometry
        )
        .map(|found| found.rank),
        Some(255)
    );
    element.offscreen = None;
    assert_eq!(authoritative_candidate_from_element(&element, geometry), None);
    element.offscreen = Some(false);
    element.control_type = None;
    assert_eq!(authoritative_candidate_from_element(&element, geometry), None);
    element.control_type = Some(ControlType::Button);
    assert_eq!(authoritative_candidate_from_element(&element, geometry), None);
    element.control_type = Some(ControlType::Pane);
    element.bounds = Some(Edges::new(0, 0, 1000, 1000));
    assert_eq!(authoritative_candidate_from_element(&element, geometry), None);
    element.bounds = Some(Edges::new(900, 100, 1700, 900));
    assert_eq!(authoritative_candidate_from_element(&element, geometry), None);
}

#[test]
fn the_share_of_content_agrees_with_double_precision() {
    let mut accepted = 0;
    for image in [1000_u32, 1001, 1333, 2255, 3840, 65_536, 4_000_000_000] {
        for step in 0..2_000_u64 {
            let width = ((u64::from(image) * step) / 2_000) as u32;
            for height in [image, image - image / 3, image / 5, image / 2 + 7] {
                let geometry = whole(image, image);
                let rect = PixelRect::new(0, 0, width, height);
                let large = width >= (image / 5).max(96) && height >= (image / 5).max(54);
                let area = u64::from(width) * u64::from(height);
                let all = u64::from(image) * u64::from(image);
                let ratio = area as f64 / all as f64;
                let expected = large && (0.08..=0.985).contains(&ratio);
                accepted += usize::from(expected);
                assert_eq!(is_authoritative_content_rect(rect, geometry), expected);
            }
        }
    }
    assert!(accepted > 1_000);
    let exact = whole(1000, 1000);
    assert!(is_authoritative_content_rect(PixelRect::new(0, 0, 400, 200), exact));
    assert!(!is_authoritative_content_rect(PixelRect::new(0, 0, 399, 200), exact));
    assert!(is_authoritative_content_rect(PixelRect::new(0, 0, 985, 1000), exact));
    assert!(!is_authoritative_content_rect(PixelRect::new(0, 0, 986, 1000), exact));
}

#[test]
fn numbers_are_rounded_as_binary_formats_round_them() {
    let mut seed = 0x9e37_79b9_7f4a_7c15_u64;
    for _ in 0..20_000 {
        seed ^= seed << 13;
        seed ^= seed >> 7;
        seed ^= seed << 17;
        let value = seed >> (seed % 50);
        assert_eq!(round_to_nearest(value, WIDE_PRECISION), value as f64 as u128);
        assert_eq!(round_to_nearest(value, NARROW_PRECISION), value as f32 as u128);
    }
    for value in [0, 1, 16_777_217, 16_777_219, u64::MAX, (1 << 53) + 1, (1 << 53) + 3] {
        assert_eq!(round_to_nearest(value, WIDE_PRECISION), value as f64 as u128);
        assert_eq!(round_to_nearest(value, NARROW_PRECISION), value as f32 as u128);
    }
}

#[test]
fn limits_compare_as_single_precision_quotients_do() {
    let limit = Limit { mantissa: 12079596, denominator: 16777216 };
    let value = 0.72_f32;
    for whole in [100_u32, 25, 1_000_003, 16_777_216, 4_294_967_295] {
        for offset in 0..40_u64 {
            let part = (u64::from(whole) * 72 / 100 + offset).saturating_sub(20);
            let quotient = part as f32 / whole as f32;
            let rounded = round_to_nearest(part, NARROW_PRECISION);
            let all = round_to_nearest(u64::from(whole), NARROW_PRECISION);
            assert_eq!(limit.is_reached(rounded, all), quotient >= value);
            assert_eq!(limit.is_kept(rounded, all), quotient <= value);
        }
    }
}

#[test]
fn looks_at_one_rectangle_are_merged() {
    let first = AuthoritativeCandidate { rect: PixelRect::new(10, 10, 100, 100), rank: 43 };
    let near = AuthoritativeCandidate { rect: PixelRect::new(13, 7, 106, 94), rank: 45 };
    let weak = AuthoritativeCandidate { rect: PixelRect::new(10, 10, 100, 100), rank: 33 };
    let far = AuthoritativeCandidate { rect: PixelRect::new(14, 10, 100, 100), rank: 44 };
    let mut candidates = Vec::new();
    for candidate in [first, near, weak, far] {
        insert_or_replace_candidate(&mut candidates, candidate);
    }
    assert_eq!(candidates, vec![near]);
    assert!(rects_are_stable(first.rect, near.rect, 3));
    assert!(!rects_are_stable(first.rect, far.rect, 3));
    assert!(!rects_are_stable(first.rect, PixelRect::new(10, 10, 107, 100), 3));
    assert_eq!(select_element(&vec![None, Some(first), Some(near), Some(weak)]), Some(2));
    let other = AuthoritativeCandidate { rect: PixelRect::new(500, 10, 100, 100), rank: 45 };
    assert_eq!(select_element(&vec![Some(near), Some(other)]), None);
    assert_eq!(select_element(&vec![None]), None);
}

#[test]
fn windows_give_their_geometry() {
    let report = WindowReport {
        exists: true,
        minimized: false,
        bounds: Some(Edges::new(-10, -20, 90, 30)),
    };
    let geometry = WindowGeometry::from_window_report(report, 200, 100).unwrap();
    assert_eq!(
        geometry,
        WindowGeometry::from_screen_rect(
            ScreenRect { x: -10, y: -20, width: 100, height: 50 },
            200,
            100
        )
    );
    assert_eq!(geometry.image_dimensions(), (200, 100));
    assert!(matches!(
        WindowGeometry::from_window_report(WindowReport { exists: false, ..report }, 1, 1),
        Err(CaptureError::WindowUnconfirmed)
    ));
    assert!(matches!(
        WindowGeometry::from_window_report(WindowReport { minimized: true, ..report }, 1, 1),
        Err(CaptureError::WindowUnconfirmed)
    ));
    assert!(matches!(
        WindowGeometry::from_window_report(WindowReport { bounds: None, ..report }, 1, 1),
        Err(CaptureError::WindowPositionUnavailable)
    ));
    assert!(matches!(
        WindowGeometry::from_window_report(report, 0, 1),
        Err(CaptureError::WindowSizeInvalid)
    ));
    let widest = Edges::new(i32::MIN, 0, i32::MAX, 1);
    let report = WindowReport { bounds: Some(widest), ..report };
    assert_eq!(
        WindowGeometry::from_window_report(report, 1, 1).unwrap().screen_width,
        u32::MAX
    );
}

#[test]
fn the_probe_point_agrees_with_rounded_fractions() {
    for size in (0..5_000_u32).chain([u32::MAX - 1, u32::MAX]) {
        let geometry = whole(size, size);
        let last = f64::from(size.saturating_sub(1));
        let expected = ScreenPoint {
            x: ((last * 0.50).round() as i64).clamp(i32::MIN.into(), i32::MAX.into()) as i32,
            y: ((last * 0.55).round() as i64).clamp(i32::MIN.into(), i32::MAX.into()) as i32,
        };
        assert_eq!(geometry.probe_point(), expected);
    }
}

#[test]
fn rectangles_off_the_window_are_cut_or_refused() {
    let geometry = whole(100, 100);
    assert_eq!(
        geometry.map_ui_rect(Edges::new(-50, 90, 50, 150)),
        Some(PixelRect::new(0, 90, 50, 10))
    );
    assert_eq!(geometry.map_ui_rect(Edges::new(100, 0, 150, 50)), None);
    assert_eq!(geometry.map_ui_rect_strict(Edges::new(-50, 90, 50, 150)), None);
    assert_eq!(
        geometry.map_ui_rect_strict(Edges::new(-2, 0, 98, 100)),
        Some(PixelRect::new(0, 0, 98, 100))
    );
    assert_eq!(geometry.map_ui_rect_strict(Edges::new(-3, 0, 97, 100)), None);
    assert_eq!(geometry.map_ui_rect_strict(Edges::new(10, 10, 10, 20)), None);
    assert_eq!(geometry.map_pixel_rect_to_screen(PixelRect::new(0, 0, 0, 1)), None);
    assert_eq!(geometry.map_pixel_rect_to_screen(PixelRect::new(99, 0, 2, 1)), None);
}

#[test]
fn mapping_without_scaling_round_trips() {
    let geometry = WindowGeometry {
        screen_left: -700,
        screen_top: 33,
        screen_width: 640,
        screen_height: 480,
        image_width: 640,
        image_height: 480,
    };
    let rect = PixelRect::new(17, 5, 600, 470);
    let screen = geometry.map_pixel_rect_to_screen(rect).unwrap();
    assert_eq!(screen, ScreenRect { x: -683, y: 38, width: 600, height: 470 });
    let edges = Edges::new(
        screen.x,
        screen.y,
        screen.x + screen.width as i32,
        screen.y + screen.height as i32,
    );
    assert_eq!(geometry.map_ui_rect(edges), Some(rect));
}

#[test]
fn rectangles_intersect() {
    let left = PixelRect::new(0, 0, 10, 10);
    let right = PixelRect::new(6, 4, 10, 3);
    assert_eq!(left.intersection(right), Some(PixelRect::new(6, 4, 4, 3)));
    assert_eq!(right.intersection(left), left.intersection(right));
    assert_eq!(left.intersection(PixelRect::new(10, 0, 5, 5)), None);
    assert_eq!(PixelRect::new(u32::MAX, 1, 5, 2).right(), u32::MAX);
    assert_eq!(PixelRect::new(0, 0, u32::MAX, u32::MAX).area(), 0xffff_fffe_0000_0001);
}

#[test]
fn exact_unique_monitor_border_is_authoritative() {
    let target = select_monitor_target(
        &[rect(-1920, 0, 1920, 1080)],
        &[
            MonitorCandidate { handle: 11, screen_rect: rect(0, 0, 2560, 1440) },
            MonitorCandidate { handle: 12, screen_rect: rect(-1920, 0, 1920, 1080) },
        ],
    )
    .expect("the exact monitor should be selected");

    assert_eq!(target.monitor_handle, 12);
    assert_eq!(target.screen_rect, rect(-1920, 0, 1920, 1080));
}

#[test]
fn multiple_or_non_monitor_borders_fail_closed() {
    let monitor = MonitorCandidate { handle: 12, screen_rect: rect(0, 0, 1920, 1080) };

    assert!(select_monitor_target(&[], &[monitor]).is_none());
    assert!(
        select_monitor_target(&[rect(0, 0, 1920, 1080), rect(0, 0, 1920, 1080)], &[monitor])
            .is_none()
    );
    assert!(select_monitor_target(&[rect(120, 80, 1280, 720)], &[monitor]).is_none());
    assert!(select_monitor_target(&[rect(0, 0, 1920, 1080)], &[monitor, monitor]).is_none());
}

fn rect(x: i32, y: i32, width: u32, height: u32) -> ScreenRect {
    ScreenRect { x, y, width, height }
}

fn border() -> BorderReport {
    BorderReport {
        visible: true,
        topmost: true,
        class_name: "screenborderwindow".to_string(),
        excluded_from_capture: Some(true),
        cloaked: Some(false),
        process_name: Some("MS-TEAMS.EXE".to_string()),
        bounds: Some(Edges::new(-5, 1, 5, 9)),
    }
}

#[test]
fn borders_are_verified_one_property_at_a_time() {
    assert_eq!(border().teams_border(), Some(rect(-5, 1, 10, 8)));
    assert_eq!(BorderReport { visible: false, ..border() }.teams_border(), None);
    assert_eq!(BorderReport { topmost: false, ..border() }.teams_border(), None);
    assert_eq!(
        BorderReport { class_name: "Other".to_string(), ..border() }.teams_border(),
        None
    );
    assert_eq!(
        BorderReport { excluded_from_capture: Some(false), ..border() }.teams_border(),
        None
    );
    assert_eq!(BorderReport { cloaked: None, ..border() }.teams_border(), None);
    assert_eq!(BorderReport { process_name: None, ..border() }.teams_border(), None);
    assert_eq!(
        BorderReport { bounds: Some(Edges::new(5, 1, 5, 9)), ..border() }.teams_border(),
        None
    );
    assert!(!process_is_teams(&Some("ms-teams".to_string())));
    assert_eq!(screen_rect_from_rect(Edges::new(i32::MIN, 0, i32::MAX, 1)), None);
    assert_eq!(
        screen_rect_from_rect(Edges::new(0, 0, i32::MAX, 1)),
        Some(rect(0, 0, 0x7fff_ffff, 1))
    );
}

#[test]
fn sources_accept_what_can_be_captured() {
    let remote = CaptureSource::RemoteTeamsWindow(9);
    let target = LocalMonitorCaptureTarget { monitor_handle: 3, screen_rect: rect(0, 0, 1, 1) };
    let local = CaptureSource::LocalMonitor(target);
    let gone = TargetState { exists: false, minimized: true };
    assert_eq!(remote.remote_target_id(), Some(9));
    assert_eq!(local.remote_target_id(), None);
    assert!(local.is_local_monitor() && !remote.is_local_monitor());
    assert!(local.validate_remote_target(gone).is_ok());
    assert!(matches!(
        remote.validate_remote_target(gone),
        Err(CaptureError::TargetMissing)
    ));
    assert!(is_expected_monitor(Some(target), target));
    assert!(!is_expected_monitor(None, target));
    let other = LocalMonitorCaptureTarget { monitor_handle: 4, ..target };
    assert!(!is_expected_monitor(Some(other), target));
    let window = CaptureTarget {
        id: 1,
        title: "a".to_string(),
        app_name: "b".to_string(),
    };
    assert!(window.is_same(&window.clone()));
    assert!(!window.is_same(&CaptureTarget { title: "c".to_string(), ..window.clone() }));
}

#[test]
fn white_space_is_that_of_unicode() {
    for code in 0..=0x10_ffff_u32 {
        if let Some(character) = char::from_u32(code) {
            assert_eq!(is_whitespace(character), character.is_whitespace());
        }
    }
}

#[test]
fn text_predicates_agree_with_the_standard_library() {
    let texts = ["", "a", "共有", "abcab", "  x y\t", "\u{3000}", "Ｈ\u{2003}", "HangUp", "hangup"];
    for left in texts {
        assert_eq!(trim(left), left.trim());
        for right in texts {
            assert_eq!(contains(left, right), left.contains(right));
            assert_eq!(starts_with(left, right), left.starts_with(right));
            assert_eq!(ends_with(left, right), left.ends_with(right));
            assert_eq!(same_text(left, right), left == right);
            assert_eq!(
                eq_ignore_ascii_case(left, right),
                left.eq_ignore_ascii_case(right)
            );
            assert_eq!(joined(left, right), format!("{left}{right}"));
        }
    }
    for code in 0..128_u8 {
        for other in 0..128_u8 {
            let (left, right) = ((code as char).to_string(), (other as char).to_string());
            assert_eq!(
                eq_ignore_ascii_case(&left, &right),
                left.eq_ignore_ascii_case(&right)
            );
        }
    }
}
