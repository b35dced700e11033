use snapbar::assets::Assets;
use snapbar::diagnostics::visual::{recent_at, Handles, CONTEXT_DURATION, MAX_WINDOWS};
use snapbar::diagnostics::{measure, prune, single_line, LogFile, LIMIT};
use snapbar::screenshots::{next_attempt, screenshot_name, LocalTime};
use std::cell::Cell;

#[test]
fn measurement_preserves_success_and_failure() {
    let reports = Cell::new(0);
    let report = |stage: &str, success: bool| {
        assert_eq!(stage, "test");
        reports.set(reports.get() * 2 + 1 + i32::from(success));
    };
    assert_eq!(measure("test", || Ok::<_, &str>(17), report), Ok(17));
    assert_eq!(measure("test", || Err::<(), _>("failed"), report), Err("failed"));
    assert_eq!(reports.get(), 5);
}

#[test]
fn retention_only_removes_old_log_files() {
    let names: Vec<String> = ["snapbar-300.log", "snapbar-100.log", "notes.txt", "snapbar-200.log"]
        .iter()
        .map(|name| name.to_string())
        .collect();
    assert_eq!(prune(&names, 2), vec!["snapbar-100.log".to_string()]);
    assert_eq!(prune(&names, 0).len(), 3);
    assert!(prune(&names, 3).is_empty());
    let similar: Vec<String> = ["snapbar-.log", "xsnapbar-1.log", "snapbar-1.log2", "snapbar.log"]
        .iter()
        .map(|name| name.to_string())
        .collect();
    assert_eq!(prune(&similar, 0), vec!["snapbar-.log".to_string()]);
}

#[test]
fn removed_log_files_are_the_first_in_order() {
    let mut names: Vec<String> = (0..40)
        .map(|index| format!("snapbar-{}.log", (index * 7919) % 1000))
        .collect();
    let removed = prune(&names, 6);
    names.sort();
    assert_eq!(removed, names[..34].to_vec());
}

#[test]
fn a_log_file_is_rotated_before_it_grows_too_large() {
    let mut file = LogFile::new();
    assert!(!file.append(LIMIT));
    assert_eq!(file.size, 4 * 1024 * 1024);
    assert!(file.append(1));
    assert_eq!(file.size, 1);
    assert!(!file.append(10));
    assert_eq!(file.size, 11);
}

#[test]
fn messages_stay_on_one_line() {
    assert_eq!(single_line("a\r\nb\nc"), "a  b c");
    assert_eq!(single_line("共有"), "共有");
}

#[test]
fn recent_capture_expires_without_a_timer_or_polling() {
    let now = 5_000_000_000;
    assert_eq!(recent_at(None, now), None);
    assert_eq!(recent_at(Some((7, now)), now), Some(7));
    assert_eq!(recent_at(Some((7, now)), now + CONTEXT_DURATION), None);
}

#[test]
fn window_collection_is_bounded_and_reports_truncation() {
    let mut handles = Handles::default();
    for value in 0..MAX_WINDOWS {
        assert!(handles.push(value as isize));
    }
    assert!(!handles.push(99));
    assert!(handles.truncated);
    assert_eq!(handles.count, MAX_WINDOWS);
    assert_eq!(handles.values[MAX_WINDOWS - 1], (MAX_WINDOWS - 1) as isize);
}

#[test]
fn no_window_is_collected_at_first() {
    let mut handles = Handles::default();
    assert_eq!(handles.values, [0_isize; MAX_WINDOWS]);
    assert_eq!((handles.count, handles.truncated), (0, false));
    assert!(handles.push(41));
    assert_eq!(handles.values[0], 41);
    assert!(handles.values[1..].iter().all(|value| *value == 0));
}

#[test]
fn icons_are_found_by_their_path() {
    let names = Assets.list("icons");
    assert_eq!(names.len(), 12);
    assert_eq!(names[0], "alert.svg");
    assert_eq!(names[11], "window.svg");
    for (index, name) in names.iter().enumerate() {
        assert_eq!(Assets.find(&format!("icons/{name}")), Some(index));
    }
    assert_eq!(Assets.find("icons/chevron-left.svg"), None);
    assert_eq!(Assets.find("camera.svg"), None);
    assert!(Assets.list("fonts").is_empty());
}

#[test]
fn screenshot_path_uses_png_extension() {
    let time = LocalTime { year: 2026, month: 3, day: 9, hour: 7, minute: 5, second: 1 };
    assert_eq!(screenshot_name(time, 1), "Screenshot 2026-03-09 070501.png");
    assert_eq!(screenshot_name(time, 2), "Screenshot 2026-03-09 070501 (2).png");
    assert_eq!(screenshot_name(time, 9_999), "Screenshot 2026-03-09 070501 (9999).png");
    assert_eq!(screenshot_name(time, 10_000), "Screenshot 2026-03-09 070501 (duplicate).png");
    assert_eq!(next_attempt(1), Some(2));
    assert_eq!(next_attempt(9_999), Some(10_000));
    assert_eq!(next_attempt(10_000), None);
}

#[test]
fn screenshot_names_agree_with_padded_formatting() {
    for value in [0_u16, 1, 9, 10, 99, 100, 999, 1_000, 9_999, 10_000, 65_535] {
        let time = LocalTime {
            year: value,
            month: value,
            day: 5,
            hour: 23,
            minute: 59,
            second: value,
        };
        assert_eq!(
            screenshot_name(time, 1),
            format!(
                "Screenshot {:04}-{:02}-{:02} {:02}{:02}{:02}.png",
                value, value, 5, 23, 59, value
            )
        );
    }
}
