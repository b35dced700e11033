use snapbar::meeting::process_names::{lookup_cached_name, ProcessNameCache};
use std::cell::Cell;
use std::collections::HashMap;

#[test]
fn same_process_creation_uses_loader_once() {
    let mut entries = HashMap::new();
    let loads = Cell::new(0);
    assert_eq!(
        lookup_cached_name(&mut entries, 7, 11, || {
            loads.set(loads.get() + 1);
            "teams.exe".to_string()
        }),
        "teams.exe"
    );
    assert_eq!(
        lookup_cached_name(&mut entries, 7, 11, || {
            loads.set(loads.get() + 1);
            "reloaded.exe".to_string()
        }),
        "teams.exe"
    );
    assert_eq!(loads.get(), 1);
}

#[test]
fn changed_creation_time_reloads_name() {
    let mut entries = HashMap::new();
    let loads = Cell::new(0);
    assert_eq!(
        lookup_cached_name(&mut entries, 7, 11, || {
            loads.set(loads.get() + 1);
            "old.exe".to_string()
        }),
        "old.exe"
    );
    assert_eq!(
        lookup_cached_name(&mut entries, 7, 22, || {
            loads.set(loads.get() + 1);
            "new.exe".to_string()
        }),
        "new.exe"
    );
    assert_eq!(loads.get(), 2);
    assert_eq!(entries.get(&7), Some(&(22, "new.exe".to_string())));
}

#[test]
fn empty_result_is_not_cached_and_retries() {
    let mut entries = HashMap::new();
    let loads = Cell::new(0);
    assert_eq!(
        lookup_cached_name(&mut entries, 7, 11, || {
            loads.set(loads.get() + 1);
            String::new()
        }),
        ""
    );
    assert_eq!(
        lookup_cached_name(&mut entries, 7, 11, || {
            loads.set(loads.get() + 1);
            "teams.exe".to_string()
        }),
        "teams.exe"
    );
    assert_eq!(loads.get(), 2);
}

#[test]
fn only_processes_with_windows_are_kept() {
    let mut cache = ProcessNameCache::new();
    for pid in [1, 2, 3] {
        let name = cache.app_name(Some((pid, 5)), || format!("p{pid}"));
        assert_eq!(name, format!("p{pid}"));
    }
    assert_eq!(cache.app_name(None, || "unknown".to_string()), "unknown");
    cache.retain_processes(&vec![3, 1, 3, 9]);
    let mut left: Vec<u32> = cache.entries.keys().copied().collect();
    left.sort();
    assert_eq!(left, vec![1, 3]);
    assert_eq!(cache.app_name(Some((1, 5)), || "again".to_string()), "p1");
    assert_eq!(cache.app_name(Some((2, 5)), || "again".to_string()), "again");
}
