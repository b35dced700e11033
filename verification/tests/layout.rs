use snapbar::content::AuthoritativeCandidate;
use snapbar::error::CaptureError;
use snapbar::geometry::{PixelRect, ScreenRect, WindowGeometry};
use snapbar::layout::{
    confirm_layout, layout_answer, Pending, RemoteLayout, Request, Resolver, ResolverStep, Work,
    VERIFY_TIMEOUT, WATCHDOG,
};
use snapbar::locator::{
    requires_discovery, ContentLocator, DiscoveryStep, LocateStep, DISCOVERY_WATCHDOG,
};

const MS: u64 = 1_000_000;
const NOW: u64 = 100_000 * MS;

fn request(phase: &str, queued: u64) -> Request {
    Request { id: 1, width: 100, height: 100, phase: phase.to_string(), queued }
}

#[test]
fn event_storm_does_not_displace_capture_and_capture_precedes_frame() {
    let mut pending = Pending::new();
    for _ in 0..10_000 {
        pending.changed(true);
        pending.changed(false);
    }
    let now = NOW;
    pending.frame.push_back(request("frame", now));
    pending.capture.push_back(request("preflight", now));
    assert_eq!(pending.next(now).unwrap().phase, "preflight");
    assert_eq!(pending.next(now).unwrap().phase, "frame");
    assert!(pending.next(now).is_none());
    assert_eq!((pending.structure, pending.properties), (10_000, 10_000));
}

#[test]
fn expired_requests_are_skipped_before_uia_work() {
    let now = NOW;
    let mut pending = Pending::new();
    pending.capture.push_back(request("expired", now - VERIFY_TIMEOUT));
    pending.frame.push_back(request("frame", now));
    assert_eq!(pending.next(now).unwrap().phase, "frame");
    assert!(pending.next(now).is_none());
    let expired = pending.take_expired();
    assert_eq!(expired.len(), 1);
    assert_eq!(expired[0].phase, "expired");
    assert!(pending.take_expired().is_empty());
}

#[test]
fn audit_stability_wait_yields_to_requests_and_resumes_when_due() {
    let now = NOW;
    let resume = now + 35 * MS;
    let mut pending = Pending::new();
    assert!(matches!(pending.poll(now, resume), Work::Wait(wait) if wait == 35 * MS));
    pending.capture.push_back(request("preflight", now));
    assert!(matches!(pending.poll(now, resume), Work::Request(_)));
    // Even a due second scan must yield to a request that arrived meanwhile.
    pending.capture.push_back(request("output", now));
    assert!(matches!(pending.poll(resume, resume), Work::Request(_)));
    assert!(matches!(pending.poll(resume, resume), Work::Background));
}

#[test]
fn checks_are_refused_where_too_many_wait_or_the_worker_stops() {
    let mut pending = Pending::new();
    assert!(pending.enqueue(request("preflight", NOW)).is_ok());
    assert!(pending.enqueue(request("output", NOW)).is_ok());
    assert!(matches!(
        pending.enqueue(request("output", NOW)),
        Err(CaptureError::ResolverBusy)
    ));
    assert!(pending.enqueue(request("frame", NOW)).is_ok());
    assert!(pending.enqueue(request("frame", NOW)).is_ok());
    assert!(matches!(pending.enqueue(request("frame", NOW)), Err(CaptureError::ResolverBusy)));
    assert_eq!((pending.capture.len(), pending.frame.len()), (2, 2));
    pending.stop = true;
    assert!(matches!(
        pending.enqueue(request("frame", NOW)),
        Err(CaptureError::ResolverStopped)
    ));
}

#[test]
fn only_the_first_change_wakes_the_worker() {
    let mut pending = Pending::new();
    assert!(pending.changed(false));
    assert!(!pending.changed(true));
    assert!(!pending.changed(false));
    pending.structure = u64::MAX;
    pending.changed(true);
    assert_eq!(pending.structure, u64::MAX);
}

#[test]
fn the_worker_answers_checks_before_it_audits() {
    let mut pending = Pending::new();
    let mut resolver = Resolver::new(NOW);
    assert!(matches!(
        resolver.step(&mut pending, NOW + 50 * MS, None),
        ResolverStep::Wait(wait) if wait == WATCHDOG - 50 * MS
    ));
    pending.changed(true);
    pending.enqueue(request("frame", NOW)).unwrap();
    let due = NOW + WATCHDOG;
    match resolver.step(&mut pending, due, None) {
        ResolverStep::Verify(request) => assert_eq!(request.phase, "frame"),
        _ => panic!("a check waits"),
    }
    assert_eq!(pending.structure, 1);
    assert!(matches!(
        resolver.step(&mut pending, due, None),
        ResolverStep::Background(Some((100, 100)))
    ));
    assert_eq!(pending.structure, 0);
    resolver.background_done(due);
    assert!(matches!(
        resolver.step(&mut pending, due, Some(due + 7)),
        ResolverStep::Wait(7)
    ));
    pending.stop = true;
    assert!(matches!(resolver.step(&mut pending, due, None), ResolverStep::Stop));
}

#[test]
fn answers_are_waited_for_until_the_check_expires() {
    let request = request("output", NOW);
    assert_eq!(request.remaining_wait(NOW + 200 * MS), 1_000 * MS);
    assert_eq!(request.remaining_wait(NOW + 2_000 * MS), 0);
    assert!(matches!(layout_answer(None), Err(CaptureError::ResolverTimeout)));
    assert_eq!(
        layout_answer(Some(Err("failed".to_string()))).unwrap_err().message(),
        "failed"
    );
}

fn geometry() -> WindowGeometry {
    WindowGeometry::from_screen_rect(ScreenRect { x: 0, y: 0, width: 800, height: 600 }, 800, 600)
}

fn candidate(x: u32) -> AuthoritativeCandidate {
    AuthoritativeCandidate { rect: PixelRect::new(x, 50, 600, 400), rank: 45 }
}

#[test]
fn a_layout_counts_only_if_the_window_stood_still() {
    let rect = PixelRect::new(1, 2, 3, 4);
    let confirmed = confirm_layout(geometry(), rect, 5, geometry(), 5).unwrap();
    assert_eq!(
        confirmed,
        RemoteLayout { geometry: geometry(), content_rect: rect, revision: 5 }
    );
    assert_eq!(layout_answer(Some(Ok(confirmed))).unwrap(), confirmed);
    let moved = WindowGeometry { screen_left: 1, ..geometry() };
    assert!(matches!(
        confirm_layout(geometry(), rect, 5, moved, 5),
        Err(CaptureError::LayoutMovedDuringCheck)
    ));
    assert!(matches!(
        confirm_layout(geometry(), rect, 5, geometry(), 6),
        Err(CaptureError::LayoutMovedDuringCheck)
    ));
}

#[test]
fn unchanged_identity_does_not_require_full_discovery_on_capture() {
    assert!(!requires_discovery(true, true, false));
}

#[test]
fn changes_lost_subscriptions_and_watchdog_force_discovery() {
    assert!(requires_discovery(true, false, false));
    assert!(requires_discovery(false, true, false));
    assert!(requires_discovery(true, true, true));
}

#[test]
fn content_is_discovered_by_two_looks_that_agree() {
    let mut locator = ContentLocator::new(true);
    assert_eq!(locator.locate(geometry(), false, NOW), LocateStep::Discover);
    let mut discovery = locator.discover(geometry());
    assert!(matches!(discovery.scanned(None), DiscoveryStep::WakeProvider));
    assert!(matches!(discovery.scanned(Some(candidate(100))), DiscoveryStep::Settle));
    let (first, second) = match discovery.scanned(Some(candidate(103))) {
        DiscoveryStep::Compare(first, second) => (first, second),
        _ => panic!("two looks are compared"),
    };
    let found = locator.conclude(discovery, first, second, true, false, NOW).unwrap();
    assert_eq!(found, (candidate(103).rect, 1));
    assert_eq!(locator.last_discovery, Some(NOW));

    let located = match locator.locate(geometry(), true, NOW + MS) {
        LocateStep::Refresh(located) => located,
        LocateStep::Discover => panic!("nothing changed"),
    };
    assert_eq!(
        locator.locate(geometry(), true, NOW + DISCOVERY_WATCHDOG),
        LocateStep::Discover
    );
    assert!(matches!(
        locator.locate(geometry(), false, NOW + DISCOVERY_WATCHDOG),
        LocateStep::Refresh(_)
    ));
    assert_eq!(locator.refreshed(located, Some(candidate(103))), Some(found));
    assert_eq!(locator.refreshed(located, Some(candidate(104))), None);
    assert!(!locator.is_current(1));
    assert_eq!(locator.locate(geometry(), false, NOW), LocateStep::Discover);
}

#[test]
fn other_content_gets_another_revision() {
    let mut locator = ContentLocator::new(true);
    let discovery = locator.discover(geometry());
    locator.conclude(discovery, candidate(1), candidate(1), true, false, NOW).unwrap();
    let discovery = locator.discover(geometry());
    let again = locator.conclude(discovery, candidate(1), candidate(1), true, true, NOW);
    assert_eq!(again.unwrap().1, 1);
    let discovery = locator.discover(geometry());
    let other = locator.conclude(discovery, candidate(1), candidate(1), true, false, NOW);
    assert_eq!(other.unwrap().1, 2);
    let discovery = locator.discover(geometry());
    locator.signal();
    let changed = locator.conclude(discovery, candidate(1), candidate(1), true, true, NOW);
    assert!(matches!(changed, Err(CaptureError::ContentUpdating)));
    assert!(locator.selected.is_none());
    assert!(locator.is_current(4));
    locator.revision = u64::MAX;
    locator.abandon(NOW);
    assert!(locator.is_current(0));
}

#[test]
fn a_search_that_finds_nothing_fails() {
    let locator = ContentLocator::new(false);
    let mut discovery = locator.discover(geometry());
    discovery.scanned(None);
    assert!(matches!(
        discovery.scanned(None),
        DiscoveryStep::Failed(CaptureError::ContentNotFound)
    ));
    let mut discovery = locator.discover(geometry());
    discovery.scanned(Some(candidate(1)));
    assert!(matches!(
        discovery.scanned(None),
        DiscoveryStep::Failed(CaptureError::ContentNotSettled)
    ));
}
