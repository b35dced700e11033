//! What is captured, and what a capture gives back.

use vstd::prelude::*;

use crate::error::CaptureError;
use crate::geometry::{Edges, ScreenRect};
use crate::text::{eq_ignore_ascii_case, equal_ignoring_ascii_case, same_text};

verus! {


/// A monitor that is shared from this computer.
#[derive(Clone, Copy, Debug, PartialEq, Eq, Structural)]
pub struct LocalMonitorCaptureTarget {
    pub monitor_handle: isize,
    pub screen_rect: ScreenRect,
}

/// A monitor of this computer.
#[derive(Clone, Copy, Debug, PartialEq, Eq, Structural)]
pub struct MonitorCandidate {
    pub handle: isize,
    pub screen_rect: ScreenRect,
}

/// A window whose content is captured.
#[derive(Debug, PartialEq, Eq)]
pub struct CaptureTarget {
    pub id: u32,
    pub title: String,
    pub app_name: String,
}

impl Clone for CaptureTarget {
    fn clone(&self) -> (result: Self)
        ensures
            result == *self,
    {
        CaptureTarget {
            id: self.id,
            title: self.title.clone(),
            app_name: self.app_name.clone(),
        }
    }
}

impl CaptureTarget {
    /// The two targets agree in everything that is known of them.
    pub open spec fn same_as(&self, other: &CaptureTarget) -> bool {
        self.id == other.id && self.title@ == other.title@ && self.app_name@ == other.app_name@
    }

    pub fn is_same(&self, other: &CaptureTarget) -> (result: bool)
        ensures
            result == self.same_as(other),
    {
        self.id == other.id && same_text(self.title.as_str(), other.title.as_str()) && same_text(
            self.app_name.as_str(),
            other.app_name.as_str(),
        )
    }
}

/// What a successful capture showed. Times are in nanoseconds.
#[derive(Clone, Copy, Debug, PartialEq, Eq, Structural)]
pub struct CaptureReceipt {
    pub screen_rect: ScreenRect,
    pub target_window_id: Option<u32>,
    pub latency: u64,
    pub frame_age: u64,
}

/// Where frames come from.
#[derive(Clone, Copy, Debug, PartialEq, Eq, Structural)]
pub enum CaptureSource {
    /// The Teams window in which somebody else's content is shown.
    RemoteTeamsWindow(u32),
    /// The monitor that is shared from here.
    LocalMonitor(LocalMonitorCaptureTarget),
}

/// What the window system says of a remote target.
#[derive(Clone, Copy, Debug, PartialEq, Eq, Structural)]
pub struct TargetState {
    pub exists: bool,
    pub minimized: bool,
}

impl CaptureSource {
    pub open spec fn window(self) -> Option<u32> {
        match self {
            CaptureSource::RemoteTeamsWindow(id) => Some(id),
            CaptureSource::LocalMonitor(_) => None,
        }
    }

    pub fn remote_target_id(&self) -> (result: Option<u32>)
        ensures
            result == self.window(),
    {
        match self {
            CaptureSource::RemoteTeamsWindow(target_id) => Some(*target_id),
            CaptureSource::LocalMonitor(_) => None,
        }
    }

    pub fn is_local_monitor(&self) -> (result: bool)
        ensures
            result == (self is LocalMonitor),
            result == (self.window() is None),
    {
        match self {
            CaptureSource::RemoteTeamsWindow(_) => false,
            CaptureSource::LocalMonitor(_) => true,
        }
    }

    /// The source can be captured while its window is in this state.
    pub open spec fn accepts(self, target: TargetState) -> bool {
        self is LocalMonitor || (target.exists && !target.minimized)
    }

    /// Why the source cannot be captured.
    pub open spec fn objection(self, target: TargetState) -> CaptureError {
        if !target.exists {
            CaptureError::TargetMissing
        } else {
            CaptureError::TargetMinimized
        }
    }

    /// A remote window has to exist and must not be minimized. A monitor has no
    /// such condition.
    pub fn validate_remote_target(&self, target: TargetState) -> (result: Result<(), CaptureError>)
        ensures
            result == if self.accepts(target) {
                Ok::<(), CaptureError>(())
            } else {
                Err::<(), CaptureError>(self.objection(target))
            },
    {
        if self.is_local_monitor() {
            return Ok(());
        }
        if !target.exists {
            return Err(CaptureError::TargetMissing);
        }
        if target.minimized {
            return Err(CaptureError::TargetMinimized);
        }
        Ok(())
    }
}

/// What was read of a top-level window that may be a sharing border. `None` stands
/// for a property that could not be read.
#[derive(Debug)]
pub struct BorderReport {
    pub visible: bool,
    pub topmost: bool,
    pub class_name: String,
    pub excluded_from_capture: Option<bool>,
    pub cloaked: Option<bool>,
    /// File name of the program that owns the window.
    pub process_name: Option<String>,
    pub bounds: Option<Edges>,
}

/// The file name is that of the Teams program.
pub open spec fn is_teams_program(name: Option<String>) -> bool {
    name is Some && equal_ignoring_ascii_case(name->0@, "ms-teams.exe"@)
}

/// Whether a process belongs to Teams, by the file name of its program.
pub fn process_is_teams(name: &Option<String>) -> (result: bool)
    ensures
        result == is_teams_program(*name),
{
    match name {
        Some(name) => eq_ignore_ascii_case(name.as_str(), "ms-teams.exe"),
        None => false,
    }
}

impl BorderReport {
    /// The window is the border that Teams draws round a shared monitor.
    pub open spec fn is_teams_border(&self) -> bool {
        &&& self.visible
        &&& self.topmost
        &&& equal_ignoring_ascii_case(self.class_name@, "ScreenBorderWindow"@)
        &&& self.excluded_from_capture == Some(true)
        &&& self.cloaked == Some(false)
        &&& is_teams_program(self.process_name)
    }

    /// The rectangle of a verified border.
    pub open spec fn border(&self) -> Option<ScreenRect> {
        if self.is_teams_border() && self.bounds is Some {
            crate::geometry::screen_rect_of(self.bounds->0)
        } else {
            None
        }
    }

    /// Judges a top-level window.
    pub fn teams_border(&self) -> (result: Option<ScreenRect>)
        ensures
            result == self.border(),
    {
        if !self.visible || !self.topmost {
            return None;
        }
        if !eq_ignore_ascii_case(self.class_name.as_str(), "ScreenBorderWindow") {
            return None;
        }
        match self.excluded_from_capture {
            Some(true) => {},
            _ => {
                return None;
            },
        }
        match self.cloaked {
            Some(false) => {},
            _ => {
                return None;
            },
        }
        if !process_is_teams(&self.process_name) {
            return None;
        }
        match self.bounds {
            Some(bounds) => crate::geometry::screen_rect_from_rect(bounds),
            None => None,
        }
    }
}

/// The monitor at `at` is the only one with this rectangle.
pub open spec fn is_only_match(
    monitors: Seq<MonitorCandidate>,
    border: ScreenRect,
    at: int,
) -> bool {
    &&& 0 <= at < monitors.len()
    &&& forall|k: int|
        0 <= k < monitors.len() ==> ((#[trigger] monitors[k]).screen_rect == border) == (k == at)
}

/// The shared monitor: the one whose rectangle is that of the only border. More
/// than one border, or more than one such monitor, selects none.
pub fn select_monitor_target(borders: &[ScreenRect], monitors: &[MonitorCandidate]) -> (result:
    Option<LocalMonitorCaptureTarget>)
    ensures
        match result {
            Some(target) => borders@.len() == 1 && exists|at: int|
                {
                    &&& #[trigger] is_only_match(monitors@, borders@[0], at)
                    &&& target.monitor_handle == monitors@[at].handle
                    &&& target.screen_rect == monitors@[at].screen_rect
                },
            None => borders@.len() != 1 || forall|at: int|
                !#[trigger] is_only_match(monitors@, borders@[0], at),
        },
{
    if borders.len() != 1 {
        return None;
    }
    let border = borders[0];
    let mut found: Option<usize> = None;
    let mut i: usize = 0;
    while i < monitors.len()
        invariant
            i <= monitors.len(),
            borders@.len() == 1,
            border == borders@[0],
            match found {
                Some(at) => at < i && monitors@[at as int].screen_rect == border && forall|k: int|
                    0 <= k < i && k != at ==> (#[trigger] monitors@[k]).screen_rect != border,
                None => forall|k: int|
                    0 <= k < i ==> (#[trigger] monitors@[k]).screen_rect != border,
            },
        decreases monitors.len() - i,
    {
        if monitors[i].screen_rect == border {
            if let Some(first) = found {
                assert forall|at: int| !#[trigger] is_only_match(monitors@, border, at) by {
                    if is_only_match(monitors@, border, at) {
                        assert(monitors@[first as int].screen_rect == border);
                        assert(monitors@[i as int].screen_rect == border);
                    }
                }
                return None;
            }
            found = Some(i);
        }
        i += 1;
    }
    match found {
        Some(at) => {
            assert(is_only_match(monitors@, border, at as int));
            Some(
                LocalMonitorCaptureTarget {
                    monitor_handle: monitors[at].handle,
                    screen_rect: monitors[at].screen_rect,
                },
            )
        },
        None => {
            assert forall|at: int| !#[trigger] is_only_match(monitors@, border, at) by {
                if is_only_match(monitors@, border, at) {
                    assert(monitors@[at].screen_rect == border);
                }
            }
            None
        },
    }
}

/// The selected monitor is the only one that the borders and monitors allow.
pub proof fn law_monitor_selection_is_unique(
    monitors: Seq<MonitorCandidate>,
    border: ScreenRect,
    first: int,
    second: int,
)
    requires
        is_only_match(monitors, border, first),
        is_only_match(monitors, border, second),
    ensures
        first == second,
{
    assert((monitors[second].screen_rect == border) == (second == first));
}

/// Whether the monitor that is shared now is the expected one.
pub fn is_expected_monitor(
    detected: Option<LocalMonitorCaptureTarget>,
    expected: LocalMonitorCaptureTarget,
) -> (result: bool)
    ensures
        result == (detected == Some(expected)),
{
    match detected {
        Some(detected) => detected == expected,
        None => false,
    }
}

/// A monitor can always be captured; a window only while it exists and is not minimized, and
/// otherwise just that is objected.
pub proof fn law_windows_have_to_be_there(source: CaptureSource, target: TargetState)
    ensures
        source is LocalMonitor ==> source.accepts(target) && source.window() is None,
        source is RemoteTeamsWindow ==> source.window() == Some(source->RemoteTeamsWindow_0),
        source is RemoteTeamsWindow ==> source.accepts(target) == (target.exists
            && !target.minimized),
        !target.exists ==> source.objection(target) == CaptureError::TargetMissing,
        target.exists && target.minimized ==> source.objection(target)
            == CaptureError::TargetMinimized,
{
}

/// Only a visible window on top of all others, of Teams' class for borders, kept out of
/// captures, not cloaked and owned by Teams, is a border; where anything of that is unknown
/// it is none. Its place is that of its edges.
pub proof fn law_borders_are_known_for_sure(report: BorderReport)
    ensures
        report.border() is Some ==> {
            &&& report.visible
            &&& report.topmost
            &&& equal_ignoring_ascii_case(report.class_name@, "ScreenBorderWindow"@)
            &&& report.excluded_from_capture == Some(true)
            &&& report.cloaked == Some(false)
            &&& report.process_name is Some
            &&& equal_ignoring_ascii_case(report.process_name->0@, "ms-teams.exe"@)
            &&& report.bounds is Some
            &&& report.border()->0.x == report.bounds->0.left
            &&& report.border()->0.y == report.bounds->0.top
            &&& report.border()->0.x + report.border()->0.width == report.bounds->0.right
            &&& report.border()->0.y + report.border()->0.height == report.bounds->0.bottom
        },
        report.visible && report.topmost && equal_ignoring_ascii_case(
            report.class_name@,
            "ScreenBorderWindow"@,
        ) && report.excluded_from_capture == Some(true) && report.cloaked == Some(false)
            && report.process_name is Some && equal_ignoring_ascii_case(
            report.process_name->0@,
            "ms-teams.exe"@,
        ) && report.bounds is Some && crate::geometry::screen_rect_of(report.bounds->0) is Some
            ==> report.border() is Some,
{
    if report.border() is Some {
        crate::geometry::law_screen_rectangles_keep_their_edges(report.bounds->0);
    }
}

/// A monitor is the shared one where its rectangle is that of the border and no other
/// monitor has it; a second one with that rectangle leaves none.
pub proof fn law_shared_monitors_stand_alone(
    monitors: Seq<MonitorCandidate>,
    border: ScreenRect,
    at: int,
    other: int,
)
    requires
        0 <= at < monitors.len(),
        0 <= other < monitors.len(),
        monitors[at].screen_rect == border,
    ensures
        is_only_match(monitors, border, at) <==> forall|k: int|
            0 <= k < monitors.len() && k != at ==> (#[trigger] monitors[k]).screen_rect != border,
        monitors[other].screen_rect != border ==> !is_only_match(monitors, border, other),
        monitors[other].screen_rect == border && other != at ==> !is_only_match(
            monitors,
            border,
            at,
        ) && !is_only_match(monitors, border, other),
{
    if monitors[other].screen_rect == border && other != at {
        assert(monitors[at].screen_rect == border);
    }
}

/// Targets are the same where their numbers, titles and programs are.
pub proof fn law_same_targets_agree_in_everything(left: CaptureTarget, right: CaptureTarget)
    ensures
        left.same_as(&right) <==> left.id == right.id && left.title@ == right.title@
            && left.app_name@ == right.app_name@,
        left.same_as(&right) == right.same_as(&left),
        left.same_as(&left),
{
}

} // verus!
