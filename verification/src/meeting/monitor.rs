//! The meeting monitor: when it looks, and what it reports.

use vstd::prelude::*;

use crate::meeting::debounce::{DebouncedMeetingState, MeetingEvidence};
use crate::meeting::scan::TeamsScan;
use crate::meeting::toolbar::{PresenterToolbarEvidence, PresenterToolbarState};
use crate::numeric::{max_int, max_u64, min_int, min_u64, CLOCK_LIMIT};
use crate::source::{CaptureTarget, LocalMonitorCaptureTarget};

verus! {

/// Longest pause between two looks, in nanoseconds.
pub const WATCHDOG_INTERVAL: u64 = 700_000_000;

/// Shortest pause between two looks, in nanoseconds.
pub const MIN_SCAN_INTERVAL: u64 = 100_000_000;

/// What is known of the meeting.
#[derive(Debug, PartialEq, Eq)]
pub struct MeetingSnapshot {
    /// Grows with every change.
    pub generation: u64,
    pub target: Option<CaptureTarget>,
    pub minimized: bool,
    pub shared_content_hint: bool,
    pub presenter_toolbar_id: Option<u32>,
    pub local_share_active: bool,
    pub local_monitor_target: Option<LocalMonitorCaptureTarget>,
}

impl Default for MeetingSnapshot {
    fn default() -> (result: Self)
        ensures
            result == (MeetingSnapshot {
                generation: 0,
                target: None,
                minimized: false,
                shared_content_hint: false,
                presenter_toolbar_id: None,
                local_share_active: false,
                local_monitor_target: None,
            }),
    {
        MeetingSnapshot {
            generation: 0,
            target: None,
            minimized: false,
            shared_content_hint: false,
            presenter_toolbar_id: None,
            local_share_active: false,
            local_monitor_target: None,
        }
    }
}

impl Clone for MeetingSnapshot {
    fn clone(&self) -> (result: Self)
        ensures
            result == *self,
    {
        MeetingSnapshot {
            generation: self.generation,
            target: match &self.target {
                Some(target) => Some(target.clone()),
                None => None,
            },
            minimized: self.minimized,
            shared_content_hint: self.shared_content_hint,
            presenter_toolbar_id: self.presenter_toolbar_id,
            local_share_active: self.local_share_active,
            local_monitor_target: self.local_monitor_target,
        }
    }
}

/// What one look has come to.
#[derive(Debug)]
pub struct MonitorFindings {
    pub active: Option<MeetingEvidence>,
    pub presenter_toolbar: Option<u32>,
    pub local_share_active: bool,
}

/// The targets are both absent, or agree.
pub open spec fn same_target(left: Option<CaptureTarget>, right: Option<CaptureTarget>) -> bool {
    match (left, right) {
        (None, None) => true,
        (Some(left), Some(right)) => left.same_as(&right),
        _ => false,
    }
}

fn targets_agree(left: &Option<CaptureTarget>, right: &Option<CaptureTarget>) -> (result: bool)
    ensures
        result == same_target(*left, *right),
{
    match (left, right) {
        (None, None) => true,
        (Some(left), Some(right)) => left.is_same(right),
        _ => false,
    }
}

impl MonitorFindings {
    /// The snapshot that these findings and the shared monitor give.
    pub open spec fn snapshot(
        &self,
        generation: u64,
        local_monitor_target: Option<LocalMonitorCaptureTarget>,
    ) -> MeetingSnapshot {
        MeetingSnapshot {
            generation,
            target: match self.active {
                Some(meeting) => Some(meeting.target),
                None => None,
            },
            minimized: self.active is Some && self.active->0.minimized,
            shared_content_hint: self.active is Some && self.active->0.has_shared_content,
            presenter_toolbar_id: self.presenter_toolbar,
            local_share_active: self.local_share_active,
            local_monitor_target: if self.local_share_active {
                local_monitor_target
            } else {
                None
            },
        }
    }

    /// Sharing from here is seen on a toolbar.
    pub open spec fn is_coherent(&self) -> bool {
        self.local_share_active ==> self.presenter_toolbar is Some
    }
}

impl MeetingSnapshot {
    /// A shared monitor is known only while something is shared from here, and that is seen
    /// on a toolbar.
    pub open spec fn is_coherent(&self) -> bool {
        &&& self.local_monitor_target is Some ==> self.local_share_active
        &&& self.local_share_active ==> self.presenter_toolbar_id is Some
    }

    /// The snapshots agree in everything but their generation.
    pub open spec fn agrees_with(&self, other: &MeetingSnapshot) -> bool {
        &&& same_target(self.target, other.target)
        &&& self.minimized == other.minimized
        &&& self.shared_content_hint == other.shared_content_hint
        &&& self.presenter_toolbar_id == other.presenter_toolbar_id
        &&& self.local_share_active == other.local_share_active
        &&& self.local_monitor_target == other.local_monitor_target
    }

    pub open spec fn next_generation(&self) -> u64 {
        if self.generation == u64::MAX {
            0
        } else {
            (self.generation + 1) as u64
        }
    }

    /// Takes over new findings. The generation grows exactly where something changed, and
    /// that is what is returned. A shared monitor counts only while something is shared from
    /// here.
    pub fn refresh(
        &mut self,
        findings: &MonitorFindings,
        local_monitor_target: Option<LocalMonitorCaptureTarget>,
    ) -> (result: bool)
        ensures
            result == !old(self).agrees_with(
                &findings.snapshot(old(self).generation, local_monitor_target),
            ),
            *final(self) == if result {
                findings.snapshot(old(self).next_generation(), local_monitor_target)
            } else {
                *old(self)
            },
            result == (final(self).generation != old(self).generation),
            old(self).is_coherent() && findings.is_coherent() ==> final(self).is_coherent(),
    {
        let local_monitor: Option<LocalMonitorCaptureTarget> = if findings.local_share_active {
            local_monitor_target
        } else {
            None
        };
        let target = match &findings.active {
            Some(meeting) => Some(meeting.target.clone()),
            None => None,
        };
        let minimized = match &findings.active {
            Some(meeting) => meeting.minimized,
            None => false,
        };
        let shared = match &findings.active {
            Some(meeting) => meeting.has_shared_content,
            None => false,
        };
        let same_toolbar = match (self.presenter_toolbar_id, findings.presenter_toolbar) {
            (None, None) => true,
            (Some(left), Some(right)) => left == right,
            _ => false,
        };
        let same_monitor = match (self.local_monitor_target, local_monitor) {
            (None, None) => true,
            (Some(left), Some(right)) => left == right,
            _ => false,
        };
        if targets_agree(&self.target, &target) && self.minimized == minimized
            && self.shared_content_hint == shared && same_toolbar && self.local_share_active
            == findings.local_share_active && same_monitor {
            return false;
        }
        self.generation = self.generation.wrapping_add(1);
        self.target = target;
        self.minimized = minimized;
        self.shared_content_hint = shared;
        self.presenter_toolbar_id = findings.presenter_toolbar;
        self.local_share_active = findings.local_share_active;
        self.local_monitor_target = local_monitor;
        true
    }
}

/// What is known stays coherent: a look that shows sharing from here sees a toolbar, and a
/// shared monitor is kept only while that is so. Two snapshots of the same generation are
/// the same.
pub proof fn law_snapshots_stay_coherent(
    before: MeetingSnapshot,
    findings: MonitorFindings,
    local_monitor_target: Option<LocalMonitorCaptureTarget>,
)
    requires
        before.is_coherent(),
        findings.is_coherent(),
    ensures
        ({
            let seen = findings.snapshot(before.next_generation(), local_monitor_target);
            let after = if before.agrees_with(
                &findings.snapshot(before.generation, local_monitor_target),
            ) {
                before
            } else {
                seen
            };
            &&& after.is_coherent()
            &&& after.generation == before.generation ==> after == before
        }),
{
}

/// A second look with the same findings changes nothing.
pub proof fn law_unchanged_findings_keep_the_generation(
    findings: MonitorFindings,
    generation: u64,
    local_monitor_target: Option<LocalMonitorCaptureTarget>,
)
    ensures
        findings.snapshot(generation, local_monitor_target).agrees_with(
            &findings.snapshot(generation, local_monitor_target),
        ),
{
}

/// When the monitor may look again: at once where a look was asked for, otherwise at the
/// scheduled time, but never before the shortest pause is over.
pub fn scan_wake_deadline(pending: bool, not_before: u64, scheduled: u64) -> (result: u64)
    ensures
        result == if pending {
            not_before as int
        } else {
            max_int(scheduled as int, not_before as int)
        },
        result >= not_before,
{
    if pending {
        not_before
    } else {
        max_u64(scheduled, not_before)
    }
}

/// Requests for a look. Any number of them between two looks makes one.
#[derive(Clone, Copy, Debug, PartialEq, Eq, Structural)]
pub struct ScanGate {
    pub pending: bool,
}

/// What the monitor does next.
#[derive(Clone, Copy, Debug, PartialEq, Eq, Structural)]
pub enum GateStep {
    Stop,
    Scan,
    /// Wait for a request, at most this long.
    Wait(u64),
}

impl ScanGate {
    pub fn new() -> (result: Self)
        ensures
            !result.pending,
    {
        ScanGate { pending: false }
    }

    pub fn request(&mut self)
        ensures
            final(self).pending,
    {
        self.pending = true;
    }

    /// Decides whether to look at `now`. A request is kept until the look that answers
    /// it.
    pub fn poll(&mut self, stop: bool, now: u64, not_before: u64, scheduled: u64) -> (result:
        GateStep)
        ensures
            ({
                let deadline = if old(self).pending {
                    not_before as int
                } else {
                    max_int(scheduled as int, not_before as int)
                };
                &&& result == if stop {
                    GateStep::Stop
                } else if now >= deadline {
                    GateStep::Scan
                } else {
                    GateStep::Wait((deadline - now) as u64)
                }
                &&& final(self).pending == (old(self).pending && result != GateStep::Scan)
            }),
            result == GateStep::Scan ==> now >= not_before,
    {
        if stop {
            return GateStep::Stop;
        }
        let deadline: u64 = scan_wake_deadline(self.pending, not_before, scheduled);
        if now >= deadline {
            self.pending = false;
            return GateStep::Scan;
        }
        GateStep::Wait(deadline - now)
    }
}

/// The monitor between two looks.
#[derive(Debug)]
pub struct MonitorState {
    pub meeting: DebouncedMeetingState,
    pub toolbar: PresenterToolbarState,
    pub not_before: u64,
    pub scheduled: u64,
}

/// The toolbar that counts as present proves local sharing in this look.
pub open spec fn shares_locally(
    evidence: Seq<PresenterToolbarEvidence>,
    active: Option<u32>,
) -> bool {
    active is Some && first_says_share(evidence, active->0)
}

/// The first evidence of the toolbar `id` proves local sharing.
pub open spec fn first_says_share(evidence: Seq<PresenterToolbarEvidence>, id: u32) -> bool
    decreases evidence.len(),
{
    if evidence.len() == 0 {
        false
    } else if evidence.first().id == id {
        evidence.first().local_share_active
    } else {
        first_says_share(evidence.drop_first(), id)
    }
}

fn toolbar_shares(evidence: &Vec<PresenterToolbarEvidence>, id: u32) -> (result: bool)
    ensures
        result == first_says_share(evidence@, id),
{
    let mut i: usize = 0;
    assert(evidence@.skip(0) =~= evidence@);
    while i < evidence.len()
        invariant
            i <= evidence.len(),
            first_says_share(evidence@, id) == first_says_share(evidence@.skip(i as int), id),
        decreases evidence.len() - i,
    {
        assert(evidence@.skip(i as int).first() == evidence@[i as int]);
        if evidence[i].id == id {
            return evidence[i].local_share_active;
        }
        assert(evidence@.skip(i as int).drop_first() =~= evidence@.skip(i + 1));
        i += 1;
    }
    false
}

fn copy_toolbars(evidence: &Vec<PresenterToolbarEvidence>) -> (result: Vec<
    PresenterToolbarEvidence,
>)
    ensures
        result@ == evidence@,
{
    let mut copied: Vec<PresenterToolbarEvidence> = Vec::new();
    let mut i: usize = 0;
    while i < evidence.len()
        invariant
            i <= evidence.len(),
            copied@ == evidence@.take(i as int),
        decreases evidence.len() - i,
    {
        copied.push(evidence[i]);
        assert(copied@ =~= evidence@.take(i + 1));
        i += 1;
    }
    assert(copied@ =~= evidence@);
    copied
}

impl MonitorState {
    pub fn new(now: u64) -> (result: Self)
        ensures
            result.meeting == DebouncedMeetingState::outside(),
            result.toolbar == PresenterToolbarState::settled(None),
            result.not_before == now,
            result.scheduled == now,
            result.well_timed(),
    {
        MonitorState {
            meeting: DebouncedMeetingState::default(),
            toolbar: PresenterToolbarState::default(),
            not_before: now,
            scheduled: now,
        }
    }

    pub open spec fn well_timed(&self) -> bool {
        self.meeting.well_timed() && self.toolbar.well_timed()
    }

    /// Takes what a look at `now` found. `active_minimized` says that the window of the
    /// meeting joined before is minimized.
    pub fn absorb(&mut self, now: u64, scan: TeamsScan, active_minimized: bool) -> (result:
        MonitorFindings)
        ensures
            ({
                let meeting = old(self).meeting.updated(now, scan.meetings@, active_minimized);
                let toolbar = old(self).toolbar.updated(now, scan.presenter_toolbars@);
                &&& final(self).meeting == meeting.0
                &&& final(self).toolbar == toolbar
                &&& result.active == meeting.1
                &&& result.presenter_toolbar == toolbar.active
                &&& result.local_share_active == shares_locally(
                    scan.presenter_toolbars@,
                    toolbar.active,
                )
            }),
            result.is_coherent(),
            final(self).not_before == old(self).not_before,
            final(self).scheduled == old(self).scheduled,
            old(self).well_timed() && now <= CLOCK_LIMIT ==> final(self).well_timed(),
    {
        let active = self.meeting.update(now, scan.meetings, active_minimized);
        let toolbars = copy_toolbars(&scan.presenter_toolbars);
        let presenter_toolbar = self.toolbar.update(now, toolbars);
        let local_share_active = match presenter_toolbar {
            Some(id) => toolbar_shares(&scan.presenter_toolbars, id),
            None => false,
        };
        MonitorFindings { active, presenter_toolbar, local_share_active }
    }

    /// When the monitor looks next after a look that ended at `finished`: when something
    /// has to be confirmed, and at the latest after the longest pause.
    pub open spec fn next_look(&self, finished: u64) -> int {
        let watchdog = finished + WATCHDOG_INTERVAL;
        let meeting = match self.meeting.deadline() {
            Some(deadline) => min_int(deadline, watchdog),
            None => watchdog,
        };
        match self.toolbar.missing_since {
            Some(since) => min_int(
                since + crate::meeting::toolbar::PRESENTER_TOOLBAR_EXIT_STABLE_FOR,
                meeting,
            ),
            None => meeting,
        }
    }

    /// Sets the time of the next look.
    pub fn schedule(&mut self, finished: u64)
        requires
            old(self).well_timed(),
            finished <= CLOCK_LIMIT,
        ensures
            final(self).meeting == old(self).meeting,
            final(self).toolbar == old(self).toolbar,
            final(self).not_before == finished + MIN_SCAN_INTERVAL,
            final(self).scheduled == old(self).next_look(finished),
    {
        let watchdog: u64 = finished + WATCHDOG_INTERVAL;
        let mut next: u64 = watchdog;
        if let Some(deadline) = self.meeting.confirmation_deadline() {
            next = min_u64(deadline, next);
        }
        if let Some(deadline) = self.toolbar.confirmation_deadline() {
            next = min_u64(deadline, next);
        }
        self.not_before = finished + MIN_SCAN_INTERVAL;
        self.scheduled = next;
    }
}

/// The monitor never looks later than the longest pause after the last look, and a
/// meeting about to be joined or left is looked at as soon as it can be confirmed.
pub proof fn law_next_look_is_in_time(state: MonitorState, finished: u64)
    ensures
        state.next_look(finished) <= finished + WATCHDOG_INTERVAL,
        state.meeting.deadline() is Some ==> state.next_look(finished)
            <= state.meeting.deadline()->0,
{
}

/// What a snapshot says of a meeting is what the look found: its window, whether that is
/// minimized, and whether content is shared in it; the monitor that is shared from here only
/// while something is.
pub proof fn law_snapshots_say_what_was_found(
    findings: MonitorFindings,
    generation: u64,
    monitor: Option<LocalMonitorCaptureTarget>,
)
    ensures
        ({
            let snapshot = findings.snapshot(generation, monitor);
            &&& snapshot.generation == generation
            &&& findings.active is Some ==> snapshot.target == Some(findings.active->0.target)
                && snapshot.minimized == findings.active->0.minimized
                && snapshot.shared_content_hint == findings.active->0.has_shared_content
            &&& findings.active is None ==> snapshot.target is None && !snapshot.minimized
                && !snapshot.shared_content_hint
            &&& snapshot.presenter_toolbar_id == findings.presenter_toolbar
            &&& snapshot.local_share_active == findings.local_share_active
            &&& findings.local_share_active ==> snapshot.local_monitor_target == monitor
            &&& !findings.local_share_active ==> snapshot.local_monitor_target is None
        }),
{
}

/// Any difference between two snapshots is a change.
pub proof fn law_every_difference_is_a_change(left: MeetingSnapshot, right: MeetingSnapshot)
    ensures
        left.agrees_with(&right) ==> {
            &&& left.target is Some == (right.target is Some)
            &&& left.target is Some ==> left.target->0.id == right.target->0.id
                && left.target->0.title@ == right.target->0.title@
                && left.target->0.app_name@ == right.target->0.app_name@
            &&& left.minimized == right.minimized
            &&& left.shared_content_hint == right.shared_content_hint
            &&& left.presenter_toolbar_id == right.presenter_toolbar_id
            &&& left.local_share_active == right.local_share_active
            &&& left.local_monitor_target == right.local_monitor_target
        },
        left.agrees_with(&right) == right.agrees_with(&left),
        left.agrees_with(&left),
        left.generation < u64::MAX ==> left.next_generation() == left.generation + 1,
        left.next_generation() != left.generation,
{
}

/// Something is shared from here where the first look at the toolbar that is present says
/// so, and not without a toolbar.
pub proof fn law_sharing_is_told_by_the_toolbar(
    evidence: Seq<PresenterToolbarEvidence>,
    active: Option<u32>,
)
    ensures
        active is None ==> !shares_locally(evidence, active),
        active is Some ==> (shares_locally(evidence, active) <==> exists|k: int|
            {
                &&& 0 <= k < evidence.len()
                &&& (#[trigger] evidence[k]).id == active->0
                &&& evidence[k].local_share_active
                &&& forall|j: int| 0 <= j < k ==> (#[trigger] evidence[j]).id != active->0
            }),
    decreases evidence.len(),
{
    if active is Some && evidence.len() > 0 {
        let rest = evidence.drop_first();
        let id = active->0;
        law_sharing_is_told_by_the_toolbar(rest, active);
        if evidence.first().id == id {
            if evidence.first().local_share_active {
                assert(evidence[0].id == id);
            } else if exists|k: int|
                {
                    &&& 0 <= k < evidence.len()
                    &&& (#[trigger] evidence[k]).id == id
                    &&& evidence[k].local_share_active
                    &&& forall|j: int| 0 <= j < k ==> (#[trigger] evidence[j]).id != id
                } {
                assert(evidence[0].id == id);
            }
        } else {
            if shares_locally(rest, active) {
                let k = choose|k: int|
                    {
                        &&& 0 <= k < rest.len()
                        &&& (#[trigger] rest[k]).id == id
                        &&& rest[k].local_share_active
                        &&& forall|j: int| 0 <= j < k ==> (#[trigger] rest[j]).id != id
                    };
                assert(evidence[k + 1] == rest[k]);
                assert forall|j: int| 0 <= j < k + 1 implies (#[trigger] evidence[j]).id
                    != id by {
                    if j > 0 {
                        assert(rest[j - 1] == evidence[j]);
                    }
                }
            }
            if exists|k: int|
                {
                    &&& 0 <= k < evidence.len()
                    &&& (#[trigger] evidence[k]).id == id
                    &&& evidence[k].local_share_active
                    &&& forall|j: int| 0 <= j < k ==> (#[trigger] evidence[j]).id != id
                } {
                let k = choose|k: int|
                    {
                        &&& 0 <= k < evidence.len()
                        &&& (#[trigger] evidence[k]).id == id
                        &&& evidence[k].local_share_active
                        &&& forall|j: int| 0 <= j < k ==> (#[trigger] evidence[j]).id != id
                    };
                assert(rest[k - 1] == evidence[k]);
                assert forall|j: int| 0 <= j < k - 1 implies (#[trigger] rest[j]).id != id by {
                    assert(evidence[j + 1] == rest[j]);
                }
            }
        }
    }
}

/// The next look is at the first of three times: 0.7 s after the last one, when a meeting
/// may be joined or left, and 0.45 s after a toolbar went missing.
pub proof fn law_the_next_look_is_the_first_that_is_due(state: MonitorState, finished: u64)
    ensures
        ({
            let next = state.next_look(finished);
            let meeting = state.meeting.deadline();
            let toolbar = state.toolbar.missing_since;
            &&& next <= finished + 700_000_000
            &&& meeting is Some ==> next <= meeting->0
            &&& toolbar is Some ==> next <= toolbar->0 + 450_000_000
            &&& next == finished + 700_000_000 || (meeting is Some && next == meeting->0) || (
            toolbar is Some && next == toolbar->0 + 450_000_000)
        }),
{
}

} // verus!
