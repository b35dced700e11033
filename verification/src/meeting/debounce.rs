//! When a meeting counts as joined and as left.

use vstd::prelude::*;

use crate::numeric::{elapsed, elapsed_since, min_int, CLOCK_LIMIT};
use crate::source::CaptureTarget;

verus! {

/// How long strong evidence has to last before a meeting is joined, in nanoseconds.
pub const ENTRY_STABLE_FOR: u64 = 250_000_000;

/// How long weak evidence has to last before a meeting is joined, in nanoseconds.
pub const ENTRY_FALLBACK_STABLE_FOR: u64 = 1_100_000_000;

/// How long a meeting has to be missing before it is left, in nanoseconds.
pub const EXIT_STABLE_FOR: u64 = 1_400_000_000;

/// How many looks have to see a meeting before it is joined.
pub const REQUIRED_ENTRY_SCANS: u8 = 2;

/// How many looks have to miss a meeting before it is left.
pub const REQUIRED_EXIT_SCANS: u8 = 2;

/// What one look at a Teams window tells of a meeting.
#[derive(Debug)]
pub struct MeetingEvidence {
    pub target: CaptureTarget,
    pub minimized: bool,
    pub visible: bool,
    pub focused: bool,
    pub has_webview: bool,
    pub has_video: bool,
    pub has_leave_control: bool,
    pub has_call_control: bool,
    pub has_shared_content: bool,
    pub score: i32,
}

impl Clone for MeetingEvidence {
    fn clone(&self) -> (result: Self)
        ensures
            result == *self,
    {
        MeetingEvidence {
            target: self.target.clone(),
            minimized: self.minimized,
            visible: self.visible,
            focused: self.focused,
            has_webview: self.has_webview,
            has_video: self.has_video,
            has_leave_control: self.has_leave_control,
            has_call_control: self.has_call_control,
            has_shared_content: self.has_shared_content,
            score: self.score,
        }
    }
}

impl MeetingEvidence {
    /// The meeting goes on.
    pub open spec fn is_maintained(&self) -> bool {
        self.has_leave_control || self.has_call_control || self.has_video || self.has_shared_content
    }

    /// Two independent signs of a call, at least one of them a control.
    pub open spec fn is_strong(&self) -> bool {
        ||| self.has_leave_control && (self.has_call_control || self.has_video
            || self.has_shared_content)
        ||| self.has_call_control && (self.has_video || self.has_shared_content)
    }

    /// A single control, or video together with shared content.
    pub open spec fn is_weak(&self) -> bool {
        self.has_leave_control || self.has_call_control || (self.has_video
            && self.has_shared_content)
    }

    /// How long the evidence has to last before the meeting is joined.
    pub open spec fn required_delay(&self) -> Option<u64> {
        if self.is_strong() {
            Some(ENTRY_STABLE_FOR)
        } else if self.is_weak() {
            Some(ENTRY_FALLBACK_STABLE_FOR)
        } else {
            None
        }
    }

    pub fn has_maintenance_signal(&self) -> (result: bool)
        ensures
            result == self.is_maintained(),
    {
        self.has_leave_control || self.has_call_control || self.has_video || self.has_shared_content
    }

    pub fn entry_delay(&self) -> (result: Option<u64>)
        ensures
            result == self.required_delay(),
    {
        if (self.has_leave_control && (self.has_call_control || self.has_video
            || self.has_shared_content)) || (self.has_call_control && (self.has_video
            || self.has_shared_content)) {
            Some(ENTRY_STABLE_FOR)
        } else if self.has_leave_control || self.has_call_control || (self.has_video
            && self.has_shared_content) {
            Some(ENTRY_FALLBACK_STABLE_FOR)
        } else {
            None
        }
    }
}

/// A meeting that is about to be joined.
#[derive(Clone, Copy, Debug, PartialEq, Eq, Structural)]
pub struct EntryCandidate {
    pub target_id: u32,
    pub since: u64,
    pub scans: u8,
    pub required_delay: u64,
}

/// The meeting that counts as joined.
#[derive(Debug)]
pub struct DebouncedMeetingState {
    pub active: Option<MeetingEvidence>,
    pub entry: Option<EntryCandidate>,
    pub missing_since: Option<u64>,
    pub missing_scans: u8,
}

/// The first evidence of a window.
pub open spec fn evidence_of(evidence: Seq<MeetingEvidence>, id: u32) -> Option<MeetingEvidence>
    decreases evidence.len(),
{
    if evidence.len() == 0 {
        None
    } else if evidence.first().target.id == id {
        Some(evidence.first())
    } else {
        evidence_of(evidence.drop_first(), id)
    }
}

/// The evidence with the highest score among those that allow an entry, the last one
/// where several have it.
pub open spec fn best_entry(evidence: Seq<MeetingEvidence>) -> Option<MeetingEvidence>
    decreases evidence.len(),
{
    if evidence.len() == 0 {
        None
    } else {
        let before = best_entry(evidence.drop_last());
        if evidence.last().required_delay() is None {
            before
        } else {
            match before {
                Some(best) if best.score > evidence.last().score => before,
                _ => Some(evidence.last()),
            }
        }
    }
}

/// The best entry allows an entry, and no evidence that does so scores higher.
pub proof fn law_best_entry_scores_highest(evidence: Seq<MeetingEvidence>, at: int)
    requires
        0 <= at < evidence.len(),
        evidence[at].required_delay() is Some,
    ensures
        best_entry(evidence) is Some,
        best_entry(evidence)->0.required_delay() is Some,
        best_entry(evidence)->0.score >= evidence[at].score,
    decreases evidence.len(),
{
    let shorter = evidence.drop_last();
    lemma_best_entry_has_delay(shorter);
    if at < evidence.len() - 1 {
        law_best_entry_scores_highest(shorter, at);
    }
}

proof fn lemma_best_entry_has_delay(evidence: Seq<MeetingEvidence>)
    ensures
        best_entry(evidence) is Some ==> best_entry(evidence)->0.required_delay() is Some,
    decreases evidence.len(),
{
    if evidence.len() > 0 {
        lemma_best_entry_has_delay(evidence.drop_last());
    }
}

fn find_evidence(evidence: &Vec<MeetingEvidence>, id: u32) -> (result: Option<usize>)
    ensures
        match result {
            Some(at) => at < evidence@.len() && evidence_of(evidence@, id) == Some(
                evidence@[at as int],
            ),
            None => evidence_of(evidence@, id) is None,
        },
{
    let mut i: usize = 0;
    assert(evidence@.skip(0) =~= evidence@);
    while i < evidence.len()
        invariant
            i <= evidence.len(),
            evidence_of(evidence@, id) == evidence_of(evidence@.skip(i as int), id),
        decreases evidence.len() - i,
    {
        assert(evidence@.skip(i as int).first() == evidence@[i as int]);
        if evidence[i].target.id == id {
            return Some(i);
        }
        assert(evidence@.skip(i as int).drop_first() =~= evidence@.skip(i + 1));
        i += 1;
    }
    None
}

fn find_best_entry(evidence: &Vec<MeetingEvidence>) -> (result: Option<usize>)
    ensures
        match result {
            Some(at) => at < evidence@.len() && best_entry(evidence@) == Some(evidence@[at as int])
                && evidence@[at as int].required_delay() is Some,
            None => best_entry(evidence@) is None,
        },
{
    let mut best: Option<usize> = None;
    let mut i: usize = 0;
    assert(evidence@.take(0) =~= Seq::<MeetingEvidence>::empty());
    while i < evidence.len()
        invariant
            i <= evidence.len(),
            match best {
                Some(at) => at < i && best_entry(evidence@.take(i as int)) == Some(
                    evidence@[at as int],
                ) && evidence@[at as int].required_delay() is Some,
                None => best_entry(evidence@.take(i as int)) is None,
            },
        decreases evidence.len() - i,
    {
        assert(evidence@.take(i + 1).drop_last() =~= evidence@.take(i as int));
        assert(evidence@.take(i + 1).last() == evidence@[i as int]);
        if evidence[i].entry_delay().is_some() {
            best = match best {
                Some(at) => if evidence[at].score > evidence[i].score {
                    Some(at)
                } else {
                    Some(i)
                },
                None => Some(i),
            };
        }
        i += 1;
    }
    assert(evidence@.take(i as int) =~= evidence@);
    best
}

impl Default for DebouncedMeetingState {
    fn default() -> (result: Self)
        ensures
            result == DebouncedMeetingState::outside(),
            result.well_timed(),
    {
        DebouncedMeetingState { active: None, entry: None, missing_since: None, missing_scans: 0 }
    }
}

impl DebouncedMeetingState {
    /// In no meeting, and about to join none.
    pub open spec fn outside() -> DebouncedMeetingState {
        DebouncedMeetingState { active: None, entry: None, missing_since: None, missing_scans: 0 }
    }

    /// Every clock reading that is kept leaves room for a delay.
    pub open spec fn well_timed(&self) -> bool {
        &&& self.missing_since is Some ==> self.missing_since->0 <= CLOCK_LIMIT
        &&& self.entry is Some ==> self.entry->0.since <= CLOCK_LIMIT
            && self.entry->0.required_delay <= ENTRY_FALLBACK_STABLE_FOR
    }

    /// The state after a look outside a meeting: the best candidate is joined once it
    /// was seen often and long enough.
    pub open spec fn entering(self, now: u64, evidence: Seq<MeetingEvidence>) -> (
        DebouncedMeetingState,
        Option<MeetingEvidence>,
    ) {
        match best_entry(evidence) {
            None => (DebouncedMeetingState { entry: None, ..self }, None),
            Some(best) => {
                let delay = best.required_delay()->0;
                if self.entry is Some && self.entry->0.target_id == best.target.id {
                    let entry = self.entry->0;
                    let scans = min_int(entry.scans + 1, 255) as u8;
                    if scans >= REQUIRED_ENTRY_SCANS && elapsed(now, entry.since) >= delay {
                        (
                            DebouncedMeetingState {
                                active: Some(best),
                                entry: None,
                                ..self
                            },
                            Some(best),
                        )
                    } else {
                        (
                            DebouncedMeetingState {
                                entry: Some(
                                    EntryCandidate { scans, required_delay: delay, ..entry },
                                ),
                                ..self
                            },
                            None,
                        )
                    }
                } else {
                    (
                        DebouncedMeetingState {
                            entry: Some(
                                EntryCandidate {
                                    target_id: best.target.id,
                                    since: now,
                                    scans: 1,
                                    required_delay: delay,
                                },
                            ),
                            ..self
                        },
                        None,
                    )
                }
            },
        }
    }

    /// The state after a look that missed the meeting: it is left only once it was
    /// missed often and long enough.
    pub open spec fn missing(self, now: u64, evidence: Seq<MeetingEvidence>) -> (
        DebouncedMeetingState,
        Option<MeetingEvidence>,
    ) {
        let scans = min_int(self.missing_scans + 1, 255) as u8;
        let since = match self.missing_since {
            Some(since) => since,
            None => now,
        };
        if scans < REQUIRED_EXIT_SCANS || elapsed(now, since) < EXIT_STABLE_FOR {
            (
                DebouncedMeetingState {
                    missing_since: Some(since),
                    missing_scans: scans,
                    ..self
                },
                self.active,
            )
        } else {
            Self::outside().entering(now, evidence)
        }
    }

    /// The state after a look at `now`, and the meeting that counts as joined.
    /// `active_minimized` says that the window of the meeting is minimized: such a
    /// meeting goes on, though nothing can be read of it.
    pub open spec fn updated(
        self,
        now: u64,
        evidence: Seq<MeetingEvidence>,
        active_minimized: bool,
    ) -> (DebouncedMeetingState, Option<MeetingEvidence>) {
        match self.active {
            None => self.entering(now, evidence),
            Some(active) => match evidence_of(evidence, active.target.id) {
                Some(current) => if current.is_maintained() || current.minimized {
                    (
                        DebouncedMeetingState { active: Some(current), ..Self::outside() },
                        Some(current),
                    )
                } else {
                    self.missing(now, evidence)
                },
                None => if active_minimized {
                    let kept = MeetingEvidence { minimized: true, ..active };
                    (
                        DebouncedMeetingState {
                            active: Some(kept),
                            missing_since: None,
                            missing_scans: 0,
                            ..self
                        },
                        Some(kept),
                    )
                } else {
                    self.missing(now, evidence)
                },
            },
        }
    }

    /// When the state may change without new evidence.
    pub open spec fn deadline(&self) -> Option<int> {
        match (self.missing_since, self.entry) {
            (Some(since), _) => Some(since + EXIT_STABLE_FOR),
            (None, Some(entry)) => Some(entry.since + entry.required_delay),
            (None, None) => None,
        }
    }

    pub fn confirmation_deadline(&self) -> (result: Option<u64>)
        requires
            self.well_timed(),
        ensures
            result == match self.deadline() {
                Some(deadline) => Some(deadline as u64),
                None => None,
            },
            result is Some ==> result->0 == self.deadline()->0,
    {
        match self.missing_since {
            Some(since) => Some(since + EXIT_STABLE_FOR),
            None => match self.entry {
                Some(entry) => Some(entry.since + entry.required_delay),
                None => None,
            },
        }
    }

    /// Takes a look and returns the meeting that counts as joined.
    pub fn update(&mut self, now: u64, evidence: Vec<MeetingEvidence>, active_minimized: bool)
        -> (result: Option<MeetingEvidence>)
        ensures
            (*final(self), result) == old(self).updated(now, evidence@, active_minimized),
            result == final(self).active,
            old(self).well_timed() && now <= CLOCK_LIMIT ==> final(self).well_timed(),
    {
        if let Some(active) = &self.active {
            match find_evidence(&evidence, active.target.id) {
                Some(at) => {
                    if evidence[at].has_maintenance_signal() || evidence[at].minimized {
                        let current = evidence[at].clone();
                        self.active = Some(current.clone());
                        self.missing_since = None;
                        self.missing_scans = 0;
                        self.entry = None;
                        return Some(current);
                    }
                },
                None => {
                    if active_minimized {
                        let mut kept = active.clone();
                        kept.minimized = true;
                        self.active = Some(kept.clone());
                        self.missing_since = None;
                        self.missing_scans = 0;
                        return Some(kept);
                    }
                },
            }
            let kept = active.clone();
            self.missing_scans = self.missing_scans.saturating_add(1);
            let missing_since: u64 = match self.missing_since {
                Some(since) => since,
                None => now,
            };
            self.missing_since = Some(missing_since);
            if self.missing_scans < REQUIRED_EXIT_SCANS || elapsed_since(now, missing_since)
                < EXIT_STABLE_FOR {
                return Some(kept);
            }
            self.active = None;
            self.entry = None;
            self.missing_since = None;
            self.missing_scans = 0;
        }
        let at: usize = match find_best_entry(&evidence) {
            Some(at) => at,
            None => {
                self.entry = None;
                return None;
            },
        };
        let best = evidence[at].clone();
        let delay: u64 = match best.entry_delay() {
            Some(delay) => delay,
            None => {
                return None;
            },
        };
        let mut entry = EntryCandidate {
            target_id: best.target.id,
            since: now,
            scans: 1,
            required_delay: delay,
        };
        if let Some(known) = self.entry {
            if known.target_id == best.target.id {
                let scans: u8 = known.scans.saturating_add(1);
                if scans >= REQUIRED_ENTRY_SCANS && elapsed_since(now, known.since) >= delay {
                    self.active = Some(best.clone());
                    self.entry = None;
                    return Some(best);
                }
                entry.since = known.since;
                entry.scans = scans;
            }
        }
        self.entry = Some(entry);
        None
    }
}

/// A meeting is joined only if the look before saw the same window as the best candidate,
/// and the evidence has lasted for the delay that its strength asks for.
pub proof fn law_entry_is_debounced(
    state: DebouncedMeetingState,
    now: u64,
    evidence: Seq<MeetingEvidence>,
    active_minimized: bool,
)
    requires
        state.active is None,
        state.updated(now, evidence, active_minimized).1 is Some,
    ensures
        ({
            let joined = state.updated(now, evidence, active_minimized).1->0;
            &&& state.entry is Some
            &&& state.entry->0.target_id == joined.target.id
            &&& state.entry->0.scans >= 1
            &&& joined.required_delay() is Some
            &&& elapsed(now, state.entry->0.since) >= joined.required_delay()->0
        }),
{
    lemma_best_entry_has_delay(evidence);
}

/// Evidence that lasts is enough: a second look at or after the deadline joins the
/// meeting.
pub proof fn law_lasting_evidence_joins(
    state: DebouncedMeetingState,
    first: u64,
    second: u64,
    evidence: MeetingEvidence,
    active_minimized: bool,
)
    requires
        state.active is None,
        state.entry is None,
        evidence.required_delay() is Some,
        second >= first + evidence.required_delay()->0,
    ensures
        ({
            let seen = seq![evidence];
            let waiting = state.updated(first, seen, active_minimized).0;
            &&& waiting.active is None
            &&& waiting.updated(second, seen, active_minimized).1 == Some(evidence)
        }),
{
    let seen = seq![evidence];
    reveal_with_fuel(best_entry, 2);
    assert(seen.drop_last() =~= Seq::<MeetingEvidence>::empty());
    assert(best_entry(seen) == Some(evidence));
}

/// A look that finds no candidate forgets the one that was about to be joined.
pub proof fn law_lost_evidence_restarts_the_entry(
    state: DebouncedMeetingState,
    now: u64,
    active_minimized: bool,
)
    requires
        state.active is None,
    ensures
        ({
            let after = state.updated(now, Seq::empty(), active_minimized).0;
            after.entry is None && after.active is None
        }),
{
}

/// Shared content by itself, or video by itself, never joins a meeting.
pub proof fn law_content_alone_does_not_enter(evidence: MeetingEvidence)
    requires
        !evidence.has_leave_control,
        !evidence.has_call_control,
        !(evidence.has_video && evidence.has_shared_content),
    ensures
        evidence.required_delay() is None,
{
}

/// A meeting is left, or exchanged for another one, only after at least two looks missed
/// it over the whole exit delay.
pub proof fn law_exit_is_debounced(
    state: DebouncedMeetingState,
    now: u64,
    evidence: Seq<MeetingEvidence>,
    active_minimized: bool,
)
    requires
        state.active is Some,
        ({
            let after = state.updated(now, evidence, active_minimized).1;
            after is None || after->0.target.id != state.active->0.target.id
        }),
    ensures
        state.missing_scans >= 1,
        state.missing_since is None || elapsed(now, state.missing_since->0) >= EXIT_STABLE_FOR,
        !active_minimized || evidence_of(evidence, state.active->0.target.id) is Some,
{
    lemma_evidence_has_id(evidence, state.active->0.target.id);
}

proof fn lemma_evidence_has_id(evidence: Seq<MeetingEvidence>, id: u32)
    ensures
        evidence_of(evidence, id) is Some ==> evidence_of(evidence, id)->0.target.id == id,
    decreases evidence.len(),
{
    if evidence.len() > 0 && evidence.first().target.id != id {
        lemma_evidence_has_id(evidence.drop_first(), id);
    }
}

/// A meeting whose window is minimized goes on, however long nothing is seen of it.
pub proof fn law_minimized_meeting_goes_on(
    state: DebouncedMeetingState,
    now: u64,
    evidence: Seq<MeetingEvidence>,
)
    requires
        state.active is Some,
        evidence_of(evidence, state.active->0.target.id) is None,
    ensures
        ({
            let after = state.updated(now, evidence, true);
            &&& after.1 is Some
            &&& after.1->0.target == state.active->0.target
            &&& after.1->0.minimized
            &&& after.0.missing_since is None
        }),
{
}

/// The evidence that counts for a window is a look at that window, the first one; there is
/// one exactly where a look at the window was taken.
pub proof fn law_evidence_is_of_the_window(evidence: Seq<MeetingEvidence>, id: u32)
    ensures
        evidence_of(evidence, id) is Some <==> exists|k: int|
            0 <= k < evidence.len() && (#[trigger] evidence[k]).target.id == id,
        evidence_of(evidence, id) is Some ==> exists|k: int|
            {
                &&& 0 <= k < evidence.len()
                &&& evidence_of(evidence, id) == Some(#[trigger] evidence[k])
                &&& evidence[k].target.id == id
                &&& forall|j: int| 0 <= j < k ==> (#[trigger] evidence[j]).target.id != id
            },
    decreases evidence.len(),
{
    if evidence.len() > 0 {
        let rest = evidence.drop_first();
        law_evidence_is_of_the_window(rest, id);
        if evidence.first().target.id == id {
            assert(evidence[0].target.id == id);
            assert(evidence_of(evidence, id) == Some(evidence[0]));
        } else {
            if evidence_of(rest, id) is Some {
                let k = choose|k: int|
                    {
                        &&& 0 <= k < rest.len()
                        &&& evidence_of(rest, id) == Some(#[trigger] rest[k])
                        &&& rest[k].target.id == id
                        &&& forall|j: int| 0 <= j < k ==> (#[trigger] rest[j]).target.id != id
                    };
                assert(evidence[k + 1] == rest[k]);
                assert forall|j: int| 0 <= j < k + 1 implies (#[trigger] evidence[j]).target.id
                    != id by {
                    if j > 0 {
                        assert(rest[j - 1] == evidence[j]);
                    }
                }
            }
            if exists|k: int| 0 <= k < evidence.len() && (#[trigger] evidence[k]).target.id == id {
                let k = choose|k: int|
                    0 <= k < evidence.len() && (#[trigger] evidence[k]).target.id == id;
                assert(rest[k - 1] == evidence[k]);
            }
        }
    }
}

/// Any one sign of the call keeps the meeting joined, and the look starts the count of
/// missed looks anew.
pub proof fn law_any_sign_keeps_the_meeting(
    state: DebouncedMeetingState,
    now: u64,
    evidence: Seq<MeetingEvidence>,
    active_minimized: bool,
)
    requires
        state.active is Some,
        evidence_of(evidence, state.active->0.target.id) is Some,
        ({
            let seen = evidence_of(evidence, state.active->0.target.id)->0;
            seen.has_leave_control || seen.has_call_control || seen.has_video
                || seen.has_shared_content || seen.minimized
        }),
    ensures
        ({
            let after = state.updated(now, evidence, active_minimized);
            &&& after.1 == evidence_of(evidence, state.active->0.target.id)
            &&& after.0.active == after.1
            &&& after.0.missing_since is None
            &&& after.0.missing_scans == 0
            &&& after.0.entry is None
        }),
{
}

/// Nothing but signs of a call keeps a meeting: a look that sees the window of the meeting,
/// not minimized, without any of them counts as missed, whatever else it sees. So does one
/// that does not see the window at all.
pub proof fn law_looks_without_a_sign_are_missed(
    state: DebouncedMeetingState,
    now: u64,
    evidence: Seq<MeetingEvidence>,
    active_minimized: bool,
)
    requires
        state.active is Some,
        match evidence_of(evidence, state.active->0.target.id) {
            Some(seen) => !seen.minimized && !seen.has_leave_control && !seen.has_call_control
                && !seen.has_video && !seen.has_shared_content,
            None => !active_minimized,
        },
    ensures
        ({
            let after = state.updated(now, evidence, active_minimized);
            let since = match state.missing_since {
                Some(since) => since,
                None => now,
            };
            &&& state.missing_scans == 0 ==> after.1 == state.active
            &&& now < since + 1_400_000_000 ==> after.1 == state.active
            &&& after.1 == state.active && after.0.missing_scans != 0 ==> {
                &&& after.0.missing_since == Some(since)
                &&& state.missing_scans < 255 ==> after.0.missing_scans == state.missing_scans + 1
                &&& after.0.active == state.active
            }
            &&& state.missing_scans >= 1 && now >= since + 1_400_000_000 && best_entry(evidence)
                is None ==> after.1 is None && after.0.active is None && after.0.entry is None
                && after.0.missing_since is None
            &&& state.missing_scans >= 1 && now >= since + 1_400_000_000 && best_entry(evidence)
                is Some ==> after.1 is None && after.0.entry is Some
                && after.0.entry->0.target_id == best_entry(evidence)->0.target.id
                && after.0.entry->0.since == now && after.0.entry->0.scans == 1
        }),
{
}

/// Two looks that miss the meeting, at least 1.4 s apart, end it, where no evidence allows
/// an entry; the first of them alone never does.
pub proof fn law_two_missed_looks_end_the_meeting(
    state: DebouncedMeetingState,
    first: u64,
    second: u64,
    seen: MeetingEvidence,
)
    requires
        state.active is Some,
        state.missing_since is None,
        state.missing_scans == 0,
        seen.target.id == state.active->0.target.id,
        !seen.minimized,
        !seen.has_leave_control,
        !seen.has_call_control,
        !seen.has_video,
        !seen.has_shared_content,
        second >= first + 1_400_000_000,
    ensures
        ({
            let looks = seq![seen];
            let once = state.updated(first, looks, false);
            let twice = once.0.updated(second, looks, false);
            &&& once.1 == state.active
            &&& twice.1 is None
            &&& twice.0.active is None
        }),
{
    let looks = seq![seen];
    reveal_with_fuel(best_entry, 2);
    reveal_with_fuel(evidence_of, 2);
    assert(looks.drop_last() =~= Seq::<MeetingEvidence>::empty());
    assert(looks.first() == seen);
    assert(best_entry(looks) is None);
    assert(evidence_of(looks, seen.target.id) == Some(seen));
}

/// A control together with another sign is strong evidence and is waited on for 0.25 s; a
/// control alone, or video together with shared content, is weak and is waited on for 1.1 s;
/// anything less joins nothing. Whether the window is visible, focused or minimized, has a
/// web view, or scores high, makes no difference.
pub proof fn law_evidence_decides_the_delay(evidence: MeetingEvidence, other: MeetingEvidence)
    ensures
        ({
            let controls: int = (if evidence.has_leave_control {
                1int
            } else {
                0
            }) + (if evidence.has_call_control {
                1int
            } else {
                0
            });
            let sights: int = (if evidence.has_video {
                1int
            } else {
                0
            }) + (if evidence.has_shared_content {
                1int
            } else {
                0
            });
            &&& controls >= 1 && controls + sights >= 2 ==> evidence.required_delay() == Some(
                250_000_000u64,
            )
            &&& controls == 1 && sights == 0 ==> evidence.required_delay() == Some(
                1_100_000_000u64,
            )
            &&& controls == 0 && sights == 2 ==> evidence.required_delay() == Some(
                1_100_000_000u64,
            )
            &&& controls == 0 && sights < 2 ==> evidence.required_delay() is None
        }),
        evidence.has_leave_control == other.has_leave_control && evidence.has_call_control
            == other.has_call_control && evidence.has_video == other.has_video
            && evidence.has_shared_content == other.has_shared_content
            ==> evidence.required_delay() == other.required_delay() && evidence.is_maintained()
            == other.is_maintained(),
{
}

/// The best entry is one of the looks, and of those that score alike the last one.
pub proof fn law_the_best_entry_is_a_look(evidence: Seq<MeetingEvidence>)
    ensures
        best_entry(evidence) is Some ==> exists|k: int|
            {
                &&& 0 <= k < evidence.len()
                &&& best_entry(evidence) == Some(#[trigger] evidence[k])
                &&& forall|j: int|
                    k < j < evidence.len() ==> (#[trigger] evidence[j]).required_delay() is None
                        || evidence[j].score < evidence[k].score
            },
        best_entry(evidence) is None ==> forall|k: int|
            0 <= k < evidence.len() ==> (#[trigger] evidence[k]).required_delay() is None,
    decreases evidence.len(),
{
    if evidence.len() > 0 {
        let shorter = evidence.drop_last();
        law_the_best_entry_is_a_look(shorter);
        let last = evidence.len() - 1;
        if best_entry(shorter) is Some && best_entry(evidence) == best_entry(shorter) {
            let k = choose|k: int|
                {
                    &&& 0 <= k < shorter.len()
                    &&& best_entry(shorter) == Some(#[trigger] shorter[k])
                    &&& forall|j: int|
                        k < j < shorter.len() ==> (#[trigger] shorter[j]).required_delay() is None
                            || shorter[j].score < shorter[k].score
                };
            if evidence[last].required_delay() is None || evidence[last].score
                < shorter[k].score {
                assert(evidence[k] == shorter[k]);
                assert forall|j: int| k < j < evidence.len() implies (
                #[trigger] evidence[j]).required_delay() is None || evidence[j].score
                    < evidence[k].score by {
                    if j < last {
                        assert(shorter[j] == evidence[j]);
                    }
                }
            } else {
                assert(best_entry(evidence) == Some(evidence[last]));
            }
        } else if best_entry(evidence) is Some {
            assert(best_entry(evidence) == Some(evidence[last]));
        } else {
            assert forall|k: int| 0 <= k < evidence.len() implies (
            #[trigger] evidence[k]).required_delay() is None by {
                if k < last {
                    assert(shorter[k] == evidence[k]);
                }
            }
        }
    }
}

/// A look outside a meeting that sees another window than the last one waits for that one
/// from now on; one that sees the same window waits on from when it was first seen.
pub proof fn law_entries_wait_for_one_window(
    state: DebouncedMeetingState,
    now: u64,
    evidence: Seq<MeetingEvidence>,
    active_minimized: bool,
)
    requires
        state.active is None,
        best_entry(evidence) is Some,
    ensures
        ({
            let best = best_entry(evidence)->0;
            let after = state.updated(now, evidence, active_minimized);
            let same = state.entry is Some && state.entry->0.target_id == best.target.id;
            let ready = same && state.entry->0.scans >= 1 && now >= state.entry->0.since
                + best.required_delay()->0;
            &&& ready ==> after.1 == Some(best) && after.0.active == Some(best)
                && after.0.entry is None
            &&& !same ==> after.1 is None && after.0.active is None && after.0.entry is Some
                && after.0.entry->0.target_id == best.target.id && after.0.entry->0.since == now
                && after.0.entry->0.scans == 1 && after.0.entry->0.required_delay
                == best.required_delay()->0
            &&& same && now < state.entry->0.since + best.required_delay()->0 ==> after.1 is None
                && after.0.entry is Some && after.0.entry->0.since == state.entry->0.since
                && after.0.entry->0.required_delay == best.required_delay()->0
                && (state.entry->0.scans < 255 ==> after.0.entry->0.scans == state.entry->0.scans
                + 1)
        }),
{
    lemma_best_entry_has_delay(evidence);
}

/// The state is looked at again when something may change by itself: once a missing meeting
/// has been missed for 1.4 s, or once the evidence for an entry has lasted long enough; a
/// missing meeting comes first.
pub proof fn law_deadlines_are_those_of_the_delays(state: DebouncedMeetingState)
    ensures
        state.missing_since is Some ==> state.deadline() == Some(
            state.missing_since->0 + 1_400_000_000,
        ),
        state.missing_since is None && state.entry is Some ==> state.deadline() == Some(
            state.entry->0.since + state.entry->0.required_delay,
        ),
        state.missing_since is None && state.entry is None ==> state.deadline() is None,
{
}

} // verus!
