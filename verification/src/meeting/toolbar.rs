//! The presenter toolbar: which window it is, and how long its absence is overlooked.

use vstd::prelude::*;

use crate::meeting::names::{
    is_presenter_toolbar_title, is_toolbar_title, normalize_name, normalized,
};
use crate::numeric::{elapsed, elapsed_since, min_int, CLOCK_LIMIT};

verus! {

/// How long a toolbar has to be missing before it counts as gone, in nanoseconds.
pub const PRESENTER_TOOLBAR_EXIT_STABLE_FOR: u64 = 450_000_000;

/// How many looks have to miss a toolbar before it counts as gone.
pub const REQUIRED_PRESENTER_TOOLBAR_EXIT_SCANS: u8 = 2;

/// The display affinity of windows that captures leave out.
pub const WDA_EXCLUDEFROMCAPTURE: u32 = 0x11;

/// A window that may be the presenter toolbar, and how much speaks for it.
#[derive(Clone, Copy, Debug, PartialEq, Eq, Structural)]
pub struct PresenterToolbarEvidence {
    pub id: u32,
    pub score: i32,
    pub local_share_active: bool,
}

/// The toolbar has the shape of a bar.
pub open spec fn is_bar_shaped(width: i32, height: i32) -> bool {
    220 <= width <= 1600 && 24 <= height <= 100 && width >= height * 3
}

/// How much speaks for a window to be the presenter toolbar: it needs the shape of a
/// bar, and the toolbar's title or both of its window properties.
pub open spec fn toolbar_score(
    named: bool,
    width: i32,
    height: i32,
    visible: bool,
    topmost: bool,
    display_affinity: Option<u32>,
) -> Option<i32> {
    let excluded = display_affinity == Some(WDA_EXCLUDEFROMCAPTURE);
    if is_bar_shaped(width, height) && (named || (excluded && topmost)) {
        Some(
            ((if named {
                100int
            } else {
                0
            }) + (if excluded {
                60int
            } else {
                0
            }) + (if topmost {
                20int
            } else {
                0
            }) + (if visible {
                10int
            } else {
                0
            })) as i32,
        )
    } else {
        None
    }
}

/// Judges a window by whether its title is the toolbar's.
pub fn named_toolbar_score(
    named: bool,
    width: i32,
    height: i32,
    visible: bool,
    topmost: bool,
    display_affinity: Option<u32>,
) -> (result: Option<i32>)
    ensures
        result == toolbar_score(named, width, height, visible, topmost, display_affinity),
{
    if width < 220 || width > 1600 || height < 24 || height > 100 || width < height * 3 {
        return None;
    }
    let excluded = match display_affinity {
        Some(affinity) => affinity == WDA_EXCLUDEFROMCAPTURE,
        None => false,
    };
    if !named && !(excluded && topmost) {
        return None;
    }
    let mut score: i32 = 0;
    if named {
        score += 100;
    }
    if excluded {
        score += 60;
    }
    if topmost {
        score += 20;
    }
    if visible {
        score += 10;
    }
    Some(score)
}

/// Judges a window.
pub fn presenter_toolbar_score(
    title: &str,
    width: i32,
    height: i32,
    visible: bool,
    topmost: bool,
    display_affinity: Option<u32>,
) -> (result: Option<i32>)
    ensures
        result == toolbar_score(
            is_toolbar_title(normalized(title@)),
            width,
            height,
            visible,
            topmost,
            display_affinity,
        ),
{
    let title = normalize_name(title);
    let named = is_presenter_toolbar_title(title.as_str());
    named_toolbar_score(named, width, height, visible, topmost, display_affinity)
}

/// The toolbar that is on the screen, with its absence overlooked for a while.
#[derive(Clone, Copy, Debug, PartialEq, Eq, Structural)]
pub struct PresenterToolbarState {
    pub active: Option<u32>,
    pub missing_since: Option<u64>,
    pub missing_scans: u8,
}

/// The window with the highest score, the last one where several have it.
pub open spec fn best_toolbar(evidence: Seq<PresenterToolbarEvidence>) -> Option<
    PresenterToolbarEvidence,
>
    decreases evidence.len(),
{
    if evidence.len() == 0 {
        None
    } else {
        match best_toolbar(evidence.drop_last()) {
            Some(best) if best.score > evidence.last().score => Some(best),
            _ => Some(evidence.last()),
        }
    }
}

/// Some window has this number.
pub open spec fn names_toolbar(evidence: Seq<PresenterToolbarEvidence>, id: u32) -> bool {
    exists|k: int| 0 <= k < evidence.len() && (#[trigger] evidence[k]).id == id
}

/// No window scores higher than the best one.
pub proof fn law_best_toolbar_scores_highest(
    evidence: Seq<PresenterToolbarEvidence>,
    at: int,
)
    requires
        0 <= at < evidence.len(),
    ensures
        best_toolbar(evidence) is Some,
        best_toolbar(evidence)->0.score >= evidence[at].score,
    decreases evidence.len(),
{
    if at < evidence.len() - 1 {
        law_best_toolbar_scores_highest(evidence.drop_last(), at);
    } else if evidence.len() > 1 {
        law_best_toolbar_scores_highest(evidence.drop_last(), 0);
    }
}

fn find_best(evidence: &Vec<PresenterToolbarEvidence>) -> (result: Option<
    PresenterToolbarEvidence,
>)
    ensures
        result == best_toolbar(evidence@),
{
    let mut best: Option<PresenterToolbarEvidence> = None;
    let mut i: usize = 0;
    assert(evidence@.take(0) =~= Seq::<PresenterToolbarEvidence>::empty());
    while i < evidence.len()
        invariant
            i <= evidence.len(),
            best == best_toolbar(evidence@.take(i as int)),
        decreases evidence.len() - i,
    {
        assert(evidence@.take(i + 1).drop_last() =~= evidence@.take(i as int));
        let candidate = evidence[i];
        best = match best {
            Some(current) => if current.score > candidate.score {
                Some(current)
            } else {
                Some(candidate)
            },
            None => Some(candidate),
        };
        i += 1;
    }
    assert(evidence@.take(i as int) =~= evidence@);
    best
}

fn has_toolbar(evidence: &Vec<PresenterToolbarEvidence>, id: u32) -> (result: bool)
    ensures
        result == names_toolbar(evidence@, id),
{
    let mut i: usize = 0;
    while i < evidence.len()
        invariant
            i <= evidence.len(),
            forall|k: int| 0 <= k < i ==> (#[trigger] evidence@[k]).id != id,
        decreases evidence.len() - i,
    {
        if evidence[i].id == id {
            return true;
        }
        i += 1;
    }
    false
}

impl Default for PresenterToolbarState {
    fn default() -> (result: Self)
        ensures
            result == (PresenterToolbarState {
                active: None,
                missing_since: None,
                missing_scans: 0,
            }),
    {
        PresenterToolbarState { active: None, missing_since: None, missing_scans: 0 }
    }
}

impl PresenterToolbarState {
    pub open spec fn settled(active: Option<u32>) -> PresenterToolbarState {
        PresenterToolbarState { active, missing_since: None, missing_scans: 0 }
    }

    /// Every clock reading that is kept leaves room for a delay.
    pub open spec fn well_timed(&self) -> bool {
        self.missing_since is Some ==> self.missing_since->0 <= CLOCK_LIMIT
    }

    /// The state after a look at `now` that found `evidence`. A toolbar that is still
    /// there stays; another one takes its place at once; if none is there, the old one
    /// stays until two looks and the delay have gone by.
    pub open spec fn updated(
        self,
        now: u64,
        evidence: Seq<PresenterToolbarEvidence>,
    ) -> PresenterToolbarState {
        let best = match best_toolbar(evidence) {
            Some(best) => Some(best.id),
            None => None,
        };
        match self.active {
            None => PresenterToolbarState { active: best, ..self },
            Some(active) => {
                let scans = min_int(self.missing_scans + 1, 255);
                let since = match self.missing_since {
                    Some(since) => since,
                    None => now,
                };
                if names_toolbar(evidence, active) {
                    Self::settled(self.active)
                } else if best is Some {
                    Self::settled(best)
                } else if scans < REQUIRED_PRESENTER_TOOLBAR_EXIT_SCANS || elapsed(now, since)
                    < PRESENTER_TOOLBAR_EXIT_STABLE_FOR {
                    PresenterToolbarState {
                        active: self.active,
                        missing_since: Some(since),
                        missing_scans: scans as u8,
                    }
                } else {
                    Self::settled(None)
                }
            },
        }
    }

    /// When the absence of the toolbar will have lasted long enough.
    pub fn confirmation_deadline(&self) -> (result: Option<u64>)
        requires
            self.well_timed(),
        ensures
            result == match self.missing_since {
                Some(since) => Some((since + PRESENTER_TOOLBAR_EXIT_STABLE_FOR) as u64),
                None => None,
            },
    {
        match self.missing_since {
            Some(since) => Some(since + PRESENTER_TOOLBAR_EXIT_STABLE_FOR),
            None => None,
        }
    }

    /// Takes a look and returns the toolbar that counts as present.
    pub fn update(&mut self, now: u64, evidence: Vec<PresenterToolbarEvidence>) -> (result: Option<
        u32,
    >)
        ensures
            *final(self) == old(self).updated(now, evidence@),
            result == final(self).active,
            old(self).well_timed() && now <= CLOCK_LIMIT ==> final(self).well_timed(),
    {
        if let Some(active) = self.active {
            if has_toolbar(&evidence, active) {
                self.missing_since = None;
                self.missing_scans = 0;
                return Some(active);
            }
            if let Some(replacement) = find_best(&evidence) {
                self.active = Some(replacement.id);
                self.missing_since = None;
                self.missing_scans = 0;
                return self.active;
            }
            self.missing_scans = self.missing_scans.saturating_add(1);
            let missing_since: u64 = match self.missing_since {
                Some(since) => since,
                None => now,
            };
            self.missing_since = Some(missing_since);
            if self.missing_scans < REQUIRED_PRESENTER_TOOLBAR_EXIT_SCANS || elapsed_since(
                now,
                missing_since,
            ) < PRESENTER_TOOLBAR_EXIT_STABLE_FOR {
                return Some(active);
            }
            self.active = None;
            self.missing_since = None;
            self.missing_scans = 0;
            return None;
        }
        self.active = match find_best(&evidence) {
            Some(best) => Some(best.id),
            None => None,
        };
        self.active
    }
}

/// A toolbar that one look misses stays: two looks have to miss it.
pub proof fn law_toolbar_survives_one_missing_scan(
    state: PresenterToolbarState,
    now: u64,
    evidence: Seq<PresenterToolbarEvidence>,
)
    requires
        state.active is Some,
        state.missing_scans == 0,
    ensures
        state.updated(now, evidence).active is Some,
{
}

/// A toolbar disappears only after it was missing for the whole delay.
pub proof fn law_toolbar_exit_is_debounced(
    state: PresenterToolbarState,
    now: u64,
    evidence: Seq<PresenterToolbarEvidence>,
)
    requires
        state.active is Some,
        state.updated(now, evidence).active is None,
    ensures
        evidence.len() == 0,
        state.missing_scans >= 1,
        state.missing_since is None || elapsed(now, state.missing_since->0)
            >= PRESENTER_TOOLBAR_EXIT_STABLE_FOR,
{
    if evidence.len() > 0 {
        law_best_toolbar_scores_highest(evidence, 0);
    }
}

/// A window is judged as a toolbar only if it is 220 to 1600 pixels wide, 24 to 100 high and
/// at least three times as wide as high; and only if it is named as one, or is both on top
/// of all others and kept out of captures.
pub proof fn law_toolbars_have_the_shape_of_a_bar(
    named: bool,
    width: i32,
    height: i32,
    visible: bool,
    topmost: bool,
    affinity: Option<u32>,
)
    ensures
        toolbar_score(named, width, height, visible, topmost, affinity) is Some <==> {
            &&& 220 <= width <= 1600
            &&& 24 <= height <= 100
            &&& width >= 3 * height
            &&& named || (topmost && affinity == Some(0x11u32))
        },
{
}

/// Everything that speaks for a toolbar raises its score, its name more than all the rest
/// together, and being kept out of captures more than being on top or visible.
pub proof fn law_every_sign_raises_the_score(
    width: i32,
    height: i32,
    visible: bool,
    topmost: bool,
    affinity: Option<u32>,
)
    requires
        220 <= width <= 1600,
        24 <= height <= 100,
        width >= 3 * height,
    ensures
        ({
            let plain = toolbar_score(true, width, height, visible, topmost, affinity)->0;
            let unnamed = toolbar_score(false, width, height, true, true, Some(0x11u32))->0;
            &&& toolbar_score(true, width, height, visible, topmost, Some(0x11u32))->0 >= plain
            &&& affinity != Some(0x11u32) ==> toolbar_score(
                true,
                width,
                height,
                visible,
                topmost,
                Some(0x11u32),
            )->0 == plain + 60
            &&& !topmost ==> toolbar_score(true, width, height, visible, true, affinity)->0
                == plain + 20
            &&& !visible ==> toolbar_score(true, width, height, true, topmost, affinity)->0
                == plain + 10
            &&& plain >= 100
            &&& unnamed == 90
        }),
{
}

/// The best toolbar is one of the windows, and of those that score alike the last one.
pub proof fn law_the_best_toolbar_is_a_window(evidence: Seq<PresenterToolbarEvidence>)
    ensures
        best_toolbar(evidence) is Some <==> evidence.len() > 0,
        evidence.len() > 0 ==> exists|k: int|
            {
                &&& 0 <= k < evidence.len()
                &&& best_toolbar(evidence) == Some(#[trigger] evidence[k])
                &&& forall|j: int|
                    k < j < evidence.len() ==> (#[trigger] evidence[j]).score < evidence[k].score
            },
    decreases evidence.len(),
{
    if evidence.len() > 0 {
        let shorter = evidence.drop_last();
        let last = evidence.len() - 1;
        law_the_best_toolbar_is_a_window(shorter);
        if shorter.len() > 0 && best_toolbar(shorter)->0.score > evidence[last].score {
            let k = choose|k: int|
                {
                    &&& 0 <= k < shorter.len()
                    &&& best_toolbar(shorter) == Some(#[trigger] shorter[k])
                    &&& forall|j: int|
                        k < j < shorter.len() ==> (#[trigger] shorter[j]).score
                            < shorter[k].score
                };
            assert(evidence[k] == shorter[k]);
            assert forall|j: int| k < j < evidence.len() implies (#[trigger] evidence[j]).score
                < evidence[k].score by {
                if j < last {
                    assert(shorter[j] == evidence[j]);
                }
            }
        } else {
            assert(best_toolbar(evidence) == Some(evidence[last]));
        }
    }
}

/// A toolbar that is still seen stays, whatever else is seen; where it is not, the best other
/// one takes its place at once.
pub proof fn law_toolbars_stay_while_they_are_seen(
    state: PresenterToolbarState,
    now: u64,
    evidence: Seq<PresenterToolbarEvidence>,
)
    ensures
        ({
            let after = state.updated(now, evidence);
            let seen = state.active is Some && exists|k: int|
                0 <= k < evidence.len() && (#[trigger] evidence[k]).id == state.active->0;
            &&& seen ==> after.active == state.active && after.missing_since is None
                && after.missing_scans == 0
            &&& !seen && evidence.len() > 0 ==> after.active is Some && after.active->0
                == best_toolbar(evidence)->0.id && (state.active is Some ==> after.missing_since
                is None && after.missing_scans == 0)
            &&& state.active is None && evidence.len() == 0 ==> after.active is None
        }),
{
    law_the_best_toolbar_is_a_window(evidence);
}

/// Two looks without any toolbar, at least 0.45 s apart, end it; before that it stays.
pub proof fn law_two_looks_without_a_toolbar_end_it(
    state: PresenterToolbarState,
    first: u64,
    second: u64,
)
    requires
        state.active is Some,
        state.missing_since is None,
        state.missing_scans == 0,
        first <= second,
    ensures
        ({
            let once = state.updated(first, Seq::empty());
            let twice = once.updated(second, Seq::empty());
            &&& once.active == state.active
            &&& once.missing_since == Some(first)
            &&& once.missing_scans == 1
            &&& second >= first + 450_000_000 ==> twice.active is None
            &&& second < first + 450_000_000 ==> twice.active == state.active
        }),
{
}

} // verus!
