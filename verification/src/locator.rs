//! Keeps track of the element that shows the shared content.
//!
//! The element itself and the accessibility calls belong to the caller. What is
//! kept here is what was last confirmed of it, and a revision that every change
//! invalidates.

use vstd::prelude::*;

use crate::content::{rects_are_stable, stable, AuthoritativeCandidate, RECT_STABILITY_TOLERANCE};
use crate::error::CaptureError;
use crate::geometry::{PixelRect, WindowGeometry};
use crate::numeric::{elapsed, elapsed_since};

verus! {

/// Pause after a provider was woken up, in nanoseconds.
pub const PROVIDER_WARMUP_DELAY: u64 = 50_000_000;

/// Pause between the two looks of a discovery, in nanoseconds.
pub const STABILITY_DELAY: u64 = 35_000_000;

/// Age at which a background check searches anew, in nanoseconds.
pub const DISCOVERY_WATCHDOG: u64 = 2_000_000_000;

/// The content as it was last confirmed.
#[derive(Clone, Copy, Debug, PartialEq, Eq, Structural)]
pub struct LocatedContent {
    pub candidate: AuthoritativeCandidate,
    pub geometry: WindowGeometry,
    pub revision: u64,
}

/// What is known of the shared content of one window.
#[derive(Debug)]
pub struct ContentLocator {
    /// Change notifications arrive.
    pub subscribed: bool,
    /// Grows with every change that was reported or noticed.
    pub revision: u64,
    pub selected: Option<LocatedContent>,
    /// Clock reading at the end of the last search.
    pub last_discovery: Option<u64>,
}

/// How to answer a question for the content.
#[derive(Clone, Copy, Debug, PartialEq, Eq, Structural)]
pub enum LocateStep {
    /// Read the selected element once more.
    Refresh(LocatedContent),
    /// Search the whole tree.
    Discover,
}

/// How far a search has come.
#[derive(Clone, Copy, Debug, PartialEq, Eq, Structural)]
pub enum DiscoveryPhase {
    First,
    AfterWarmup,
    Second(AuthoritativeCandidate),
    Ended,
}

/// A search of the whole tree: two looks that have to agree.
#[derive(Clone, Copy, Debug, PartialEq, Eq, Structural)]
pub struct Discovery {
    pub geometry: WindowGeometry,
    pub revision: u64,
    pub phase: DiscoveryPhase,
}

/// What a search does next.
#[derive(Debug)]
pub enum DiscoveryStep {
    /// Touch the window, pause for `PROVIDER_WARMUP_DELAY` and look again.
    WakeProvider,
    /// Pause for `STABILITY_DELAY` and look again.
    Settle,
    /// Compare the two elements that were found.
    Compare(AuthoritativeCandidate, AuthoritativeCandidate),
    Failed(CaptureError),
}

/// The revision that follows.
pub open spec fn next_revision(revision: u64) -> u64 {
    if revision == u64::MAX {
        0
    } else {
        (revision + 1) as u64
    }
}

/// A search of the tree is needed unless changes are reported, nothing changed and
/// no periodic check is due.
pub fn requires_discovery(subscribed: bool, unchanged: bool, watchdog_due: bool) -> (result: bool)
    ensures
        result == !(subscribed && unchanged && !watchdog_due),
{
    !subscribed || !unchanged || watchdog_due
}

impl Discovery {
    /// The phase after a look that found `found`.
    pub open spec fn after_scan(self, found: Option<AuthoritativeCandidate>) -> Discovery {
        let phase = match (self.phase, found) {
            (DiscoveryPhase::First, None) => DiscoveryPhase::AfterWarmup,
            (DiscoveryPhase::First, Some(candidate)) => DiscoveryPhase::Second(candidate),
            (DiscoveryPhase::AfterWarmup, Some(candidate)) => DiscoveryPhase::Second(candidate),
            _ => DiscoveryPhase::Ended,
        };
        Discovery { phase, ..self }
    }

    /// Takes the outcome of a look at the tree.
    pub fn scanned(&mut self, found: Option<AuthoritativeCandidate>) -> (result: DiscoveryStep)
        requires
            old(self).phase != DiscoveryPhase::Ended,
        ensures
            *final(self) == old(self).after_scan(found),
            result == match (old(self).phase, found) {
                (DiscoveryPhase::First, None) => DiscoveryStep::WakeProvider,
                (DiscoveryPhase::Second(first), None) => DiscoveryStep::Failed(
                    CaptureError::ContentNotSettled,
                ),
                (_, None) => DiscoveryStep::Failed(CaptureError::ContentNotFound),
                (DiscoveryPhase::Second(first), Some(second)) => DiscoveryStep::Compare(
                    first,
                    second,
                ),
                (_, Some(first)) => DiscoveryStep::Settle,
            },
    {
        match self.phase {
            DiscoveryPhase::First => match found {
                None => {
                    self.phase = DiscoveryPhase::AfterWarmup;
                    DiscoveryStep::WakeProvider
                },
                Some(candidate) => {
                    self.phase = DiscoveryPhase::Second(candidate);
                    DiscoveryStep::Settle
                },
            },
            DiscoveryPhase::AfterWarmup => match found {
                None => {
                    self.phase = DiscoveryPhase::Ended;
                    DiscoveryStep::Failed(CaptureError::ContentNotFound)
                },
                Some(candidate) => {
                    self.phase = DiscoveryPhase::Second(candidate);
                    DiscoveryStep::Settle
                },
            },
            DiscoveryPhase::Second(first) => {
                self.phase = DiscoveryPhase::Ended;
                match found {
                    None => DiscoveryStep::Failed(CaptureError::ContentNotSettled),
                    Some(second) => DiscoveryStep::Compare(first, second),
                }
            },
            DiscoveryPhase::Ended => DiscoveryStep::Failed(CaptureError::ContentNotFound),
        }
    }
}

impl ContentLocator {
    /// A locator that knows of no content yet.
    pub fn new(subscribed: bool) -> (result: Self)
        ensures
            result == (ContentLocator {
                subscribed,
                revision: 1,
                selected: None,
                last_discovery: None,
            }),
    {
        ContentLocator { subscribed, revision: 1, selected: None, last_discovery: None }
    }

    /// Notes that something in the window changed.
    pub fn signal(&mut self)
        ensures
            *final(self) == (ContentLocator {
                revision: next_revision(old(self).revision),
                ..*old(self)
            }),
    {
        self.revision = self.revision.wrapping_add(1);
    }

    pub fn is_current(&self, revision: u64) -> (result: bool)
        ensures
            result == (self.revision == revision),
    {
        self.revision == revision
    }

    /// A background check has to search the whole tree at `now`.
    pub open spec fn watchdog_due(&self, background: bool, now: u64) -> bool {
        background && match self.last_discovery {
            Some(last) => elapsed(now, last) >= DISCOVERY_WATCHDOG,
            None => true,
        }
    }

    /// The selected content was confirmed for this geometry, and nothing changed
    /// since.
    pub open spec fn is_unchanged(&self, geometry: WindowGeometry) -> bool {
        self.selected is Some && self.selected->0.geometry == geometry && self.selected->0.revision
            == self.revision
    }

    /// Decides how the content is looked up.
    pub fn locate(&self, geometry: WindowGeometry, background: bool, now: u64) -> (result:
        LocateStep)
        ensures
            result == if self.subscribed && self.is_unchanged(geometry) && !self.watchdog_due(
                background,
                now,
            ) {
                LocateStep::Refresh(self.selected->0)
            } else {
                LocateStep::Discover
            },
    {
        let watchdog_due = background && match self.last_discovery {
            Some(last) => elapsed_since(now, last) >= DISCOVERY_WATCHDOG,
            None => true,
        };
        match self.selected {
            Some(located) => {
                let unchanged = located.geometry == geometry && located.revision == self.revision;
                if requires_discovery(self.subscribed, unchanged, watchdog_due) {
                    LocateStep::Discover
                } else {
                    LocateStep::Refresh(located)
                }
            },
            None => LocateStep::Discover,
        }
    }

    /// Takes what was read of the selected element, `located`. The content is
    /// confirmed where the element still makes the same candidate and no change
    /// was reported meanwhile. Anything else counts as a change, even if no
    /// notification came; the caller goes on to search the tree.
    pub fn refreshed(
        &mut self,
        located: LocatedContent,
        seen: Option<AuthoritativeCandidate>,
    ) -> (result: Option<(PixelRect, u64)>)
        ensures
            seen == Some(located.candidate) && old(self).revision == located.revision ==> {
                &&& result == Some((located.candidate.rect, located.revision))
                &&& *final(self) == *old(self)
            },
            !(seen == Some(located.candidate) && old(self).revision == located.revision) ==> {
                &&& result is None
                &&& *final(self) == (ContentLocator {
                    revision: next_revision(old(self).revision),
                    ..*old(self)
                })
            },
    {
        let same = match seen {
            Some(candidate) => candidate == located.candidate,
            None => false,
        };
        if same && self.is_current(located.revision) {
            return Some((located.candidate.rect, located.revision));
        }
        self.signal();
        None
    }

    /// Begins a search of the tree.
    pub fn discover(&self, geometry: WindowGeometry) -> (result: Discovery)
        ensures
            result == (Discovery {
                geometry,
                revision: self.revision,
                phase: DiscoveryPhase::First,
            }),
    {
        Discovery { geometry, revision: self.revision, phase: DiscoveryPhase::First }
    }

    /// The two looks of a search agree, and nothing changed while it ran.
    pub open spec fn confirms(
        &self,
        discovery: Discovery,
        first: AuthoritativeCandidate,
        second: AuthoritativeCandidate,
        same_element: bool,
    ) -> bool {
        &&& stable(first.rect, second.rect, RECT_STABILITY_TOLERANCE)
        &&& same_element
        &&& self.revision == discovery.revision
    }

    /// The search found other content than the one selected before.
    pub open spec fn replaces(
        &self,
        discovery: Discovery,
        second: AuthoritativeCandidate,
        same_as_selected: bool,
    ) -> bool {
        self.selected is Some && (self.selected->0.geometry != discovery.geometry
            || self.selected->0.candidate != second || !same_as_selected)
    }

    /// Ends a search whose two looks found `first` and `second`. `same_element` says
    /// that both looks found one element, `same_as_selected` that it is the one
    /// selected before. Other content than before gets a new revision. A failed
    /// search drops the selection and invalidates what it authorized.
    pub fn conclude(
        &mut self,
        discovery: Discovery,
        first: AuthoritativeCandidate,
        second: AuthoritativeCandidate,
        same_element: bool,
        same_as_selected: bool,
        now: u64,
    ) -> (result: Result<(PixelRect, u64), CaptureError>)
        ensures
            final(self).subscribed == old(self).subscribed,
            final(self).last_discovery == Some(now),
            old(self).confirms(discovery, first, second, same_element) ==> {
                let revision = if old(self).replaces(discovery, second, same_as_selected) {
                    next_revision(discovery.revision)
                } else {
                    discovery.revision
                };
                &&& result == Ok::<(PixelRect, u64), CaptureError>((second.rect, revision))
                &&& final(self).revision == revision
                &&& final(self).selected == Some(
                    LocatedContent { candidate: second, geometry: discovery.geometry, revision },
                )
            },
            !old(self).confirms(discovery, first, second, same_element) ==> {
                &&& result == Err::<(PixelRect, u64), CaptureError>(CaptureError::ContentUpdating)
                &&& final(self).revision == next_revision(old(self).revision)
                &&& final(self).selected is None
            },
    {
        if !rects_are_stable(first.rect, second.rect, RECT_STABILITY_TOLERANCE) || !same_element
            || !self.is_current(discovery.revision) {
            self.abandon(now);
            return Err(CaptureError::ContentUpdating);
        }
        let changed = match self.selected {
            Some(old_content) => old_content.geometry != discovery.geometry || old_content.candidate
                != second || !same_as_selected,
            None => false,
        };
        let revision: u64 = if changed {
            discovery.revision.wrapping_add(1)
        } else {
            discovery.revision
        };
        self.revision = revision;
        self.selected = Some(
            LocatedContent { candidate: second, geometry: discovery.geometry, revision },
        );
        self.last_discovery = Some(now);
        Ok((second.rect, revision))
    }

    /// Ends a search that failed.
    pub fn abandon(&mut self, now: u64)
        ensures
            *final(self) == (ContentLocator {
                subscribed: old(self).subscribed,
                revision: next_revision(old(self).revision),
                selected: None,
                last_discovery: Some(now),
            }),
    {
        self.last_discovery = Some(now);
        self.selected = None;
        self.signal();
    }
}

/// A revision is never current any more once a change was noted.
pub proof fn law_change_invalidates_the_revision(revision: u64)
    ensures
        next_revision(revision) != revision,
{
}

/// A look at the tree: nothing found at first wakes the window up and looks again; nothing
/// found then, or in the second look, ends the search; two finds in a row are compared.
pub proof fn law_searches_take_two_looks(search: Discovery, found: Option<AuthoritativeCandidate>)
    ensures
        search.phase is First && found is None ==> search.after_scan(found).phase is AfterWarmup,
        (search.phase is First || search.phase is AfterWarmup) && found is Some
            ==> search.after_scan(found).phase == DiscoveryPhase::Second(found->0),
        search.phase is AfterWarmup && found is None ==> search.after_scan(found).phase is Ended,
        search.phase is Second ==> search.after_scan(found).phase is Ended,
        search.after_scan(found).geometry == search.geometry,
        search.after_scan(found).revision == search.revision,
{
}

/// A search ends after three looks at the most.
pub proof fn law_searches_end(
    search: Discovery,
    first: Option<AuthoritativeCandidate>,
    second: Option<AuthoritativeCandidate>,
    third: Option<AuthoritativeCandidate>,
)
    ensures
        search.after_scan(first).after_scan(second).after_scan(third).phase is Ended,
{
}

/// What was confirmed counts only for the very same place of the window and only until
/// something changes.
pub proof fn law_confirmed_content_counts_until_it_changes(
    locator: ContentLocator,
    geometry: WindowGeometry,
)
    ensures
        locator.is_unchanged(geometry) <==> locator.selected is Some
            && locator.selected->0.geometry == geometry && locator.selected->0.revision
            == locator.revision,
        locator.is_unchanged(geometry) ==> !(ContentLocator {
            revision: next_revision(locator.revision),
            ..locator
        }).is_unchanged(geometry),
{
}

/// Only a check in the background searches anew by itself: where nothing was searched for
/// two seconds, or never.
pub proof fn law_only_the_background_searches_by_itself(locator: ContentLocator, now: u64)
    ensures
        !locator.watchdog_due(false, now),
        locator.last_discovery is None ==> locator.watchdog_due(true, now),
        locator.last_discovery is Some ==> (locator.watchdog_due(true, now) <==> now
            >= locator.last_discovery->0 + 2_000_000_000),
{
}

/// A search counts only if its two looks show one element at one place, up to three pixels
/// at its corner, and nothing changed meanwhile.
pub proof fn law_searches_need_two_equal_looks(
    locator: ContentLocator,
    search: Discovery,
    first: AuthoritativeCandidate,
    second: AuthoritativeCandidate,
    same_element: bool,
)
    ensures
        locator.confirms(search, first, second, same_element) <==> {
            &&& same_element
            &&& locator.revision == search.revision
            &&& first.rect.x <= second.rect.x + 3 && second.rect.x <= first.rect.x + 3
            &&& first.rect.y <= second.rect.y + 3 && second.rect.y <= first.rect.y + 3
            &&& first.rect.width <= second.rect.width + 6 && second.rect.width
                <= first.rect.width + 6
            &&& first.rect.height <= second.rect.height + 6 && second.rect.height
                <= first.rect.height + 6
        },
{
}

/// Content is other content where anything about it differs from what was known: the place
/// of the window, the rectangle, the rank or the element. Content that is found for the
/// first time replaces nothing.
pub proof fn law_other_content_gets_a_new_revision(
    locator: ContentLocator,
    search: Discovery,
    second: AuthoritativeCandidate,
    same_as_selected: bool,
)
    ensures
        locator.selected is None ==> !locator.replaces(search, second, same_as_selected),
        locator.selected is Some && locator.selected->0.geometry == search.geometry
            && locator.selected->0.candidate == second && same_as_selected
            ==> !locator.replaces(search, second, same_as_selected),
        locator.selected is Some && (locator.selected->0.geometry != search.geometry
            || locator.selected->0.candidate != second || !same_as_selected) ==> locator.replaces(
            search,
            second,
            same_as_selected,
        ),
{
}

/// Every revision is followed by one, by the next number while there is one.
pub proof fn law_revisions_move_on(revision: u64, other: u64)
    ensures
        revision < u64::MAX ==> next_revision(revision) == revision + 1,
        next_revision(revision) == next_revision(other) ==> revision == other,
{
}

} // verus!
