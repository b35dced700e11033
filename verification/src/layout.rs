//! The queue of layout checks and the worker that answers them.

use std::collections::VecDeque;

use vstd::prelude::*;

use crate::error::CaptureError;
use crate::geometry::{PixelRect, WindowGeometry};
use crate::numeric::{elapsed, elapsed_since, min_int, CLOCK_LIMIT};
use crate::text::same_text;

verus! {

/// How long a layout check may take, in nanoseconds.
pub const VERIFY_TIMEOUT: u64 = 1_200_000_000;

/// Pause between two background checks, in nanoseconds.
pub const WATCHDOG: u64 = 750_000_000;

/// How many checks of one urgency may wait.
pub const QUEUE_LIMIT: usize = 2;

/// Where the shared content was confirmed to be.
#[derive(Clone, Copy, Debug, PartialEq, Eq, Structural)]
pub struct RemoteLayout {
    pub geometry: WindowGeometry,
    pub content_rect: PixelRect,
    pub revision: u64,
}

/// A layout check that waits for its answer. `id` names whoever waits.
#[derive(Debug)]
pub struct Request {
    pub id: u64,
    pub width: u32,
    pub height: u32,
    pub phase: String,
    pub queued: u64,
}

/// Everything that waits for the worker.
#[derive(Debug)]
pub struct Pending {
    /// Checks that a user waits for.
    pub capture: VecDeque<Request>,
    /// Checks for frames that are cached in advance.
    pub frame: VecDeque<Request>,
    /// Changes of the tree since the last background check.
    pub structure: u64,
    /// Changes of properties since the last background check.
    pub properties: u64,
    pub stop: bool,
    /// Checks that waited too long and are still owed an answer.
    pub expired: Vec<Request>,
}

/// What the worker does next.
#[derive(Debug)]
pub enum Work {
    Request(Request),
    Background,
    Wait(u64),
}

impl Request {
    /// The check is too old to be answered at `now`.
    pub open spec fn has_expired(&self, now: u64) -> bool {
        elapsed(now, self.queued) >= VERIFY_TIMEOUT
    }

    /// The check belongs to a frame that is cached in advance.
    pub open spec fn is_for_frame(&self) -> bool {
        self.phase@ == "frame"@
    }

    /// The longest time left to wait for the answer.
    pub fn remaining_wait(&self, now: u64) -> (result: u64)
        ensures
            result == VERIFY_TIMEOUT - min_int(
                elapsed(now, self.queued) as int,
                VERIFY_TIMEOUT as int,
            ),
    {
        VERIFY_TIMEOUT.saturating_sub(elapsed_since(now, self.queued))
    }
}

/// Number of checks at the head of a queue that are too old.
pub open spec fn expired_count(queue: Seq<Request>, now: u64) -> nat
    decreases queue.len(),
{
    if queue.len() > 0 && queue.first().has_expired(now) {
        1 + expired_count(queue.drop_first(), now)
    } else {
        0
    }
}

proof fn lemma_expired_count(queue: Seq<Request>, now: u64, count: int)
    requires
        0 <= count <= queue.len(),
        forall|k: int| 0 <= k < count ==> (#[trigger] queue[k]).has_expired(now),
        count < queue.len() ==> !queue[count].has_expired(now),
    ensures
        expired_count(queue, now) == count,
    decreases count,
{
    if count > 0 {
        let rest = queue.drop_first();
        assert(queue.first().has_expired(now));
        assert forall|k: int| 0 <= k < count - 1 implies (#[trigger] rest[k]).has_expired(now) by {
            assert(rest[k] == queue[k + 1]);
        }
        if count < queue.len() {
            assert(rest[count - 1] == queue[count]);
        }
        lemma_expired_count(rest, now, count - 1);
    }
}

impl Pending {
    pub fn new() -> (result: Self)
        ensures
            result.is_bounded(),
            result.is_idle(),
            !result.stop,
            result.expired@.len() == 0,
            result.structure == 0,
            result.properties == 0,
    {
        Pending {
            capture: VecDeque::new(),
            frame: VecDeque::new(),
            structure: 0,
            properties: 0,
            stop: false,
            expired: Vec::new(),
        }
    }

    /// Nothing waits.
    pub open spec fn is_idle(&self) -> bool {
        self.capture@.len() == 0 && self.frame@.len() == 0
    }

    /// The checks in the order in which they are taken.
    pub open spec fn in_order(&self) -> Seq<Request> {
        self.capture@ + self.frame@
    }

    /// No more checks wait than the limit allows.
    pub open spec fn is_bounded(&self) -> bool {
        self.capture@.len() <= QUEUE_LIMIT && self.frame@.len() <= QUEUE_LIMIT
    }

    /// Everything but the queues and the expired checks is the same.
    pub open spec fn same_events(&self, other: &Self) -> bool {
        self.structure == other.structure && self.properties == other.properties && self.stop
            == other.stop
    }

    /// Takes the next check: those that a user waits for come first. Checks that are
    /// too old are moved to `expired` on the way.
    pub fn next(&mut self, now: u64) -> (result: Option<Request>)
        ensures
            ({
                let queue = old(self).in_order();
                let skipped = expired_count(queue, now) as int;
                let waiting = old(self).capture@.len() as int;
                &&& final(self).expired@ == old(self).expired@ + queue.take(skipped)
                &&& match result {
                    Some(request) => {
                        &&& skipped < queue.len()
                        &&& request == queue[skipped]
                        &&& !request.has_expired(now)
                        &&& final(self).capture@ == if skipped < waiting {
                            old(self).capture@.skip(skipped + 1)
                        } else {
                            Seq::empty()
                        }
                        &&& final(self).frame@ == if skipped < waiting {
                            old(self).frame@
                        } else {
                            old(self).frame@.skip(skipped + 1 - waiting)
                        }
                    },
                    None => skipped == queue.len() && final(self).is_idle(),
                }
            }),
            final(self).same_events(old(self)),
            old(self).is_bounded() ==> final(self).is_bounded(),
    {
        let ghost queue = self.in_order();
        let ghost waiting = self.capture@.len() as int;
        let ghost mut taken: int = 0;
        let ghost before = self.expired@;
        proof {
            assert(queue.skip(0) =~= queue);
            assert(before + queue.take(0) =~= before);
            assert(self.capture@.skip(0) =~= self.capture@);
            assert(self.frame@.skip(0) =~= self.frame@);
        }
        loop
            invariant
                queue == old(self).in_order(),
                waiting == old(self).capture@.len(),
                before == old(self).expired@,
                0 <= taken <= queue.len(),
                self.expired@ == before + queue.take(taken),
                taken <= waiting ==> self.capture@ == old(self).capture@.skip(taken)
                    && self.frame@ == old(self).frame@,
                taken > waiting ==> self.capture@.len() == 0 && self.frame@ == old(
                    self,
                ).frame@.skip(taken - waiting),
                self.same_events(old(self)),
                forall|k: int| 0 <= k < taken ==> (#[trigger] queue[k]).has_expired(now),
            decreases queue.len() - taken,
        {
            let request = match self.capture.pop_front() {
                Some(request) => request,
                None => match self.frame.pop_front() {
                    Some(request) => request,
                    None => {
                        proof {
                            assert(taken == queue.len());
                            lemma_expired_count(queue, now, taken);
                        }
                        return None;
                    },
                },
            };
            assert(request == queue[taken]);
            if elapsed_since(now, request.queued) < VERIFY_TIMEOUT {
                proof {
                    lemma_expired_count(queue, now, taken);
                    if taken < waiting {
                        assert(self.capture@ =~= old(self).capture@.skip(taken + 1));
                    } else {
                        assert(self.capture@ =~= Seq::empty());
                        assert(self.frame@ =~= old(self).frame@.skip(taken + 1 - waiting));
                    }
                }
                return Some(request);
            }
            self.expired.push(request);
            proof {
                assert(before + queue.take(taken + 1) =~= (before + queue.take(taken)).push(
                    queue[taken],
                ));
                if taken < waiting {
                    assert(self.capture@ =~= old(self).capture@.skip(taken + 1));
                } else {
                    assert(self.frame@ =~= old(self).frame@.skip(taken + 1 - waiting));
                }
                taken = taken + 1;
            }
        }
    }

    /// What there is to do at `now`, where the next background check is due at
    /// `background_due`. A waiting check always comes before a background check.
    pub fn poll(&mut self, now: u64, background_due: u64) -> (result: Work)
        ensures
            old(self).is_bounded() ==> final(self).is_bounded(),
            final(self).same_events(old(self)),
            ({
                let queue = old(self).in_order();
                let skipped = expired_count(queue, now) as int;
                &&& final(self).expired@ == old(self).expired@ + queue.take(skipped)
                &&& if skipped < queue.len() {
                    &&& result == Work::Request(queue[skipped])
                    &&& final(self).in_order() == queue.skip(skipped + 1)
                } else {
                    &&& final(self).is_idle()
                    &&& result == if now >= background_due {
                        Work::Background
                    } else {
                        Work::Wait((background_due - now) as u64)
                    }
                }
            }),
    {
        let ghost queue = self.in_order();
        let ghost skipped = expired_count(queue, now) as int;
        let ghost waiting = self.capture@.len() as int;
        match self.next(now) {
            Some(request) => {
                proof {
                    if skipped < waiting {
                        assert(self.in_order() =~= queue.skip(skipped + 1));
                    } else {
                        assert(self.in_order() =~= queue.skip(skipped + 1));
                    }
                }
                Work::Request(request)
            },
            None => if now >= background_due {
                Work::Background
            } else {
                Work::Wait(background_due - now)
            },
        }
    }

    /// The queue that a check goes to.
    pub open spec fn queue_for(&self, request: &Request) -> Seq<Request> {
        if request.is_for_frame() {
            self.frame@
        } else {
            self.capture@
        }
    }

    /// Adds a check to its queue: refused once the worker stops, or where too many
    /// checks of its urgency wait.
    pub fn enqueue(&mut self, request: Request) -> (result: Result<(), CaptureError>)
        ensures
            old(self).is_bounded() ==> final(self).is_bounded(),
            final(self).same_events(old(self)),
            final(self).expired@ == old(self).expired@,
            match result {
                Ok(()) => {
                    &&& !old(self).stop
                    &&& old(self).queue_for(&request).len() < QUEUE_LIMIT
                    &&& final(self).queue_for(&request) == old(self).queue_for(&request).push(
                        request,
                    )
                    &&& request.is_for_frame() ==> final(self).capture@ == old(self).capture@
                    &&& !request.is_for_frame() ==> final(self).frame@ == old(self).frame@
                },
                Err(error) => {
                    &&& final(self).capture@ == old(self).capture@
                    &&& final(self).frame@ == old(self).frame@
                    &&& old(self).stop ==> error == CaptureError::ResolverStopped
                    &&& !old(self).stop ==> error == CaptureError::ResolverBusy && old(
                        self,
                    ).queue_for(&request).len() >= QUEUE_LIMIT
                },
            },
    {
        if self.stop {
            return Err(CaptureError::ResolverStopped);
        }
        if same_text(request.phase.as_str(), "frame") {
            if self.frame.len() >= QUEUE_LIMIT {
                return Err(CaptureError::ResolverBusy);
            }
            self.frame.push_back(request);
        } else {
            if self.capture.len() >= QUEUE_LIMIT {
                return Err(CaptureError::ResolverBusy);
            }
            self.capture.push_back(request);
        }
        Ok(())
    }

    /// Counts a change of the window. It takes no place in the queues. Returns
    /// whether the worker has to be woken: only for the first change.
    pub fn changed(&mut self, structure: bool) -> (result: bool)
        ensures
            result == (old(self).structure == 0 && old(self).properties == 0),
            final(self).structure == if structure {
                min_int(old(self).structure + 1, u64::MAX as int)
            } else {
                old(self).structure as int
            },
            final(self).properties == if structure {
                old(self).properties as int
            } else {
                min_int(old(self).properties + 1, u64::MAX as int)
            },
            final(self).capture@ == old(self).capture@,
            final(self).frame@ == old(self).frame@,
            final(self).expired@ == old(self).expired@,
            final(self).stop == old(self).stop,
    {
        let first = self.structure == 0 && self.properties == 0;
        if structure {
            self.structure = self.structure.saturating_add(1);
        } else {
            self.properties = self.properties.saturating_add(1);
        }
        first
    }

    /// Hands out the checks that are owed the answer that they expired.
    pub fn take_expired(&mut self) -> (result: Vec<Request>)
        ensures
            result@ == old(self).expired@,
            final(self).expired@.len() == 0,
            final(self).capture@ == old(self).capture@,
            final(self).frame@ == old(self).frame@,
            final(self).same_events(old(self)),
    {
        let mut taken: Vec<Request> = Vec::new();
        taken.append(&mut self.expired);
        taken
    }
}

/// A check that a user waits for is taken before every check for a frame.
pub proof fn law_capture_precedes_frame(pending: Pending, now: u64)
    requires
        pending.capture@.len() > 0,
        !pending.capture@[0].has_expired(now),
    ensures
        expired_count(pending.in_order(), now) == 0,
        pending.in_order()[0] == pending.capture@[0],
{
}

/// The worker's own memory.
#[derive(Clone, Copy, Debug)]
pub struct Resolver {
    /// Frame size of the last check.
    pub dimensions: Option<(u32, u32)>,
    /// Clock reading after the last background check.
    pub last_background: u64,
}

/// What the worker does next, and on which frame size.
#[derive(Debug)]
pub enum ResolverStep {
    Stop,
    Verify(Request),
    Background(Option<(u32, u32)>),
    Wait(u64),
}

impl Resolver {
    pub fn new(now: u64) -> (result: Self)
        ensures
            result == (Resolver { dimensions: None, last_background: now }),
    {
        Resolver { dimensions: None, last_background: now }
    }

    /// When the next background check is due.
    pub open spec fn background_due(&self, audit_deadline: Option<u64>) -> int {
        match audit_deadline {
            Some(deadline) => deadline as int,
            None => self.last_background + WATCHDOG,
        }
    }

    /// Decides the worker's next step. A stop comes before everything, a waiting
    /// check before a background check. The latter starts with the counts of
    /// changes at zero.
    pub fn step(
        &mut self,
        pending: &mut Pending,
        now: u64,
        audit_deadline: Option<u64>,
    ) -> (result: ResolverStep)
        requires
            old(self).last_background <= CLOCK_LIMIT,
        ensures
            old(pending).is_bounded() ==> final(pending).is_bounded(),
            final(self).last_background == old(self).last_background,
            final(pending).stop == old(pending).stop,
            old(pending).stop ==> {
                &&& result is Stop
                &&& *final(pending) == *old(pending)
                &&& final(self).dimensions == old(self).dimensions
            },
            !old(pending).stop ==> {
                let queue = old(pending).in_order();
                let skipped = expired_count(queue, now) as int;
                let due = old(self).background_due(audit_deadline);
                &&& final(pending).expired@ == old(pending).expired@ + queue.take(skipped)
                &&& if skipped < queue.len() {
                    &&& result == ResolverStep::Verify(queue[skipped])
                    &&& final(pending).in_order() == queue.skip(skipped + 1)
                    &&& final(pending).same_events(old(pending))
                    &&& final(self).dimensions == Some(
                        (queue[skipped].width, queue[skipped].height),
                    )
                } else if now >= due {
                    &&& result == ResolverStep::Background(old(self).dimensions)
                    &&& final(pending).is_idle()
                    &&& final(pending).structure == 0
                    &&& final(pending).properties == 0
                    &&& final(self).dimensions == old(self).dimensions
                } else {
                    &&& result == ResolverStep::Wait((due - now) as u64)
                    &&& final(pending).is_idle()
                    &&& final(pending).same_events(old(pending))
                    &&& final(self).dimensions == old(self).dimensions
                }
            },
    {
        if pending.stop {
            return ResolverStep::Stop;
        }
        let due: u64 = match audit_deadline {
            Some(deadline) => deadline,
            None => self.last_background + WATCHDOG,
        };
        match pending.poll(now, due) {
            Work::Request(request) => {
                self.dimensions = Some((request.width, request.height));
                ResolverStep::Verify(request)
            },
            Work::Background => {
                pending.structure = 0;
                pending.properties = 0;
                ResolverStep::Background(self.dimensions)
            },
            Work::Wait(remaining) => ResolverStep::Wait(remaining),
        }
    }

    /// Notes the end of a background check.
    pub fn background_done(&mut self, now: u64)
        ensures
            *final(self) == (Resolver { last_background: now, ..*old(self) }),
    {
        self.last_background = now;
    }
}

/// The layout that a check found, where the window stood still meanwhile and its
/// content did not change.
pub fn confirm_layout(
    geometry: WindowGeometry,
    content_rect: PixelRect,
    revision: u64,
    geometry_after: WindowGeometry,
    current_revision: u64,
) -> (result: Result<RemoteLayout, CaptureError>)
    ensures
        result == if geometry_after == geometry && current_revision == revision {
            Ok::<RemoteLayout, CaptureError>(RemoteLayout { geometry, content_rect, revision })
        } else {
            Err::<RemoteLayout, CaptureError>(CaptureError::LayoutMovedDuringCheck)
        },
{
    if geometry_after != geometry || current_revision != revision {
        return Err(CaptureError::LayoutMovedDuringCheck);
    }
    Ok(RemoteLayout { geometry, content_rect, revision })
}

/// The answer to a check as its caller sees it: no answer in time is a failure.
pub fn layout_answer(answer: Option<Result<RemoteLayout, String>>) -> (result: Result<
    RemoteLayout,
    CaptureError,
>)
    ensures
        result == match answer {
            Some(Ok(layout)) => Ok::<RemoteLayout, CaptureError>(layout),
            Some(Err(message)) => Err::<RemoteLayout, CaptureError>(
                CaptureError::Reported(message),
            ),
            None => Err::<RemoteLayout, CaptureError>(CaptureError::ResolverTimeout),
        },
{
    match answer {
        Some(Ok(layout)) => Ok(layout),
        Some(Err(message)) => Err(CaptureError::Reported(message)),
        None => Err(CaptureError::ResolverTimeout),
    }
}

/// Output is allowed only for the layout that was confirmed before.
pub fn require_matching_layout(cached: Option<RemoteLayout>, current: RemoteLayout) -> (result:
    Result<(), CaptureError>)
    ensures
        result == if cached == Some(current) {
            Ok::<(), CaptureError>(())
        } else {
            Err::<(), CaptureError>(CaptureError::LayoutMismatch)
        },
{
    match cached {
        Some(cached) => if cached == current {
            Ok(())
        } else {
            Err(CaptureError::LayoutMismatch)
        },
        None => Err(CaptureError::LayoutMismatch),
    }
}

/// A check is too old once it has waited for 1.2 s, and not before.
pub proof fn law_checks_expire_on_time(request: Request, now: u64)
    ensures
        request.has_expired(now) <==> now >= request.queued + 1_200_000_000,
{
}

/// Only checks that have waited for 1.2 s are skipped, and all of them up to the first one
/// that has not.
pub proof fn law_only_old_checks_are_skipped(queue: Seq<Request>, now: u64)
    ensures
        expired_count(queue, now) <= queue.len(),
        forall|k: int|
            0 <= k < expired_count(queue, now) ==> now >= (#[trigger] queue[k]).queued
                + 1_200_000_000,
        expired_count(queue, now) < queue.len() ==> now < queue[expired_count(
            queue,
            now,
        ) as int].queued + 1_200_000_000,
    decreases queue.len(),
{
    if queue.len() > 0 && queue.first().has_expired(now) {
        let rest = queue.drop_first();
        law_only_old_checks_are_skipped(rest, now);
        assert forall|k: int| 0 <= k < expired_count(queue, now) implies now >= (
        #[trigger] queue[k]).queued + 1_200_000_000 by {
            if k > 0 {
                assert(rest[k - 1] == queue[k]);
            }
        }
    }
}

/// Checks that a user waits for are taken in their order, then those for frames in theirs;
/// each kind has a queue of its own, with room for two.
pub proof fn law_urgent_checks_come_first(pending: Pending, request: Request, at: int)
    requires
        0 <= at < pending.capture@.len() + pending.frame@.len(),
    ensures
        pending.in_order().len() == pending.capture@.len() + pending.frame@.len(),
        at < pending.capture@.len() ==> pending.in_order()[at] == pending.capture@[at],
        at >= pending.capture@.len() ==> pending.in_order()[at]
            == pending.frame@[at - pending.capture@.len()],
        request.phase@ == "frame"@ ==> pending.queue_for(&request) == pending.frame@,
        request.phase@ != "frame"@ ==> pending.queue_for(&request) == pending.capture@,
        pending.is_bounded() <==> pending.capture@.len() <= 2 && pending.frame@.len() <= 2,
        !pending.is_idle(),
{
}

/// Without another deadline, background checks are 0.75 s apart.
pub proof fn law_background_checks_keep_their_rhythm(resolver: Resolver, deadline: u64)
    ensures
        resolver.background_due(None) == resolver.last_background + 750_000_000,
        resolver.background_due(Some(deadline)) == deadline,
{
}

} // verus!
