//! Captures one after the other: a click during a capture asks for one more.

use vstd::prelude::*;

verus! {

/// The capture that runs, and whether another one was asked for meanwhile.
#[derive(Clone, Copy, Debug, PartialEq, Eq, Structural)]
pub struct CaptureRequests {
    pub active: Option<u64>,
    pub pending: bool,
}

impl Default for CaptureRequests {
    fn default() -> (result: Self)
        ensures
            result == (CaptureRequests { active: None, pending: false }),
    {
        CaptureRequests { active: None, pending: false }
    }
}

impl CaptureRequests {
    /// Another capture waits only while one runs.
    pub open spec fn well_formed(self) -> bool {
        self.pending ==> self.active is Some
    }

    /// Notes a request while a capture runs, and returns whether one does. Any number of
    /// such requests makes one.
    pub fn queue_if_active(&mut self) -> (result: bool)
        ensures
            result == (old(self).active is Some),
            *final(self) == (CaptureRequests {
                pending: old(self).pending || result,
                ..*old(self)
            }),
            old(self).well_formed() ==> final(self).well_formed(),
    {
        if self.active.is_some() {
            self.pending = true;
            true
        } else {
            false
        }
    }

    /// Notes that the capture numbered `generation` runs.
    pub fn start(&mut self, generation: u64)
        requires
            old(self).active is None,
        ensures
            *final(self) == (CaptureRequests { active: Some(generation), ..*old(self) }),
            old(self).well_formed() ==> final(self).well_formed(),
    {
        self.active = Some(generation);
    }

    /// The capture numbered `generation` runs.
    pub open spec fn runs(self, generation: u64) -> bool {
        self.active == Some(generation)
    }

    /// Notes that a capture ended, and returns whether another one was asked for. The end
    /// of a capture that does not run changes nothing.
    pub fn finish(&mut self, generation: u64) -> (result: bool)
        ensures
            result == (old(self).runs(generation) && old(self).pending),
            *final(self) == if old(self).runs(generation) {
                CaptureRequests { active: None, pending: false }
            } else {
                *old(self)
            },
            old(self).well_formed() ==> final(self).well_formed(),
    {
        let current = match self.active {
            Some(active) => active == generation,
            None => false,
        };
        if !current {
            return false;
        }
        self.active = None;
        let pending = self.pending;
        self.pending = false;
        pending
    }

    /// Forgets what was asked for meanwhile; the running capture goes on.
    pub fn clear_pending(&mut self)
        ensures
            *final(self) == (CaptureRequests { pending: false, ..*old(self) }),
            final(self).well_formed(),
    {
        self.pending = false;
    }
}

/// The requests after some clicks.
pub open spec fn after_clicks(requests: CaptureRequests, clicks: nat) -> CaptureRequests
    decreases clicks,
{
    if clicks == 0 {
        requests
    } else {
        let before = after_clicks(requests, (clicks - 1) as nat);
        CaptureRequests { pending: before.pending || before.active is Some, ..before }
    }
}

/// However often a capture is asked for while one runs, exactly one more follows: the
/// state after many clicks is that after one.
pub proof fn law_clicks_coalesce(requests: CaptureRequests, clicks: nat)
    requires
        requests.active is Some,
        clicks > 0,
    ensures
        after_clicks(requests, clicks) == after_clicks(requests, 1),
        after_clicks(requests, clicks).pending,
        after_clicks(requests, clicks).active == requests.active,
    decreases clicks,
{
    reveal_with_fuel(after_clicks, 2);
    if clicks > 1 {
        law_clicks_coalesce(requests, (clicks - 1) as nat);
    }
}

/// Only the capture that was started runs, no other number does, and none after it ended.
pub proof fn law_one_capture_runs(requests: CaptureRequests, generation: u64, other: u64)
    ensures
        requests.runs(generation) && requests.runs(other) ==> generation == other,
        requests.active is None ==> !requests.runs(generation),
        (CaptureRequests { active: Some(generation), ..requests }).runs(generation),
        requests.active is None && requests.pending ==> !requests.well_formed(),
        requests.active is Some || !requests.pending ==> requests.well_formed(),
{
}

} // verus!
