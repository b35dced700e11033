//! Keeps the flash out of colour readings: a reading counts only if no flash was on the
//! screen at any time between its two observations.

use vstd::prelude::*;

use crate::numeric::{max_int, min_int};

verus! {

/// A token of the time since the last flash began or ended. Two equal tokens mean that
/// no flash was on the screen in between.
#[derive(Clone, Copy, Debug, PartialEq, Eq, Structural)]
pub struct FlashColorEpoch {
    pub number: u64,
}

impl FlashColorEpoch {
    /// Whether a flash has been on the screen before.
    pub fn follows_flash(self) -> (result: bool)
        ensures
            result == (self.number != 0),
    {
        self.number != 0
    }
}

/// Counts flashes.
#[derive(Clone, Copy, Debug, PartialEq, Eq, Structural)]
pub struct FlashColorGate {
    pub epoch: u64,
    /// Flashes that are on the screen.
    pub active: usize,
    /// No reading is allowed any more.
    pub blocked: bool,
}

/// A flash that is on the screen.
#[derive(Debug)]
pub struct FlashColorGuard {
    pub removed: bool,
}

impl FlashColorGuard {
    /// Notes that the window of the flash is gone for certain.
    pub fn mark_removed(&mut self)
        ensures
            final(self).removed,
    {
        self.removed = true;
    }
}

impl FlashColorGate {
    pub fn new() -> (result: Self)
        ensures
            result == (FlashColorGate { epoch: 0, active: 0, blocked: false }),
    {
        FlashColorGate { epoch: 0, active: 0, blocked: false }
    }

    /// The count after one more change. Epochs are never reused: once they are used up,
    /// no reading is allowed any more.
    pub open spec fn changed(self) -> FlashColorGate {
        if self.epoch == u64::MAX {
            FlashColorGate { blocked: true, ..self }
        } else {
            FlashColorGate { epoch: (self.epoch + 1) as u64, ..self }
        }
    }

    /// The count after a flash began.
    pub open spec fn begun(self) -> FlashColorGate {
        let changed = self.changed();
        FlashColorGate {
            active: min_int(self.active + 1, usize::MAX as int) as usize,
            ..changed
        }
    }

    /// The count after a flash ended. One whose window may still be there blocks all
    /// further readings.
    pub open spec fn ended(self, removed: bool) -> FlashColorGate {
        FlashColorGate {
            active: max_int(self.active - 1, 0) as usize,
            blocked: self.blocked || !removed,
            ..self
        }.changed()
    }

    /// The token of a reading that is allowed now.
    pub open spec fn token(self) -> Option<FlashColorEpoch> {
        if self.active == 0 && !self.blocked {
            Some(FlashColorEpoch { number: self.epoch })
        } else {
            None
        }
    }

    fn change(&mut self)
        ensures
            *final(self) == old(self).changed(),
    {
        match self.epoch.checked_add(1) {
            Some(epoch) => {
                self.epoch = epoch;
            },
            None => {
                self.blocked = true;
            },
        }
    }

    pub fn idle_epoch(&self) -> (result: Option<FlashColorEpoch>)
        ensures
            result == self.token(),
    {
        if self.active == 0 && !self.blocked {
            Some(FlashColorEpoch { number: self.epoch })
        } else {
            None
        }
    }

    /// The token where the count could be looked at without waiting. `None` stands for one
    /// that is in use.
    pub fn idle_epoch_of(gate: Option<&FlashColorGate>) -> (result: Option<FlashColorEpoch>)
        ensures
            result == match gate {
                Some(gate) => gate.token(),
                None => None,
            },
    {
        match gate {
            Some(gate) => gate.idle_epoch(),
            None => None,
        }
    }

    /// Begins a flash.
    pub fn begin(&mut self) -> (result: FlashColorGuard)
        ensures
            *final(self) == old(self).begun(),
            !result.removed,
    {
        self.change();
        self.active = self.active.saturating_add(1);
        FlashColorGuard { removed: false }
    }

    /// Ends a flash.
    pub fn end(&mut self, guard: FlashColorGuard)
        ensures
            *final(self) == old(self).ended(guard.removed),
    {
        self.active = self.active.saturating_sub(1);
        self.blocked = self.blocked || !guard.removed;
        self.change();
    }
}

/// What the count can become by flashes beginning (`true`) and ending (`false`), the latter
/// with certain removal or not.
pub open spec fn after_flashes(gate: FlashColorGate, steps: Seq<(bool, bool)>) -> FlashColorGate
    decreases steps.len(),
{
    if steps.len() == 0 {
        gate
    } else {
        let before = after_flashes(gate, steps.drop_last());
        if steps.last().0 {
            before.begun()
        } else {
            before.ended(steps.last().1)
        }
    }
}

proof fn lemma_epochs_only_grow(gate: FlashColorGate, steps: Seq<(bool, bool)>)
    ensures
        gate.blocked ==> after_flashes(gate, steps).blocked,
        steps.len() > 0 ==> after_flashes(gate, steps).blocked || after_flashes(gate, steps).epoch
            > gate.epoch,
        after_flashes(gate, steps).epoch >= gate.epoch,
    decreases steps.len(),
{
    if steps.len() > 0 {
        lemma_epochs_only_grow(gate, steps.drop_last());
    }
}

/// Two readings with the same token had no flash in between: whatever began or ended
/// after the first one, its token is never given again.
pub proof fn law_tokens_are_never_reused(gate: FlashColorGate, steps: Seq<(bool, bool)>)
    requires
        steps.len() > 0,
        gate.token() is Some,
    ensures
        after_flashes(gate, steps).token() != gate.token(),
{
    lemma_epochs_only_grow(gate, steps);
}

/// A flash that may still be on the screen blocks readings for good.
pub proof fn law_failed_removal_blocks_for_good(gate: FlashColorGate, steps: Seq<(bool, bool)>)
    ensures
        after_flashes(gate.ended(false), steps).token() is None,
{
    lemma_epochs_only_grow(gate.ended(false), steps);
}

/// While flashes overlap, the end of one of them allows no reading.
pub proof fn law_overlapping_flashes_block(gate: FlashColorGate)
    requires
        gate.active < usize::MAX - 1,
    ensures
        gate.begun().token() is None,
        gate.begun().begun().ended(true).token() is None,
{
}

/// Number of flashes on the screen after some steps.
pub open spec fn alive(steps: Seq<(bool, bool)>) -> int
    decreases steps.len(),
{
    if steps.len() == 0 {
        0
    } else if steps.last().0 {
        alive(steps.drop_last()) + 1
    } else {
        alive(steps.drop_last()) - 1
    }
}

/// The steps can happen: only a flash that is on the screen ends, and there are never more
/// of them than can be counted.
pub open spec fn is_history(steps: Seq<(bool, bool)>) -> bool
    decreases steps.len(),
{
    steps.len() > 0 ==> {
        &&& is_history(steps.drop_last())
        &&& if steps.last().0 {
            alive(steps.drop_last()) < usize::MAX
        } else {
            alive(steps.drop_last()) > 0
        }
    }
}

/// Some flash ended whose window may still be there.
pub open spec fn has_failed(steps: Seq<(bool, bool)>) -> bool
    decreases steps.len(),
{
    steps.len() > 0 && (has_failed(steps.drop_last()) || (!steps.last().0 && !steps.last().1))
}

/// Some flash began at or behind the place `from`.
pub open spec fn has_begun(steps: Seq<(bool, bool)>, from: int) -> bool {
    exists|k: int| from <= k < steps.len() && (#[trigger] steps[k]).0
}

/// The count after some steps from the start.
pub open spec fn counted(steps: Seq<(bool, bool)>) -> FlashColorGate {
    after_flashes(FlashColorGate { epoch: 0, active: 0, blocked: false }, steps)
}

proof fn lemma_count_is_exact(steps: Seq<(bool, bool)>)
    requires
        is_history(steps),
    ensures
        0 <= alive(steps) <= usize::MAX,
        counted(steps).active == alive(steps),
        counted(steps).epoch == min_int(steps.len() as int, u64::MAX as int),
        counted(steps).blocked == (has_failed(steps) || steps.len() > u64::MAX),
    decreases steps.len(),
{
    if steps.len() > 0 {
        lemma_count_is_exact(steps.drop_last());
    }
}

proof fn lemma_history_begins_with_a_flash(steps: Seq<(bool, bool)>, from: int)
    requires
        is_history(steps),
        0 <= from < steps.len(),
        alive(steps.take(from)) == 0,
    ensures
        steps[from].0,
    decreases steps.len(),
{
    if from == steps.len() - 1 {
        assert(steps.take(from) =~= steps.drop_last());
    } else {
        assert(steps.drop_last().take(from) =~= steps.take(from));
        lemma_history_begins_with_a_flash(steps.drop_last(), from);
    }
}

proof fn lemma_history_has_histories(steps: Seq<(bool, bool)>, length: int)
    requires
        is_history(steps),
        0 <= length <= steps.len(),
    ensures
        is_history(steps.take(length)),
    decreases steps.len(),
{
    if length == steps.len() {
        assert(steps.take(length) =~= steps);
    } else {
        assert(steps.drop_last().take(length) =~= steps.take(length));
        lemma_history_has_histories(steps.drop_last(), length);
    }
}

/// A token is given exactly while no flash is on the screen, none ended whose window may
/// still be there, and the epochs have not run out.
pub proof fn law_tokens_are_given_while_idle(steps: Seq<(bool, bool)>)
    requires
        is_history(steps),
    ensures
        counted(steps).token() is Some <==> alive(steps) == 0 && !has_failed(steps) && steps.len()
            <= u64::MAX,
{
    lemma_count_is_exact(steps);
}

/// A token says that it follows a flash exactly where one has begun before.
pub proof fn law_tokens_follow_flashes(steps: Seq<(bool, bool)>)
    requires
        is_history(steps),
        counted(steps).token() is Some,
    ensures
        counted(steps).token()->0.number != 0 <==> has_begun(steps, 0),
{
    lemma_count_is_exact(steps);
    if steps.len() > 0 {
        assert(alive(steps.take(0)) == 0);
        lemma_history_begins_with_a_flash(steps, 0);
    }
}

/// Two tokens of one history are equal exactly where no flash began in between.
pub proof fn law_equal_tokens_have_no_flash_between(steps: Seq<(bool, bool)>, earlier: int)
    requires
        is_history(steps),
        0 <= earlier <= steps.len(),
        counted(steps.take(earlier)).token() is Some,
        counted(steps).token() is Some,
    ensures
        counted(steps.take(earlier)).token() == counted(steps).token() <==> !has_begun(
            steps,
            earlier,
        ),
{
    lemma_history_has_histories(steps, earlier);
    lemma_count_is_exact(steps.take(earlier));
    lemma_count_is_exact(steps);
    if earlier < steps.len() {
        lemma_history_begins_with_a_flash(steps, earlier);
    } else {
        assert(steps.take(earlier) =~= steps);
    }
}

/// A flash that begins is counted and uses up the token; one that ends is no longer counted;
/// a reading is allowed exactly while none is counted and none has failed to go.
pub proof fn law_flashes_are_counted(gate: FlashColorGate, removed: bool)
    requires
        gate.epoch < u64::MAX - 1,
        gate.active < usize::MAX,
    ensures
        gate.begun().active == gate.active + 1,
        gate.begun().token() is None,
        gate.begun().epoch == gate.epoch + 1,
        gate.begun().blocked == gate.blocked,
        gate.begun().ended(removed).active == gate.active,
        gate.begun().ended(removed).epoch == gate.epoch + 2,
        gate.begun().ended(removed).blocked == (gate.blocked || !removed),
        gate.token() is Some <==> gate.active == 0 && !gate.blocked,
        gate.token() is Some ==> gate.token()->0.number == gate.epoch,
        gate.active == 0 ==> gate.ended(removed).active == 0,
{
}

} // verus!
