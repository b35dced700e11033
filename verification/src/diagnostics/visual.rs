//! Observations of windows around a capture, for the log only.

use vstd::prelude::*;

use crate::numeric::{elapsed, elapsed_since};

verus! {

/// Most windows that one observation lists.
pub const MAX_WINDOWS: usize = 16;

/// How long a capture counts as recent, in nanoseconds.
pub const CONTEXT_DURATION: u64 = 2_000_000_000;

/// Time that one observation may take, in nanoseconds.
pub const SNAPSHOT_BUDGET: u64 = 10_000_000;

/// The capture that is still recent at `now`. `last` is its number and when it began.
pub fn recent_at(last: Option<(u64, u64)>, now: u64) -> (result: Option<u64>)
    ensures
        result == match last {
            Some((request, started)) => if elapsed(now, started) < CONTEXT_DURATION {
                Some(request)
            } else {
                None
            },
            None => None,
        },
{
    match last {
        Some((request, started)) => if elapsed_since(now, started) < CONTEXT_DURATION {
            Some(request)
        } else {
            None
        },
        None => None,
    }
}

/// A bounded list of windows.
#[derive(Debug)]
pub struct Handles {
    pub values: [isize; 16],
    pub count: usize,
    /// There were more windows than fit.
    pub truncated: bool,
}

impl Default for Handles {
    fn default() -> (result: Self)
        ensures
            result.count == 0,
            !result.truncated,
            result.values@ == Seq::new(16, |i: int| 0isize),
            result.well_formed(),
    {
        let result = Handles { values: [0; 16], count: 0, truncated: false };
        assert(result.values@ =~= Seq::new(16, |i: int| 0isize));
        result
    }
}

impl Handles {
    pub open spec fn well_formed(&self) -> bool {
        self.count <= MAX_WINDOWS
    }

    /// The windows in the list.
    pub open spec fn listed(&self) -> Seq<isize> {
        self.values@.take(self.count as int)
    }

    /// Adds a window where there is room. Returns whether there was.
    pub fn push(&mut self, handle: isize) -> (result: bool)
        requires
            old(self).well_formed(),
        ensures
            final(self).well_formed(),
            result == (old(self).count < MAX_WINDOWS),
            final(self).truncated == (old(self).truncated || !result),
            final(self).values@ == if result {
                old(self).values@.update(old(self).count as int, handle)
            } else {
                old(self).values@
            },
            final(self).listed() == if result {
                old(self).listed().push(handle)
            } else {
                old(self).listed()
            },
    {
        if self.count == MAX_WINDOWS {
            self.truncated = true;
            return false;
        }
        let ghost before = self.listed();
        self.values[self.count] = handle;
        self.count += 1;
        assert(self.listed() =~= before.push(handle));
        true
    }
}

/// The list holds its first windows in order, as many as it counts.
pub proof fn law_windows_are_listed_in_order(handles: Handles, at: int)
    requires
        handles.well_formed(),
        0 <= at < handles.count,
    ensures
        handles.listed().len() == handles.count,
        handles.listed()[at] == handles.values@[at],
        handles.count <= 16,
{
}

} // verus!
