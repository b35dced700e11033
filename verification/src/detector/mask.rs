//! Masks of active cells: opening, gaps and connected components.

use std::collections::VecDeque;

use vstd::prelude::*;
use vstd::set_lib::{lemma_int_range, lemma_len_subset, set_int_range};

use crate::detector::picture::lemma_index_fits;
use crate::numeric::{max_u32, min_u32};

verus! {

/// A grid of cells, row by row.
#[derive(Debug)]
pub struct Mask {
    pub width: u32,
    pub height: u32,
    pub cells: Vec<bool>,
}

impl Mask {
    pub open spec fn well_formed(&self) -> bool {
        self.cells@.len() == self.width * self.height && self.width * self.height <= u32::MAX
    }

    /// The place is on the grid and its cell is active.
    pub open spec fn on(&self, x: int, y: int) -> bool {
        &&& 0 <= x < self.width
        &&& 0 <= y < self.height
        &&& self.cells@[y * self.width + x]
    }

    /// The place or one of its eight neighbours is active.
    pub open spec fn touched(&self, x: int, y: int) -> bool {
        ||| self.on(x - 1, y - 1)
        ||| self.on(x, y - 1)
        ||| self.on(x + 1, y - 1)
        ||| self.on(x - 1, y)
        ||| self.on(x, y)
        ||| self.on(x + 1, y)
        ||| self.on(x - 1, y + 1)
        ||| self.on(x, y + 1)
        ||| self.on(x + 1, y + 1)
    }

    /// The place and its eight neighbours are on the grid and active.
    pub open spec fn surrounded(&self, x: int, y: int) -> bool {
        &&& self.on(x - 1, y - 1)
        &&& self.on(x, y - 1)
        &&& self.on(x + 1, y - 1)
        &&& self.on(x - 1, y)
        &&& self.on(x, y)
        &&& self.on(x + 1, y)
        &&& self.on(x - 1, y + 1)
        &&& self.on(x, y + 1)
        &&& self.on(x + 1, y + 1)
    }

    fn get(&self, x: i64, y: i64) -> (result: bool)
        requires
            self.well_formed(),
        ensures
            result == self.on(x as int, y as int),
    {
        if x < 0 || y < 0 || x >= self.width as i64 || y >= self.height as i64 {
            return false;
        }
        let length: usize = self.cells.len();
        proof {
            lemma_index_fits(x as int, y as int, self.width as int, self.height as int);
        }
        self.cells[y as usize * self.width as usize + x as usize]
    }

    /// Whether a place is on the grid and active.
    pub fn is_on(&self, x: u32, y: u32) -> (result: bool)
        requires
            self.well_formed(),
        ensures
            result == self.on(x as int, y as int),
    {
        self.get(x as i64, y as i64)
    }

    /// Every active cell spreads to its neighbours.
    pub fn dilate(&self) -> (result: Mask)
        requires
            self.well_formed(),
        ensures
            result.well_formed(),
            result.width == self.width,
            result.height == self.height,
            forall|x: int, y: int|
                0 <= x < self.width && 0 <= y < self.height ==> #[trigger] result.on(x, y)
                    == self.touched(x, y),
    {
        self.map_cells(true)
    }

    /// Only cells whose neighbours are all active stay.
    pub fn erode(&self) -> (result: Mask)
        requires
            self.well_formed(),
        ensures
            result.well_formed(),
            result.width == self.width,
            result.height == self.height,
            forall|x: int, y: int|
                0 <= x < self.width && 0 <= y < self.height ==> #[trigger] result.on(x, y)
                    == self.surrounded(x, y),
    {
        self.map_cells(false)
    }

    fn map_cells(&self, spread: bool) -> (result: Mask)
        requires
            self.well_formed(),
        ensures
            result.well_formed(),
            result.width == self.width,
            result.height == self.height,
            forall|x: int, y: int|
                0 <= x < self.width && 0 <= y < self.height ==> #[trigger] result.on(x, y) == if spread {
                    self.touched(x, y)
                } else {
                    self.surrounded(x, y)
                },
    {
        let length: usize = self.cells.len();
        let mut cells: Vec<bool> = Vec::new();
        let mut y: u32 = 0;
        assert(0 * self.width == 0) by (nonlinear_arith);
        while y < self.height
            invariant
                self.well_formed(),
                y <= self.height,
                cells@.len() == y * self.width,
                forall|a: int, b: int|
                    0 <= a < self.width && 0 <= b < y ==> #[trigger] cells@[b * self.width + a]
                        == if spread {
                        self.touched(a, b)
                    } else {
                        self.surrounded(a, b)
                    },
            decreases self.height - y,
        {
            let mut x: u32 = 0;
            while x < self.width
                invariant
                    self.well_formed(),
                    x <= self.width,
                    y < self.height,
                    cells@.len() == y * self.width + x,
                    forall|a: int, b: int|
                        0 <= a < self.width && 0 <= b && (b < y || (b == y && a < x))
                            ==> #[trigger] cells@[b * self.width + a] == if spread {
                            self.touched(a, b)
                        } else {
                            self.surrounded(a, b)
                        },
                decreases self.width - x,
            {
                let (a, b): (i64, i64) = (x as i64, y as i64);
                let value = if spread {
                    self.get(a - 1, b - 1) || self.get(a, b - 1) || self.get(a + 1, b - 1)
                        || self.get(a - 1, b) || self.get(a, b) || self.get(a + 1, b) || self.get(
                        a - 1,
                        b + 1,
                    ) || self.get(a, b + 1) || self.get(a + 1, b + 1)
                } else {
                    self.get(a - 1, b - 1) && self.get(a, b - 1) && self.get(a + 1, b - 1)
                        && self.get(a - 1, b) && self.get(a, b) && self.get(a + 1, b) && self.get(
                        a - 1,
                        b + 1,
                    ) && self.get(a, b + 1) && self.get(a + 1, b + 1)
                };
                let ghost before = cells@;
                cells.push(value);
                proof {
                    assert forall|a: int, b: int|
                        0 <= a < self.width && 0 <= b && (b < y || (b == y && a < x + 1)) implies #[trigger] cells@[b
                        * self.width + a] == if spread {
                        self.touched(a, b)
                    } else {
                        self.surrounded(a, b)
                    } by {
                        if b < y || a < x {
                            lemma_earlier_place(a, b, x as int, y as int, self.width as int);
                            assert(cells@[b * self.width + a] == before[b * self.width + a]);
                        }
                    }
                }
                x += 1;
            }
            assert((y + 1) * self.width == y * self.width + self.width) by (nonlinear_arith);
            y += 1;
        }
        assert(self.width * self.height == self.height * self.width) by (nonlinear_arith);
        Mask { width: self.width, height: self.height, cells }
    }

    /// Removes what is thinner than three cells.
    pub open spec fn opens_to(&self, result: &Mask) -> bool {
        &&& result.well_formed()
        &&& result.width == self.width
        &&& result.height == self.height
        &&& forall|x: int, y: int| #[trigger] result.on(x, y) == self.opened(x, y)
    }

    /// The place is on the grid, and it or one of its neighbours is surrounded.
    pub open spec fn opened(&self, x: int, y: int) -> bool {
        &&& 0 <= x < self.width
        &&& 0 <= y < self.height
        &&& {
            ||| self.surrounded(x - 1, y - 1)
            ||| self.surrounded(x, y - 1)
            ||| self.surrounded(x + 1, y - 1)
            ||| self.surrounded(x - 1, y)
            ||| self.surrounded(x, y)
            ||| self.surrounded(x + 1, y)
            ||| self.surrounded(x - 1, y + 1)
            ||| self.surrounded(x, y + 1)
            ||| self.surrounded(x + 1, y + 1)
        }
    }

    /// Removes what is thinner than three cells.
    pub fn open(&self) -> (result: Mask)
        requires
            self.well_formed(),
        ensures
            self.opens_to(&result),
    {
        let eroded = self.erode();
        let result = eroded.dilate();
        proof {
            assert forall|x: int, y: int| #[trigger] eroded.on(x, y) == self.surrounded(x, y) by {
                if !(0 <= x < self.width && 0 <= y < self.height) {
                    assert(!self.on(x, y));
                }
            }
            assert forall|x: int, y: int| #[trigger] result.on(x, y) == self.opened(x, y) by {
                if 0 <= x < self.width && 0 <= y < self.height {
                    assert(result.on(x, y) == eroded.touched(x, y));
                }
            }
        }
        result
    }
}

/// A place further up, or further left in the same row, has a smaller index.
proof fn lemma_earlier_place(x: int, y: int, later_x: int, later_y: int, width: int)
    requires
        0 <= x < width,
        0 <= y,
        0 <= later_x,
        y < later_y || (y == later_y && x < later_x),
    ensures
        0 <= y * width + x < later_y * width + later_x,
{
    assert(0 <= y * width) by (nonlinear_arith)
        requires
            0 <= y,
            0 <= width,
    ;
    if y < later_y {
        assert(y * width + width <= later_y * width) by (nonlinear_arith)
            requires
                y + 1 <= later_y,
                0 <= width,
        ;
    }
}

/// Opening never adds a cell.
pub proof fn law_opening_adds_nothing(mask: Mask, x: int, y: int)
    requires
        mask.opened(x, y),
    ensures
        mask.on(x, y),
{
}

/// A stretch of a row of flags, from `start` to before `end`, is a gap that counts as
/// closed: it is empty, short, and has something on both sides.
pub open spec fn is_short_gap(flags: Seq<bool>, start: int, end: int, longest: int) -> bool {
    &&& 0 < start < end < flags.len()
    &&& end - start <= longest
    &&& flags[start - 1]
    &&& flags[end]
    &&& forall|k: int| start <= k < end ==> !(#[trigger] flags[k])
}

/// The flag at `at` is set, or lies in a short gap.
pub open spec fn is_closed_at(flags: Seq<bool>, at: int, longest: int) -> bool {
    flags[at] || exists|start: int, end: int|
        start <= at < end && #[trigger] is_short_gap(flags, start, end, longest)
}

/// Closes short gaps in a row of flags.
pub fn close_short_gaps(flags: &mut Vec<bool>, longest: usize)
    ensures
        final(flags)@.len() == old(flags)@.len(),
        forall|at: int|
            0 <= at < old(flags)@.len() ==> #[trigger] final(flags)@[at] == is_closed_at(
                old(flags)@,
                at,
                longest as int,
            ),
{
    let ghost before = flags@;
    let length: usize = flags.len();
    let mut index: usize = 0;
    while index < length
        invariant
            index <= length,
            length == before.len(),
            flags@.len() == length,
            before == old(flags)@,
            index > 0 && index < length ==> !(!before[index - 1] && !before[index as int]),
            forall|at: int| index <= at < length ==> #[trigger] flags@[at] == before[at],
            forall|at: int|
                0 <= at < index ==> #[trigger] flags@[at] == is_closed_at(
                    before,
                    at,
                    longest as int,
                ),
        decreases length - index,
    {
        if flags[index] {
            index += 1;
            proof {
                assert(is_closed_at(before, index - 1, longest as int));
            }
            continue ;
        }
        let start: usize = index;
        while index < length && !flags[index]
            invariant
                start <= index <= length,
                length == before.len(),
                flags@.len() == length,
                forall|at: int| start <= at < length ==> #[trigger] flags@[at] == before[at],
                forall|at: int| start <= at < index ==> !(#[trigger] before[at]),
            decreases length - index,
        {
            assert(flags@[index as int] == before[index as int]);
            index += 1;
        }
        let close = start > 0 && index < length && index - start <= longest;
        proof {
            if index < length {
                assert(flags@[index as int] == before[index as int]);
                assert(before[index as int]);
            }
            assert forall|at: int| start <= at < index implies is_closed_at(
                before,
                at,
                longest as int,
            ) == close by {
                assert(!before[at]);
                if close {
                    assert(is_short_gap(before, start as int, index as int, longest as int));
                } else if is_closed_at(before, at, longest as int) {
                    let (s, e) = choose|s: int, e: int|
                        s <= at < e && #[trigger] is_short_gap(before, s, e, longest as int);
                    assert(s == start) by {
                        if s < start {
                            assert(!before[start - 1]);
                            assert(!before[start as int]);
                        } else if s > start {
                            assert(before[s - 1]);
                            assert(!before[s - 1]);
                        }
                    }
                    assert(e == index) by {
                        if e < index {
                            assert(before[e]);
                            assert(!before[e]);
                        } else if e > index {
                            assert(!before[index as int]);
                        }
                    }
                }
            }
        }
        if close {
            let ghost unfilled = flags@;
            let mut at: usize = start;
            while at < index
                invariant
                    start <= at <= index <= length,
                    length == before.len(),
                    flags@.len() == length,
                    unfilled.len() == length,
                    forall|k: int| start <= k < at ==> #[trigger] flags@[k],
                    forall|k: int| 0 <= k < start || at <= k < length ==> #[trigger] flags@[k]
                        == unfilled[k],
                decreases index - at,
            {
                flags.set(at, true);
                at += 1;
            }
        }
    }
}

/// Bounds and size of a connected group of active cells.
#[derive(Clone, Copy, Debug, PartialEq, Eq, Structural)]
pub struct Component {
    pub min_x: u32,
    pub min_y: u32,
    pub max_x: u32,
    pub max_y: u32,
    pub pixel_count: u32,
}

/// The cells of a mask.
pub struct Grid {
    pub width: int,
    pub height: int,
    pub cells: Seq<bool>,
}

impl View for Mask {
    type V = Grid;

    open spec fn view(&self) -> Grid {
        Grid { width: self.width as int, height: self.height as int, cells: self.cells@ }
    }
}

impl Grid {
    /// The cell with this index is active.
    pub open spec fn active(self, index: int) -> bool {
        0 <= index < self.cells.len() && self.cells[index]
    }

    /// Two cells share a side.
    pub open spec fn adjacent(self, index: int, other: int) -> bool {
        &&& 0 <= index < self.cells.len()
        &&& 0 <= other < self.cells.len()
        &&& {
            ||| other == index + 1 && index % (self.width as int) != self.width - 1
            ||| other == index - 1 && index % (self.width as int) != 0
            ||| other == index + self.width
            ||| other == index - self.width
        }
    }

    /// The set holds every active cell that shares a side with one of its own.
    #[verifier::opaque]
    pub open spec fn is_closed(self, cells: Set<int>) -> bool {
        forall|index: int, other: int|
            cells.contains(index) && #[trigger] self.adjacent(index, other) && self.active(other)
                ==> cells.contains(other)
    }

    /// The connected group of a cell: the smallest such set that holds the cell.
    #[verifier::opaque]
    pub open spec fn is_group(self, start: int, cells: Set<int>) -> bool {
        &&& cells.finite()
        &&& cells.contains(start)
        &&& forall|index: int| #[trigger] cells.contains(index) ==> self.active(index)
        &&& self.is_closed(cells)
        &&& forall|other: Set<int>| #[trigger]
            self.is_closed(other) && other.contains(start) ==> cells.subset_of(other)
    }

    /// The component gives bounds and size of a set of cells.
    #[verifier::opaque]
    pub open spec fn measures(self, component: Component, cells: Set<int>) -> bool {
        let width = self.width as int;
        &&& component.pixel_count == cells.len()
        &&& forall|index: int| #[trigger]
            cells.contains(index) ==> component.min_x <= index % width <= component.max_x
                && component.min_y <= index / width <= component.max_y
        &&& exists|index: int| #[trigger] cells.contains(index) && index % width == component.min_x
        &&& exists|index: int| #[trigger] cells.contains(index) && index % width == component.max_x
        &&& exists|index: int| #[trigger] cells.contains(index) && index / width == component.min_y
        &&& exists|index: int| #[trigger] cells.contains(index) && index / width == component.max_y
    }

    /// The component is that of the cell `start`, which is its first one.
    pub open spec fn describes(self, component: Component, start: int) -> bool {
        exists|cells: Set<int>| #[trigger]
            self.is_group(start, cells) && self.measures(component, cells) && forall|index: int|
                cells.contains(index) ==> start <= index
    }

    /// The components are those of all connected groups, by their first cells.
    pub open spec fn lists_groups(self, components: Seq<Component>, starts: Seq<int>) -> bool {
        &&& components.len() == starts.len()
        &&& forall|k: int|
            0 <= k < starts.len() ==> self.describes(#[trigger] components[k], starts[k])
        &&& forall|k: int, l: int| 0 <= k < l < starts.len() ==> starts[k] < starts[l]
    }

    /// Every active cell belongs to the group of one of the starts.
    pub open spec fn covers_all(self, starts: Seq<int>, limit: int) -> bool {
        forall|index: int|
            0 <= index < limit && #[trigger] self.active(index) ==> exists|k: int|
                0 <= k < starts.len() && self.in_group(#[trigger] starts[k], index)
    }

    /// The components are those of all connected groups of the mask.
    pub open spec fn is_survey(self, components: Seq<Component>) -> bool {
        exists|starts: Seq<int>| #[trigger]
            self.lists_groups(components, starts) && self.covers_all(
                starts,
                self.cells.len() as int,
            )
    }

    /// The components of the connected groups, by the first cells of the groups.
    pub open spec fn survey(self) -> Seq<Component> {
        choose|components: Seq<Component>| self.is_survey(components)
    }

    pub open spec fn in_group(self, start: int, index: int) -> bool {
        exists|cells: Set<int>| #[trigger] self.is_group(start, cells) && cells.contains(index)
    }
}

/// Sharing a side is mutual.
proof fn lemma_adjacent_is_mutual(mask: Grid, index: int, other: int)
    requires
        mask.width > 0,
        mask.adjacent(index, other),
    ensures
        mask.adjacent(other, index),
{
    let width = mask.width as int;
    vstd::arithmetic::div_mod::lemma_fundamental_div_mod(index, width);
    let q = index / width;
    let r = index % width;
    assert(width * q == q * width) by (nonlinear_arith);
    if other == index + 1 && r != width - 1 {
        vstd::arithmetic::div_mod::lemma_fundamental_div_mod_converse(other, width, q, r + 1);
    } else if other == index - 1 && r != 0 {
        vstd::arithmetic::div_mod::lemma_fundamental_div_mod_converse(other, width, q, r - 1);
    }
}

proof fn lemma_few_cells(cells: Set<int>, count: int)
    requires
        cells.finite(),
        count >= 0,
        forall|index: int| #[trigger] cells.contains(index) ==> 0 <= index < count,
    ensures
        cells.len() <= count,
{
    lemma_int_range(0, count);
    assert(cells.subset_of(set_int_range(0, count)));
    lemma_len_subset(cells, set_int_range(0, count));
}

/// The state of a walk through one group.
pub open spec fn walk_holds(
    mask: Grid,
    start: int,
    earlier: Set<int>,
    seen: Set<int>,
    done: Set<int>,
    visited: Seq<bool>,
    queue: Seq<usize>,
) -> bool {
    &&& visited.len() == mask.cells.len()
    &&& forall|index: int|
        0 <= index < visited.len() ==> #[trigger] visited[index] == (earlier.contains(index)
            || seen.contains(index))
    &&& seen.finite()
    &&& done.finite()
    &&& seen.contains(start)
    &&& forall|index: int| #[trigger] seen.contains(index) ==> mask.active(index)
        && !earlier.contains(index)
    &&& forall|index: int| #[trigger] done.contains(index) ==> seen.contains(index)
    &&& forall|k: int|
        0 <= k < queue.len() ==> seen.contains((#[trigger] queue[k]) as int) && !done.contains(
            queue[k] as int,
        )
    &&& queue.no_duplicates()
    &&& forall|index: int| #[trigger] seen.contains(index) ==> done.contains(index)
        || queue.contains(index as usize)
    &&& forall|other: Set<int>| #[trigger]
        mask.is_closed(other) && other.contains(start) ==> seen.subset_of(other)
}

/// The active neighbours of every cell that is done have been seen.
pub open spec fn done_is_explored(mask: Grid, seen: Set<int>, done: Set<int>) -> bool {
    forall|index: int, other: int|
        done.contains(index) && #[trigger] mask.adjacent(index, other) && mask.active(other)
            ==> seen.contains(other)
}

fn visit(mask: &Mask, index: usize, visited: &mut Vec<bool>, queue: &mut VecDeque<usize>)
    requires
        index < mask.cells@.len(),
        old(visited)@.len() == mask.cells@.len(),
    ensures
        mask@.active(index as int) && !old(visited)@[index as int] ==> final(visited)@ == old(
            visited,
        )@.update(index as int, true) && final(queue)@ == old(queue)@.push(index),
        !(mask@.active(index as int) && !old(visited)@[index as int]) ==> final(visited)@ == old(
            visited,
        )@ && final(queue)@ == old(queue)@,
{
    if mask.cells[index] && !visited[index] {
        visited.set(index, true);
        queue.push_back(index);
    }
}

/// One more neighbour of a seen cell was visited.
proof fn lemma_visit_keeps_walk(
    mask: Grid,
    start: int,
    earlier: Set<int>,
    seen: Set<int>,
    done: Set<int>,
    visited: Seq<bool>,
    queue: Seq<usize>,
    from: int,
    index: int,
    new_visited: Seq<bool>,
    new_queue: Seq<usize>,
) -> (result: Set<int>)
    requires
        mask.width > 0,
        mask.is_closed(earlier),
        walk_holds(mask, start, earlier, seen, done, visited, queue),
        seen.contains(from),
        mask.adjacent(from, index),
        index <= usize::MAX,
        mask.active(index) && !visited[index] ==> new_visited == visited.update(index, true)
            && new_queue == queue.push(index as usize),
        !(mask.active(index) && !visited[index]) ==> new_visited == visited && new_queue == queue,
    ensures
        walk_holds(mask, start, earlier, result, done, new_visited, new_queue),
        seen.subset_of(result),
        mask.active(index) ==> result.contains(index),
{
    reveal(Grid::is_closed);
    lemma_adjacent_is_mutual(mask, from, index);
    if mask.active(index) && !visited[index] {
        let result = seen.insert(index);
        assert(!seen.contains(index) && !earlier.contains(index));
        assert(!done.contains(index));
        assert(new_queue.no_duplicates()) by {
            assert forall|k: int| 0 <= k < queue.len() implies queue[k] as int != index by {
                assert(seen.contains(queue[k] as int));
            }
        }
        assert forall|i: int| #[trigger] result.contains(i) implies done.contains(i)
            || new_queue.contains(i as usize) by {
            if i == index {
                assert(new_queue[queue.len() as int] == index as usize);
            } else if !done.contains(i) {
                let k = choose|k: int| 0 <= k < queue.len() && queue[k] == i as usize;
                assert(new_queue[k] == i as usize);
            }
        }
        assert forall|other: Set<int>| #[trigger]
            mask.is_closed(other) && other.contains(start) implies result.subset_of(other) by {
            assert(seen.subset_of(other));
            assert(other.contains(from));
        }
        result
    } else {
        if mask.active(index) {
            if earlier.contains(index) {
                assert(mask.adjacent(index, from) && mask.active(from));
                assert(earlier.contains(from));
            }
            assert(seen.contains(index));
        }
        seen
    }
}

/// Walks through the group of a cell that was not visited yet.
fn walk(mask: &Mask, start: usize, visited: &mut Vec<bool>, Ghost(earlier): Ghost<Set<int>>)
    -> (result: (Component, Ghost<Set<int>>))
    requires
        mask.well_formed(),
        mask.width > 0,
        start < mask.cells@.len(),
        mask@.active(start as int),
        old(visited)@.len() == mask.cells@.len(),
        forall|index: int|
            0 <= index < old(visited)@.len() ==> #[trigger] old(visited)@[index]
                == earlier.contains(index),
        mask@.is_closed(earlier),
        !earlier.contains(start as int),
    ensures
        mask@.is_group(start as int, result.1@),
        mask@.measures(result.0, result.1@),
        final(visited)@.len() == mask.cells@.len(),
        forall|index: int| #[trigger] result.1@.contains(index) ==> !earlier.contains(index),
        forall|index: int|
            0 <= index < final(visited)@.len() ==> #[trigger] final(visited)@[index] == (
            earlier.contains(index) || result.1@.contains(index)),
{
    let width: usize = mask.width as usize;
    let length: usize = mask.cells.len();
    let ghost origin = start as int;
    let mut queue: VecDeque<usize> = VecDeque::new();
    visited.set(start, true);
    queue.push_back(start);
    let ghost mut seen: Set<int> = Set::empty().insert(origin);
    let ghost mut done: Set<int> = Set::empty();
    let x: u32 = (start % width) as u32;
    let y: u32 = (start / width) as u32;
    proof {
        lemma_place_fits(origin, mask.width as int, mask.height as int);
        assert(queue@ =~= seq![start]);
        assert(queue@[0] == start);
        assert forall|index: int| #[trigger] seen.contains(index) implies done.contains(index)
            || queue@.contains(index as usize) by {
            assert(queue@.contains(start));
        }
    }
    let mut component = Component { min_x: x, min_y: y, max_x: x, max_y: y, pixel_count: 0 };
    assert(seen.contains(origin) && origin % (width as int) == x && origin / (width as int) == y);
    while queue.len() > 0
        invariant
            mask.well_formed(),
            mask.width > 0,
            width == mask.width,
            length == mask.cells@.len(),
            origin == start as int,
            mask@.is_closed(earlier),
            walk_holds(mask@, origin, earlier, seen, done, visited@, queue@),
            done_is_explored(mask@, seen, done),
            component.pixel_count == done.len(),
            forall|index: int| #[trigger]
                done.contains(index) ==> component.min_x <= index % (width as int)
                    <= component.max_x && component.min_y <= index / (width as int)
                    <= component.max_y,
            exists|index: int| #[trigger]
                seen.contains(index) && index % (width as int) == component.min_x,
            exists|index: int| #[trigger]
                seen.contains(index) && index % (width as int) == component.max_x,
            exists|index: int| #[trigger]
                seen.contains(index) && index / (width as int) == component.min_y,
            exists|index: int| #[trigger]
                seen.contains(index) && index / (width as int) == component.max_y,
        decreases length - done.len(),
    {
        let ghost waiting = queue@;
        let ghost before = seen;
        let index: usize = match queue.pop_front() {
            Some(index) => index,
            None => 0,
        };
        let ghost here = index as int;
        proof {
            assert(index == waiting[0]);
            assert(queue@ =~= waiting.skip(1));
            assert(seen.contains(waiting[0] as int));
            assert(mask@.active(here));
            lemma_place_fits(here, mask.width as int, mask.height as int);
            let old_done = done;
            done = done.insert(here);
            assert forall|k: int| 0 <= k < queue@.len() implies seen.contains(
                (#[trigger] queue@[k]) as int,
            ) && !done.contains(queue@[k] as int) by {
                assert(queue@[k] == waiting[k + 1]);
            }
            assert(queue@.no_duplicates());
            assert forall|i: int| #[trigger] seen.contains(i) implies done.contains(i)
                || queue@.contains(i as usize) by {
                if !done.contains(i) {
                    let k = choose|k: int| 0 <= k < waiting.len() && waiting[k] == i as usize;
                    assert(k != 0);
                    assert(queue@[k - 1] == i as usize);
                }
            }
            assert(walk_holds(mask@, origin, earlier, seen, done, visited@, queue@));
            lemma_few_cells(done, length as int);
        }
        let x: u32 = (index % width) as u32;
        let y: u32 = (index / width) as u32;
        component.min_x = min_u32(component.min_x, x);
        component.min_y = min_u32(component.min_y, y);
        component.max_x = max_u32(component.max_x, x);
        component.max_y = max_u32(component.max_y, y);
        component.pixel_count += 1;
        if x > 0 {
            let ghost (v, q) = (visited@, queue@);
            visit(mask, index - 1, visited, &mut queue);
            proof {
                seen = lemma_visit_keeps_walk(
                    mask@, origin, earlier, seen, done, v, q, here, here - 1, visited@, queue@,
                );
            }
        }
        if x + 1 < mask.width {
            let ghost (v, q) = (visited@, queue@);
            proof {
                lemma_right_fits(here, mask.width as int, mask.height as int);
            }
            visit(mask, index + 1, visited, &mut queue);
            proof {
                seen = lemma_visit_keeps_walk(
                    mask@, origin, earlier, seen, done, v, q, here, here + 1, visited@, queue@,
                );
            }
        }
        if y > 0 {
            let ghost (v, q) = (visited@, queue@);
            proof {
                lemma_above_fits(here, mask.width as int);
            }
            visit(mask, index - width, visited, &mut queue);
            proof {
                seen = lemma_visit_keeps_walk(
                    mask@, origin, earlier, seen, done, v, q, here, here - width, visited@, queue@,
                );
            }
        }
        if y + 1 < mask.height {
            let ghost (v, q) = (visited@, queue@);
            proof {
                lemma_below_fits(here, mask.width as int, mask.height as int);
            }
            visit(mask, index + width, visited, &mut queue);
            proof {
                seen = lemma_visit_keeps_walk(
                    mask@, origin, earlier, seen, done, v, q, here, here + width, visited@, queue@,
                );
            }
        }
        proof {
            assert(before.subset_of(seen));
            assert(seen.contains(here));
            assert forall|i: int, other: int|
                done.contains(i) && #[trigger] mask@.adjacent(i, other) && mask@.active(
                    other,
                ) implies seen.contains(other) by {
                if i == here {
                    lemma_place_fits(other, mask.width as int, mask.height as int);
                    lemma_neighbours(here, other, mask.width as int, mask.height as int);
                }
            }
        }
    }
    proof {
        reveal(Grid::is_closed);
        reveal(Grid::is_group);
        reveal(Grid::measures);
        assert forall|index: int| #[trigger] seen.contains(index) implies done.contains(index) by {
            if !done.contains(index) {
                assert(queue@.contains(index as usize));
            }
        }
        assert(seen =~= done);
        assert(mask@.is_closed(seen));
    }
    (component, Ghost(seen))
}

proof fn lemma_place_fits(index: int, width: int, height: int)
    requires
        width > 0,
        0 <= index < width * height,
    ensures
        0 <= index % width < width,
        0 <= index / width < height,
        index == width * (index / width) + index % width,
{
    vstd::arithmetic::div_mod::lemma_fundamental_div_mod(index, width);
    let q = index / width;
    assert(0 <= q) by {
        vstd::arithmetic::div_mod::lemma_div_pos_is_pos(index, width);
    }
    assert(q < height) by (nonlinear_arith)
        requires
            width * q <= index,
            index < width * height,
            width > 0,
    ;
}

proof fn lemma_right_fits(index: int, width: int, height: int)
    requires
        width > 0,
        0 <= index < width * height,
        index % width + 1 < width,
    ensures
        index + 1 < width * height,
{
    lemma_place_fits(index, width, height);
    let q = index / width;
    assert(width * q + width <= width * height) by (nonlinear_arith)
        requires
            q + 1 <= height,
            width > 0,
    ;
}

proof fn lemma_above_fits(index: int, width: int)
    requires
        width > 0,
        index >= 0,
        index / width > 0,
    ensures
        index - width >= 0,
{
    vstd::arithmetic::div_mod::lemma_fundamental_div_mod(index, width);
    let q = index / width;
    assert(width <= width * q) by (nonlinear_arith)
        requires
            q >= 1,
            width > 0,
    ;
}

proof fn lemma_below_fits(index: int, width: int, height: int)
    requires
        width > 0,
        0 <= index < width * height,
        index / width + 1 < height,
    ensures
        index + width < width * height,
{
    lemma_place_fits(index, width, height);
    let q = index / width;
    assert(width * q + 2 * width <= width * height) by (nonlinear_arith)
        requires
            q + 2 <= height,
            width > 0,
    ;
}

/// A cell that shares a side lies one step to the left, right, above or below.
proof fn lemma_neighbours(index: int, other: int, width: int, height: int)
    requires
        width > 0,
        0 <= index < width * height,
        0 <= other < width * height,
    ensures
        other == index - width ==> index / width > 0,
        other == index + width ==> index / width + 1 < height,
{
    lemma_place_fits(index, width, height);
    lemma_place_fits(other, width, height);
    let q = index / width;
    if other == index - width {
        if q == 0 {
            assert(width * 0 == 0);
        }
    }
    if other == index + width {
        assert(width * (q + 1) == width * q + width) by (nonlinear_arith);
        vstd::arithmetic::div_mod::lemma_fundamental_div_mod_converse(
            other,
            width,
            q + 1,
            index % width,
        );
    }
}

/// The state of a survey that has come to `index`.
pub open spec fn survey_holds(
    mask: Grid,
    components: Seq<Component>,
    starts: Seq<int>,
    found: Set<int>,
    index: int,
) -> bool {
    &&& mask.is_closed(found)
    &&& mask.lists_groups(components, starts)
    &&& mask.covers_all(starts, index)
    &&& forall|k: int| #[trigger] found.contains(k) ==> exists|l: int|
        0 <= l < starts.len() && mask.in_group(#[trigger] starts[l], k)
    &&& forall|k: int|
        0 <= k < starts.len() ==> (#[trigger] starts[k]) < index && found.contains(starts[k])
}

/// No cell of a new group lies before the place to which the survey has come.
proof fn lemma_start_is_first(
    mask: Grid,
    starts: Seq<int>,
    found: Set<int>,
    here: int,
    cells: Set<int>,
)
    requires
        mask.is_closed(found),
        mask.covers_all(starts, here),
        forall|k: int| 0 <= k < starts.len() ==> found.contains(#[trigger] starts[k]),
        mask.is_group(here, cells),
        forall|index: int| #[trigger] cells.contains(index) ==> !found.contains(index),
    ensures
        forall|index: int| cells.contains(index) ==> here <= index,
{
    assert forall|k: int| cells.contains(k) implies here <= k by {
        if k < here {
            assert(mask.active(k)) by {
                reveal(Grid::is_group);
            }
            let l = choose|l: int| 0 <= l < starts.len() && mask.in_group(#[trigger] starts[l], k);
            lemma_group_is_found(mask, starts, found, l, k);
        }
    }
}

proof fn lemma_union_is_closed(mask: Grid, found: Set<int>, start: int, cells: Set<int>)
    requires
        mask.is_closed(found),
        mask.is_group(start, cells),
    ensures
        mask.is_closed(found.union(cells)),
{
    reveal(Grid::is_group);
    reveal(Grid::is_closed);
    let both = found.union(cells);
    assert forall|index: int, other: int|
        both.contains(index) && #[trigger] mask.adjacent(index, other) && mask.active(
            other,
        ) implies both.contains(other) by {
        if found.contains(index) {
            assert(found.contains(other));
        } else {
            assert(cells.contains(other));
        }
    }
}

proof fn lemma_group_extends_survey(
    mask: Grid,
    components: Seq<Component>,
    starts: Seq<int>,
    found: Set<int>,
    here: int,
    component: Component,
    cells: Set<int>,
)
    requires
        survey_holds(mask, components, starts, found, here),
        0 <= here < mask.cells.len(),
        mask.is_group(here, cells),
        mask.measures(component, cells),
        forall|index: int| #[trigger] cells.contains(index) ==> !found.contains(index),
    ensures
        survey_holds(
            mask,
            components.push(component),
            starts.push(here),
            found.union(cells),
            here + 1,
        ),
{
    let new_starts = starts.push(here);
    let new_components = components.push(component);
    let new_found = found.union(cells);
    lemma_start_is_first(mask, starts, found, here, cells);
    lemma_union_is_closed(mask, found, here, cells);
    assert(cells.contains(here)) by {
        reveal(Grid::is_group);
    }
    assert(mask.describes(component, here));
    assert(mask.lists_groups(new_components, new_starts)) by {
        assert forall|k: int| 0 <= k < new_starts.len() implies mask.describes(
            #[trigger] new_components[k],
            new_starts[k],
        ) by {
            if k < starts.len() {
                assert(new_components[k] == components[k]);
                assert(new_starts[k] == starts[k]);
            }
        }
        assert forall|k: int, l: int| 0 <= k < l < new_starts.len() implies new_starts[k]
            < new_starts[l] by {
            if l == starts.len() {
                assert(starts[k] < here);
            }
        }
    }
    assert(mask.in_group(here, here));
    assert(new_starts[starts.len() as int] == here);
    assert forall|k: int| #[trigger] new_found.contains(k) implies exists|l: int|
        0 <= l < new_starts.len() && mask.in_group(#[trigger] new_starts[l], k) by {
        if cells.contains(k) {
            assert(mask.in_group(new_starts[starts.len() as int], k));
        } else {
            let l = choose|l: int| 0 <= l < starts.len() && mask.in_group(#[trigger] starts[l], k);
            assert(new_starts[l] == starts[l]);
        }
    }
    assert(mask.covers_all(new_starts, here + 1)) by {
        assert forall|k: int| 0 <= k < here + 1 && #[trigger] mask.active(k) implies exists|l: int|
            0 <= l < new_starts.len() && mask.in_group(#[trigger] new_starts[l], k) by {
            if k == here {
                assert(mask.in_group(new_starts[starts.len() as int], k));
            } else {
                let l = choose|l: int|
                    0 <= l < starts.len() && mask.in_group(#[trigger] starts[l], k);
                assert(new_starts[l] == starts[l]);
            }
        }
    }
    assert forall|k: int| 0 <= k < new_starts.len() implies (#[trigger] new_starts[k]) < here + 1
        && new_found.contains(new_starts[k]) by {
        if k < starts.len() {
            assert(new_starts[k] == starts[k]);
        }
    }
}

/// Finds the connected groups of active cells, by their first cells.
pub fn connected_components(mask: &Mask) -> (result: Vec<Component>)
    requires
        mask.well_formed(),
    ensures
        mask@.is_survey(result@),
        result@ == mask@.survey(),
        forall|k: int|
            0 <= k < result@.len() ==> {
                let component = #[trigger] result@[k];
                &&& component.min_x <= component.max_x < mask.width
                &&& component.min_y <= component.max_y < mask.height
            },
{
    let length: usize = mask.cells.len();
    let mut visited: Vec<bool> = Vec::new();
    visited.resize(length, false);
    let mut components: Vec<Component> = Vec::new();
    let ghost mut starts: Seq<int> = Seq::empty();
    let ghost mut found: Set<int> = Set::empty();
    let mut index: usize = 0;
    assert(mask@.is_closed(found)) by {
        reveal(Grid::is_closed);
    }
    while index < length
        invariant
            mask.well_formed(),
            length == mask.cells@.len(),
            index <= length,
            visited@.len() == length,
            forall|k: int| 0 <= k < length ==> #[trigger] visited@[k] == found.contains(k),
            survey_holds(mask@, components@, starts, found, index as int),
        decreases length - index,
    {
        let ghost here = index as int;
        if mask.cells[index] && !visited[index] {
            proof {
                if mask.width == 0 {
                    assert(0 * mask.height == 0);
                }
            }
            let (component, group) = walk(mask, index, &mut visited, Ghost(found));
            proof {
                lemma_group_extends_survey(
                    mask@,
                    components@,
                    starts,
                    found,
                    here,
                    component,
                    group@,
                );
                starts = starts.push(here);
                found = found.union(group@);
            }
            components.push(component);
        } else {
            proof {
                assert forall|k: int| 0 <= k < here + 1 && #[trigger] mask@.active(
                    k,
                ) implies exists|l: int|
                    0 <= l < starts.len() && mask@.in_group(#[trigger] starts[l], k) by {
                    if k == here {
                        assert(found.contains(here));
                    }
                }
                assert(mask@.covers_all(starts, here + 1));
            }
        }
        index += 1;
    }
    proof {
        let found_components = components@;
        assert(mask@.lists_groups(found_components, starts));
        assert(mask@.is_survey(found_components));
        law_survey_is_unique(mask@, found_components, mask@.survey());
        assert forall|k: int| 0 <= k < found_components.len() implies {
            let component = #[trigger] found_components[k];
            &&& component.min_x <= component.max_x < mask.width
            &&& component.min_y <= component.max_y < mask.height
        } by {
            if mask.width == 0 {
                assert(0 * mask.height == 0);
                lemma_nothing_is_listed(mask@, found_components, starts);
            }
            lemma_components_lie_inside(mask@, found_components[k], starts[k]);
        }
    }
    components
}

/// A cell in the group of a listed start has been found.
proof fn lemma_group_is_found(mask: Grid, starts: Seq<int>, found: Set<int>, at: int, index: int)
    requires
        mask.is_closed(found),
        0 <= at < starts.len(),
        mask.in_group(starts[at], index),
        found.contains(starts[at]),
    ensures
        found.contains(index),
{
    let cells = choose|cells: Set<int>| #[trigger]
        mask.is_group(starts[at], cells) && cells.contains(index);
    reveal(Grid::is_group);
    assert(cells.subset_of(found));
}

/// Every cell of a group has the same group.
proof fn lemma_group_is_shared(mask: Grid, start: int, cells: Set<int>, index: int, other: Set<int>)
    requires
        mask.width > 0,
        mask.is_group(start, cells),
        mask.is_group(index, other),
        cells.contains(index),
    ensures
        other.contains(start),
{
    reveal(Grid::is_group);
    reveal(Grid::is_closed);
    if !other.contains(start) {
        let rest = cells.difference(other);
        assert forall|i: int, j: int|
            rest.contains(i) && #[trigger] mask.adjacent(i, j) && mask.active(j) implies rest.contains(
            j,
        ) by {
            lemma_adjacent_is_mutual(mask, i, j);
            assert(mask.active(i));
            if other.contains(j) {
                assert(mask.adjacent(j, i));
            }
        }
        assert(mask.is_closed(rest));
        assert(rest.contains(start));
        assert(cells.subset_of(rest));
        assert(rest.contains(index));
    }
}

/// The first cells of two lists of all groups are the same cells.
proof fn lemma_start_is_listed(
    mask: Grid,
    components: Seq<Component>,
    starts: Seq<int>,
    other_components: Seq<Component>,
    other_starts: Seq<int>,
    at: int,
)
    requires
        mask.width > 0,
        mask.lists_groups(components, starts),
        mask.lists_groups(other_components, other_starts),
        mask.covers_all(other_starts, mask.cells.len() as int),
        0 <= at < starts.len(),
    ensures
        other_starts.contains(starts[at]),
{
    let start = starts[at];
    assert(mask.describes(components[at], start));
    let cells = choose|cells: Set<int>| #[trigger]
        mask.is_group(start, cells) && mask.measures(components[at], cells) && forall|index: int|
            cells.contains(index) ==> start <= index;
    assert(mask.active(start)) by {
        reveal(Grid::is_group);
    }
    let k = choose|k: int|
        0 <= k < other_starts.len() && mask.in_group(#[trigger] other_starts[k], start);
    let first = other_starts[k];
    let group = choose|group: Set<int>| #[trigger]
        mask.is_group(first, group) && group.contains(start);
    lemma_group_is_shared(mask, first, group, start, cells);
    assert(start <= first);
    assert(mask.describes(other_components[k], first));
    let other_cells = choose|cells: Set<int>| #[trigger]
        mask.is_group(first, cells) && mask.measures(other_components[k], cells)
            && forall|index: int| cells.contains(index) ==> first <= index;
    lemma_group_is_unique(mask, first, group, other_cells);
    assert(first <= start);
}

proof fn lemma_group_is_unique(mask: Grid, start: int, cells: Set<int>, other: Set<int>)
    requires
        mask.is_group(start, cells),
        mask.is_group(start, other),
    ensures
        cells == other,
{
    reveal(Grid::is_group);
    assert(cells.subset_of(other));
    assert(other.subset_of(cells));
    assert(cells =~= other);
}

/// Two increasing lists of the same numbers are equal, place by place.
proof fn lemma_increasing_lists_agree(left: Seq<int>, right: Seq<int>, at: int)
    requires
        forall|k: int, l: int| 0 <= k < l < left.len() ==> left[k] < left[l],
        forall|k: int, l: int| 0 <= k < l < right.len() ==> right[k] < right[l],
        forall|k: int| 0 <= k < left.len() ==> right.contains(#[trigger] left[k]),
        forall|k: int| 0 <= k < right.len() ==> left.contains(#[trigger] right[k]),
        0 <= at < left.len(),
    ensures
        at < right.len(),
        left[at] == right[at],
    decreases at,
{
    assert forall|k: int| 0 <= k < at implies k < right.len() && #[trigger] left[k] == right[k] by {
        lemma_increasing_lists_agree(left, right, k);
    }
    let k = choose|k: int| 0 <= k < right.len() && right[k] == left[at];
    assert(right.contains(left[at]));
    if k < at {
        assert(left[k] == right[k]);
        assert(left[k] < left[at]);
    }
    if k > at {
        assert(left.contains(right[at]));
        let l = choose|l: int| 0 <= l < left.len() && left[l] == right[at];
        assert(right[at] < right[k]);
        if l < at {
            assert(left[l] == right[l]);
            assert(right[l] < right[at]);
        }
        if l > at {
            assert(left[at] < left[l]);
        }
    }
}

/// A set of cells has only one measure.
proof fn lemma_measure_is_unique(
    mask: Grid,
    component: Component,
    other: Component,
    cells: Set<int>,
)
    requires
        mask.measures(component, cells),
        mask.measures(other, cells),
    ensures
        component == other,
{
    reveal(Grid::measures);
}

/// A mask has only one list of the components of its connected groups.
pub proof fn law_survey_is_unique(mask: Grid, components: Seq<Component>, others: Seq<Component>)
    requires
        mask.width >= 0,
        mask.cells.len() == mask.width * mask.height,
        mask.is_survey(components),
        mask.is_survey(others),
    ensures
        components == others,
{
    let starts = choose|starts: Seq<int>| #[trigger]
        mask.lists_groups(components, starts) && mask.covers_all(
            starts,
            mask.cells.len() as int,
        );
    let other_starts = choose|starts: Seq<int>| #[trigger]
        mask.lists_groups(others, starts) && mask.covers_all(starts, mask.cells.len() as int);
    if mask.width == 0 {
        assert(0 * mask.height == 0);
        lemma_nothing_is_listed(mask, components, starts);
        lemma_nothing_is_listed(mask, others, other_starts);
    } else {
        lemma_surveys_agree(mask, components, starts, others, other_starts);
    }
    assert(components =~= others);
}

proof fn lemma_nothing_is_listed(mask: Grid, components: Seq<Component>, starts: Seq<int>)
    requires
        mask.cells.len() == 0,
        mask.lists_groups(components, starts),
    ensures
        components.len() == 0,
{
    reveal(Grid::is_group);
    if components.len() > 0 {
        assert(mask.describes(components[0], starts[0]));
    }
}

proof fn lemma_surveys_agree(
    mask: Grid,
    components: Seq<Component>,
    starts: Seq<int>,
    others: Seq<Component>,
    other_starts: Seq<int>,
)
    requires
        mask.width > 0,
        mask.lists_groups(components, starts),
        mask.covers_all(starts, mask.cells.len() as int),
        mask.lists_groups(others, other_starts),
        mask.covers_all(other_starts, mask.cells.len() as int),
    ensures
        components == others,
{
    assert forall|k: int| 0 <= k < starts.len() implies other_starts.contains(
        #[trigger] starts[k],
    ) by {
        lemma_start_is_listed(mask, components, starts, others, other_starts, k);
    }
    assert forall|k: int| 0 <= k < other_starts.len() implies starts.contains(
        #[trigger] other_starts[k],
    ) by {
        lemma_start_is_listed(mask, others, other_starts, components, starts, k);
    }
    if starts.len() > 0 {
        lemma_increasing_lists_agree(starts, other_starts, starts.len() - 1);
    }
    if other_starts.len() > 0 {
        lemma_increasing_lists_agree(other_starts, starts, other_starts.len() - 1);
    }
    assert forall|k: int| 0 <= k < components.len() implies #[trigger] components[k] == others[k] by {
        lemma_increasing_lists_agree(starts, other_starts, k);
        let start = starts[k];
        assert(mask.describes(components[k], start));
        assert(mask.describes(others[k], start));
        let cells = choose|cells: Set<int>| #[trigger]
            mask.is_group(start, cells) && mask.measures(components[k], cells)
                && forall|index: int| cells.contains(index) ==> start <= index;
        let other_cells = choose|cells: Set<int>| #[trigger]
            mask.is_group(start, cells) && mask.measures(others[k], cells) && forall|index: int|
                cells.contains(index) ==> start <= index;
        lemma_group_is_unique(mask, start, cells, other_cells);
        lemma_measure_is_unique(mask, components[k], others[k], cells);
    }
    assert(components =~= others);
}

/// The components of a mask lie inside it.
proof fn lemma_components_lie_inside(mask: Grid, component: Component, start: int)
    requires
        mask.width > 0,
        mask.cells.len() == mask.width * mask.height,
        mask.describes(component, start),
    ensures
        component.min_x <= component.max_x < mask.width,
        component.min_y <= component.max_y < mask.height,
{
    let cells = choose|cells: Set<int>| #[trigger]
        mask.is_group(start, cells) && mask.measures(component, cells) && forall|index: int|
            cells.contains(index) ==> start <= index;
    reveal(Grid::is_group);
    reveal(Grid::measures);
    assert forall|index: int| #[trigger] cells.contains(index) implies 0 <= index % (
    mask.width as int) < mask.width && 0 <= index / (mask.width as int) < mask.height by {
        assert(mask.active(index));
        lemma_place_fits(index, mask.width as int, mask.height as int);
    }
}

/// A place is touched exactly where it or one of its eight neighbours is set, and surrounded
/// where all nine are.
pub proof fn law_places_have_eight_neighbours(mask: Mask, x: int, y: int)
    ensures
        mask.touched(x, y) <==> exists|i: int, j: int|
            x - 1 <= i <= x + 1 && y - 1 <= j <= y + 1 && #[trigger] mask.on(i, j),
        mask.surrounded(x, y) <==> forall|i: int, j: int|
            x - 1 <= i <= x + 1 && y - 1 <= j <= y + 1 ==> #[trigger] mask.on(i, j),
        mask.surrounded(x, y) ==> mask.on(x, y) && mask.touched(x, y),
        mask.on(x, y) ==> mask.touched(x, y),
{
    if exists|i: int, j: int|
        x - 1 <= i <= x + 1 && y - 1 <= j <= y + 1 && #[trigger] mask.on(i, j) {
        let (i, j) = choose|i: int, j: int|
            x - 1 <= i <= x + 1 && y - 1 <= j <= y + 1 && #[trigger] mask.on(i, j);
        assert(i == x - 1 || i == x || i == x + 1);
        assert(j == y - 1 || j == y || j == y + 1);
    }
    if mask.surrounded(x, y) {
        assert forall|i: int, j: int|
            x - 1 <= i <= x + 1 && y - 1 <= j <= y + 1 implies #[trigger] mask.on(i, j) by {
            assert(i == x - 1 || i == x || i == x + 1);
            assert(j == y - 1 || j == y || j == y + 1);
        }
    }
}

/// What is left of a mask is what lies in a full square of three by three cells, so that such
/// squares stay whole, and a place in none of them goes.
pub proof fn law_full_squares_stay(mask: Mask, x: int, y: int)
    ensures
        mask.opened(x, y) <==> 0 <= x < mask.width && 0 <= y < mask.height && exists|
            i: int,
            j: int,
        |
            x - 1 <= i <= x + 1 && y - 1 <= j <= y + 1 && #[trigger] mask.surrounded(i, j),
        mask.opened(x, y) ==> mask.on(x, y),
        mask.surrounded(x, y) ==> mask.opened(x, y) && mask.opened(x - 1, y - 1) && mask.opened(
            x + 1,
            y + 1,
        ) && mask.opened(x - 1, y + 1) && mask.opened(x + 1, y - 1),
{
    if 0 <= x < mask.width && 0 <= y < mask.height && exists|i: int, j: int|
        x - 1 <= i <= x + 1 && y - 1 <= j <= y + 1 && #[trigger] mask.surrounded(i, j) {
        let (i, j) = choose|i: int, j: int|
            x - 1 <= i <= x + 1 && y - 1 <= j <= y + 1 && #[trigger] mask.surrounded(i, j);
        assert(i == x - 1 || i == x || i == x + 1);
        assert(j == y - 1 || j == y || j == y + 1);
    }
}

/// A gap between two set flags is closed where it is short enough and nowhere else; set flags
/// stay, and what lies before the first or behind the last set flag is not closed.
pub proof fn law_short_gaps_are_closed(flags: Seq<bool>, start: int, end: int, longest: int)
    requires
        0 < start < end < flags.len(),
        flags[start - 1],
        flags[end],
        forall|k: int| start <= k < end ==> !(#[trigger] flags[k]),
    ensures
        end - start <= longest ==> forall|at: int|
            start <= at < end ==> #[trigger] is_closed_at(flags, at, longest),
        end - start > longest ==> forall|at: int|
            start <= at < end ==> !(#[trigger] is_closed_at(flags, at, longest)),
        is_closed_at(flags, start - 1, longest) && is_closed_at(flags, end, longest),
{
    if end - start <= longest {
        assert(is_short_gap(flags, start, end, longest));
        assert forall|at: int| start <= at < end implies #[trigger] is_closed_at(
            flags,
            at,
            longest,
        ) by {
            assert(start <= at < end && is_short_gap(flags, start, end, longest));
        }
    } else {
        assert forall|at: int| start <= at < end implies !(#[trigger] is_closed_at(
            flags,
            at,
            longest,
        )) by {
            if is_closed_at(flags, at, longest) {
                let (s, e) = choose|s: int, e: int|
                    s <= at < e && #[trigger] is_short_gap(flags, s, e, longest);
                assert(flags[s - 1] && flags[e]);
                if s > start {
                    assert(!flags[s - 1]);
                }
                if e < end {
                    assert(!flags[e]);
                }
                if s < start {
                    assert(!flags[start - 1]);
                }
                if e > end {
                    assert(!flags[end]);
                }
            }
        }
    }
}

/// Cells share a side exactly where they are one apart in the same row or column.
pub proof fn law_neighbours_are_one_apart(mask: Grid, x: int, y: int, i: int, j: int)
    requires
        mask.cells.len() == mask.width * mask.height,
        0 <= x < mask.width,
        0 <= i < mask.width,
        0 <= y < mask.height,
        0 <= j < mask.height,
    ensures
        mask.adjacent(y * mask.width + x, j * mask.width + i) <==> (x == i && (y == j + 1 || j == y
            + 1)) || (y == j && (x == i + 1 || i == x + 1)),
{
    let w = mask.width;
    let h = mask.height;
    let here = y * w + x;
    let there = j * w + i;
    vstd::arithmetic::div_mod::lemma_fundamental_div_mod_converse(here, w, y, x);
    assert(0 <= here < w * h && 0 <= there < w * h) by (nonlinear_arith)
        requires
            here == y * w + x,
            there == j * w + i,
            0 <= x < w,
            0 <= i < w,
            0 <= y < h,
            0 <= j < h,
    ;
    if y == j {
    } else if j > y {
        assert(j * w >= y * w + w) by (nonlinear_arith)
            requires
                j >= y + 1,
                w > 0,
        ;
        if j > y + 1 {
            assert(j * w >= y * w + 2 * w) by (nonlinear_arith)
                requires
                    j >= y + 2,
                    w > 0,
            ;
        } else {
            assert((y + 1) * w == y * w + w) by (nonlinear_arith);
        }
    } else {
        assert(y * w >= j * w + w) by (nonlinear_arith)
            requires
                y >= j + 1,
                w > 0,
        ;
        if y > j + 1 {
            assert(y * w >= j * w + 2 * w) by (nonlinear_arith)
                requires
                    y >= j + 2,
                    w > 0,
            ;
        } else {
            assert((j + 1) * w == j * w + w) by (nonlinear_arith);
        }
    }
}

/// There are components exactly where there are active cells.
pub proof fn law_active_cells_make_components(mask: Grid, components: Seq<Component>)
    requires
        mask.is_survey(components),
    ensures
        components.len() == 0 <==> forall|index: int| !(#[trigger] mask.active(index)),
{
    reveal(Grid::is_group);
    let starts = choose|starts: Seq<int>| #[trigger]
        mask.lists_groups(components, starts) && mask.covers_all(
            starts,
            mask.cells.len() as int,
        );
    if components.len() == 0 {
        assert forall|index: int| !(#[trigger] mask.active(index)) by {
            if mask.active(index) {
                let k = choose|k: int|
                    0 <= k < starts.len() && mask.in_group(#[trigger] starts[k], index);
                assert(false);
            }
        }
    } else {
        assert(mask.describes(components[0], starts[0]));
        let cells = choose|cells: Set<int>| #[trigger]
            mask.is_group(starts[0], cells) && mask.measures(components[0], cells) && forall|
                index: int,
            |
                cells.contains(index) ==> starts[0] <= index;
        assert(cells.contains(starts[0]));
        assert(mask.active(starts[0]));
    }
}

/// A component holds at least one cell, and no more than its bounds have room for; its bounds
/// are those of active cells of the mask.
pub proof fn law_components_measure_their_cells(mask: Grid, component: Component, start: int)
    requires
        mask.width > 0,
        mask.describes(component, start),
    ensures
        mask.active(start),
        component.pixel_count >= 1,
        component.min_x <= start % mask.width <= component.max_x,
        component.min_y == start / mask.width,
        component.min_y <= component.max_y,
        exists|index: int| #[trigger]
            mask.active(index) && index % mask.width == component.min_x,
        exists|index: int| #[trigger]
            mask.active(index) && index % mask.width == component.max_x,
        exists|index: int| #[trigger]
            mask.active(index) && index / mask.width == component.max_y,
{
    reveal(Grid::is_group);
    reveal(Grid::measures);
    let cells = choose|cells: Set<int>| #[trigger]
        mask.is_group(start, cells) && mask.measures(component, cells) && forall|index: int|
            cells.contains(index) ==> start <= index;
    assert(cells.contains(start));
    assert(cells.len() >= 1) by {
        if cells.len() == 0 {
            assert(cells =~= Set::empty());
        }
    }
    let width = mask.width;
    let top = choose|index: int| #[trigger]
        cells.contains(index) && index / width == component.min_y;
    assert(start <= top);
    vstd::arithmetic::div_mod::lemma_div_is_ordered(start, top, width);
    let left = choose|index: int| #[trigger]
        cells.contains(index) && index % width == component.min_x;
    let right = choose|index: int| #[trigger]
        cells.contains(index) && index % width == component.max_x;
    let bottom = choose|index: int| #[trigger]
        cells.contains(index) && index / width == component.max_y;
    assert(mask.active(left) && mask.active(right) && mask.active(bottom));
}

/// Neighbouring active cells belong to the same component.
pub proof fn law_neighbours_belong_together(
    mask: Grid,
    start: int,
    cells: Set<int>,
    index: int,
    other: int,
)
    requires
        mask.is_group(start, cells),
        cells.contains(index),
        mask.adjacent(index, other),
    ensures
        mask.active(other) <==> cells.contains(other),
        mask.active(index),
{
    reveal(Grid::is_group);
    reveal(Grid::is_closed);
}

/// A cell without active neighbours is a component of its own.
pub proof fn law_lonely_cells_stand_alone(mask: Grid, start: int)
    requires
        mask.active(start),
        forall|other: int| #[trigger]
            mask.adjacent(start, other) ==> !mask.active(other),
    ensures
        mask.is_group(start, set![start]),
{
    reveal(Grid::is_group);
    reveal(Grid::is_closed);
    let cells = set![start];
    assert forall|index: int, other: int|
        cells.contains(index) && #[trigger] mask.adjacent(index, other) && mask.active(
            other,
        ) implies cells.contains(other) by {
        assert(index == start);
    }
    assert forall|other: Set<int>| #[trigger]
        mask.is_closed(other) && other.contains(start) implies cells.subset_of(other) by {}
}

} // verus!
