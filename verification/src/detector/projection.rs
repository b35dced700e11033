//! Content found by its projections: the densest run of columns, and within it the densest
//! run of rows.

use vstd::prelude::*;

use crate::detector::analysis::{Analysis, AnalysisFrame, LIGHT_THRESHOLD};
use crate::detector::edges::{law_moved_edges_stay_inside, refine_projected_edges, snapped_to_edges};
use crate::detector::mask::{close_short_gaps, is_closed_at, law_short_gaps_are_closed};
use crate::detector::picture::{lemma_index_fits, Picture, Pixels, MOST_SMALL_ROWS};
use crate::geometry::{lemma_spans_stay_open, PixelRect};
use crate::numeric::{
    clamp_int, clamp_u32, law_scaling_keeps_the_ratio, max_int, max_u32, min_int, min_u32,
    scale_ceil, scale_floor, scaled_down, scaled_up,
};
use crate::single::{
    fraction, from_int, is_modest, law_adding_keeps_the_order, law_fractions_are_not_negative,
    law_held_numbers_are_in_range, law_larger_shares_reach_smaller_ones,
    law_multiplying_keeps_the_order, law_numbers_cancel, law_operations_commute, law_order_is_total,
    law_order_is_transitive, law_shares_are_compared_by_their_parts,
    law_small_integers_are_in_order, law_small_integers_are_kept, law_small_integers_divide,
    law_the_smaller_is_above_neither, law_whole_share_is_one, lemma_canonical_is_kept,
    lemma_fraction_of_nothing, lemma_fractions_are_modest, lemma_naturals_are_modest,
    lemma_results_are_modest, lemma_sums_are_modest, lemma_zero_is_modest, ratio, whole, zero,
    Single,
};

verus! {

/// A rectangle that may show shared content, and how sure that is. Rectangles that surely
/// show something else are exclusions.
#[derive(Clone, Copy, Debug, PartialEq, Eq, Structural)]
pub struct ContentCandidate {
    pub rect: PixelRect,
    pub confidence: Single,
    pub is_exclusion: bool,
}

impl ContentCandidate {
    /// A candidate with its confidence held between zero and one.
    pub open spec fn held(rect: PixelRect, confidence: Single) -> ContentCandidate {
        ContentCandidate {
            rect,
            confidence: confidence.held(zero(), whole(1)),
            is_exclusion: false,
        }
    }

    pub fn new(rect: PixelRect, confidence: Single) -> (result: Self)
        ensures
            result == Self::held(rect, confidence),
            result.confidence.is_canonical(),
    {
        ContentCandidate {
            rect,
            confidence: confidence.clamp(from_int(0), from_int(1)),
            is_exclusion: false,
        }
    }

    pub fn exclusion(rect: PixelRect) -> (result: Self)
        ensures
            result == (ContentCandidate { rect, confidence: whole(1), is_exclusion: true }),
    {
        ContentCandidate { rect, confidence: from_int(1), is_exclusion: true }
    }
}

/// A run of dense lines, from `start` to before `end`.
#[derive(Clone, Copy, Debug, PartialEq, Eq, Structural)]
pub struct DenseRun {
    pub start: u32,
    pub end: u32,
    pub mean_ratio: Single,
}

/// A run and how good it is.
#[derive(Clone, Copy, Debug, PartialEq, Eq, Structural)]
pub struct RatedRun {
    pub score: Single,
    pub run: DenseRun,
}

/// Number of active cells among the first `rows` of a column.
pub open spec fn column_active(analysis: Analysis, x: int, rows: nat) -> nat
    decreases rows,
{
    if rows == 0 {
        0
    } else {
        column_active(analysis, x, (rows - 1) as nat) + if analysis.on(x, rows - 1) {
            1nat
        } else {
            0
        }
    }
}

/// Number of active cells among `columns` of a row, from `left` on.
pub open spec fn row_active(analysis: Analysis, y: int, left: int, columns: nat) -> nat
    decreases columns,
{
    if columns == 0 {
        0
    } else {
        row_active(analysis, y, left, (columns - 1) as nat) + if analysis.on(
            left + columns - 1,
            y,
        ) {
            1nat
        } else {
            0
        }
    }
}

/// Sum of the distances of `columns` cells of a row, from `left` on.
pub open spec fn row_distance(analysis: Analysis, y: int, left: int, columns: nat) -> nat
    decreases columns,
{
    if columns == 0 {
        0
    } else {
        row_distance(analysis, y, left, (columns - 1) as nat) + analysis.level(
            left + columns - 1,
            y,
        ) as nat
    }
}

/// Number of active cells in an area.
pub open spec fn area_active(
    analysis: Analysis,
    left: int,
    top: int,
    columns: nat,
    rows: nat,
) -> nat
    decreases rows,
{
    if rows == 0 {
        0
    } else {
        area_active(analysis, left, top, columns, (rows - 1) as nat) + row_active(
            analysis,
            top + rows - 1,
            left,
            columns,
        )
    }
}

/// Active cells of every column.
pub open spec fn column_profile(analysis: Analysis) -> Seq<u32> {
    Seq::new(
        analysis.width as nat,
        |x: int| column_active(analysis, x, analysis.height as nat) as u32,
    )
}

/// Active cells of every row between two columns.
pub open spec fn row_profile(analysis: Analysis, left: int, right: int) -> Seq<u32> {
    Seq::new(
        analysis.height as nat,
        |y: int| row_active(analysis, y, left, (right - left) as nat) as u32,
    )
}

fn count_row(frame: &AnalysisFrame, y: u32, left: u32, right: u32) -> (result: u32)
    requires
        frame.well_formed(),
        y < frame.height,
        left <= right <= frame.width,
    ensures
        result == row_active(frame@, y as int, left as int, (right - left) as nat),
        result <= right - left,
{
    let mut count: u32 = 0;
    let mut x: u32 = left;
    while x < right
        invariant
            frame.well_formed(),
            y < frame.height,
            left <= x <= right <= frame.width,
            count <= x - left,
            count == row_active(frame@, y as int, left as int, (x - left) as nat),
        decreases right - x,
    {
        proof {
            assert((x + 1 - left - 1) as nat == (x - left) as nat);
            lemma_index_fits(x as int, y as int, frame.width as int, frame.height as int);
        }
        if frame.active.is_on(x, y) {
            count += 1;
        }
        x += 1;
    }
    count
}

fn count_columns(frame: &AnalysisFrame) -> (result: Vec<u32>)
    requires
        frame.well_formed(),
    ensures
        result@ == column_profile(frame@),
        forall|x: int| 0 <= x < result@.len() ==> #[trigger] result@[x] <= frame.height,
{
    let mut counts: Vec<u32> = Vec::new();
    let mut x: u32 = 0;
    while x < frame.width
        invariant
            frame.well_formed(),
            x <= frame.width,
            counts@.len() == x,
            forall|k: int|
                0 <= k < x ==> #[trigger] counts@[k] == column_active(
                    frame@,
                    k,
                    frame.height as nat,
                ) && counts@[k] <= frame.height,
        decreases frame.width - x,
    {
        let mut count: u32 = 0;
        let mut y: u32 = 0;
        while y < frame.height
            invariant
                frame.well_formed(),
                x < frame.width,
                y <= frame.height,
                count <= y,
                count == column_active(frame@, x as int, y as nat),
            decreases frame.height - y,
        {
            proof {
                assert((y + 1 - 1) as nat == y as nat);
                lemma_index_fits(x as int, y as int, frame.width as int, frame.height as int);
            }
            if frame.active.is_on(x, y) {
                count += 1;
            }
            y += 1;
        }
        counts.push(count);
        x += 1;
    }
    assert(counts@ =~= column_profile(frame@));
    counts
}

fn count_rows(frame: &AnalysisFrame, left: u32, right: u32) -> (result: Vec<u32>)
    requires
        frame.well_formed(),
        left <= right <= frame.width,
    ensures
        result@ == row_profile(frame@, left as int, right as int),
        forall|y: int| 0 <= y < result@.len() ==> #[trigger] result@[y] <= frame.width,
{
    let mut counts: Vec<u32> = Vec::new();
    let mut y: u32 = 0;
    while y < frame.height
        invariant
            frame.well_formed(),
            left <= right <= frame.width,
            y <= frame.height,
            counts@.len() == y,
            forall|k: int|
                0 <= k < y ==> #[trigger] counts@[k] == row_active(
                    frame@,
                    k,
                    left as int,
                    (right - left) as nat,
                ) && counts@[k] <= frame.width,
        decreases frame.height - y,
    {
        counts.push(count_row(frame, y, left, right));
        y += 1;
    }
    assert(counts@ =~= row_profile(frame@, left as int, right as int));
    counts
}

fn count_area(frame: &AnalysisFrame, rect: PixelRect) -> (result: u64)
    requires
        frame.well_formed(),
        rect.x + rect.width <= frame.width,
        rect.y + rect.height <= frame.height,
    ensures
        result == area_active(
            frame@,
            rect.x as int,
            rect.y as int,
            rect.width as nat,
            rect.height as nat,
        ),
{
    let mut count: u64 = 0;
    let mut row: u32 = 0;
    while row < rect.height
        invariant
            frame.well_formed(),
            rect.x + rect.width <= frame.width,
            rect.y + rect.height <= frame.height,
            row <= rect.height,
            count <= row * MOST_SMALL_ROWS,
            count == area_active(
                frame@,
                rect.x as int,
                rect.y as int,
                rect.width as nat,
                row as nat,
            ),
        decreases rect.height - row,
    {
        let line: u32 = count_row(frame, rect.y + row, rect.x, rect.x + rect.width);
        proof {
            assert((row + 1 - 1) as nat == row as nat);
            assert((rect.x + rect.width - rect.x) as nat == rect.width as nat);
        }
        count += line as u64;
        row += 1;
    }
    count
}

/// Mean distance of a stretch of a row from the background.
pub open spec fn mean_distance(analysis: Analysis, y: int, left: int, right: int) -> Single {
    let columns = (right - left) as nat;
    if right <= left {
        zero()
    } else {
        fraction(row_distance(analysis, y, left, columns), columns)
    }
}

fn measure_distance(frame: &AnalysisFrame, y: u32, left: u32, right: u32) -> (result: Single)
    requires
        frame.well_formed(),
        y < frame.height,
        left <= right <= frame.width,
    ensures
        result == mean_distance(frame@, y as int, left as int, right as int),
{
    if right <= left {
        return from_int(0);
    }
    let length: usize = frame.distance.len();
    let mut sum: u64 = 0;
    let mut x: u32 = left;
    while x < right
        invariant
            frame.well_formed(),
            length == frame.distance@.len(),
            y < frame.height,
            left <= x <= right <= frame.width,
            sum <= (x - left) * 255,
            sum == row_distance(frame@, y as int, left as int, (x - left) as nat),
        decreases right - x,
    {
        proof {
            assert((x + 1 - left - 1) as nat == (x - left) as nat);
            lemma_index_fits(x as int, y as int, frame.width as int, frame.height as int);
        }
        sum += frame.distance[y as usize * frame.width as usize + x as usize] as u64;
        x += 1;
    }
    ratio(sum, (right - left) as u64)
}

/// Sum of a stretch of counts.
pub open spec fn sum_of(counts: Seq<u32>, start: int, end: int) -> nat
    decreases end - start,
{
    if end <= start {
        0
    } else {
        sum_of(counts, start, end - 1) + counts[end - 1] as nat
    }
}

/// Mean of the counts within `radius` of a place.
pub open spec fn smoothed_at(counts: Seq<u32>, radius: int, at: int) -> Single {
    let start = max_int(at - radius, 0);
    let end = min_int(at + radius + 1, counts.len() as int);
    fraction(sum_of(counts, start, end), (end - start) as nat)
}

pub open spec fn smoothed(counts: Seq<u32>, radius: int) -> Seq<Single> {
    Seq::new(counts.len(), |at: int| smoothed_at(counts, radius, at))
}

/// Replaces every count by the mean of those around it.
pub fn smooth_counts(counts: &Vec<u32>, radius: usize) -> (result: Vec<Single>)
    requires
        radius <= 16,
        counts@.len() <= MOST_SMALL_ROWS,
    ensures
        result@ == smoothed(counts@, radius as int),
{
    let mut output: Vec<Single> = Vec::new();
    let mut at: usize = 0;
    while at < counts.len()
        invariant
            radius <= 16,
            counts@.len() <= MOST_SMALL_ROWS,
            at <= counts@.len(),
            output@.len() == at,
            forall|k: int|
                0 <= k < at ==> #[trigger] output@[k] == smoothed_at(counts@, radius as int, k),
        decreases counts.len() - at,
    {
        let start: usize = at.saturating_sub(radius);
        let end: usize = if at + radius + 1 < counts.len() { at + radius + 1 } else { counts.len() };
        let mut sum: u64 = 0;
        let mut k: usize = start;
        while k < end
            invariant
                start <= k <= end <= counts@.len(),
                end - start <= 40,
                sum <= (k - start) * u32::MAX,
                sum == sum_of(counts@, start as int, k as int),
            decreases end - k,
        {
            sum += counts[k] as u64;
            k += 1;
        }
        output.push(ratio(sum, (end - start) as u64));
        at += 1;
    }
    assert(output@ =~= smoothed(counts@, radius as int));
    output
}

/// The largest of the first values, or zero.
pub open spec fn peak(values: Seq<Single>, first: nat) -> Single
    decreases first,
{
    if first == 0 {
        zero()
    } else {
        peak(values, (first - 1) as nat).larger(values[first - 1])
    }
}

fn find_peak(values: &Vec<Single>) -> (result: Single)
    ensures
        result == peak(values@, values@.len()),
{
    let mut best = from_int(0);
    let mut k: usize = 0;
    while k < values.len()
        invariant
            k <= values@.len(),
            best == peak(values@, k as nat),
        decreases values.len() - k,
    {
        best = best.max(values[k]);
        k += 1;
    }
    best
}

/// Sum of a stretch of values, from its start.
pub open spec fn total_of(values: Seq<Single>, start: int, end: int) -> Single
    decreases end - start,
{
    if end <= start {
        zero()
    } else {
        total_of(values, start, end - 1).plus(values[end - 1])
    }
}

/// The lines whose share of active cells reaches the threshold.
pub open spec fn dense_lines(values: Seq<Single>, denominator: nat, threshold: Single) -> Seq<bool> {
    Seq::new(
        values.len(),
        |at: int| values[at].over(whole(denominator)).at_least(threshold),
    )
}

/// The dense lines, with gaps of up to two lines closed.
pub open spec fn closed_lines(dense: Seq<bool>) -> Seq<bool> {
    Seq::new(dense.len(), |at: int| is_closed_at(dense, at, 2))
}

/// First place from `at` on whose flag is `value`, or the length.
pub open spec fn next_flag(flags: Seq<bool>, at: int, value: bool) -> int
    decreases flags.len() - at,
{
    if at >= flags.len() || at < 0 {
        flags.len() as int
    } else if flags[at] == value {
        at
    } else {
        next_flag(flags, at + 1, value)
    }
}

fn find_flag(flags: &Vec<bool>, from: usize, value: bool) -> (result: usize)
    requires
        from <= flags@.len(),
    ensures
        result == next_flag(flags@, from as int, value),
        from <= result <= flags@.len(),
        result < flags@.len() ==> flags@[result as int] == value,
        forall|k: int| from <= k < result ==> #[trigger] flags@[k] != value,
{
    let mut at: usize = from;
    while at < flags.len() && flags[at] != value
        invariant
            from <= at <= flags@.len(),
            next_flag(flags@, from as int, value) == next_flag(flags@, at as int, value),
            forall|k: int| from <= k < at ==> #[trigger] flags@[k] != value,
        decreases flags.len() - at,
    {
        at += 1;
    }
    at
}

/// A run of dense lines as a whole.
pub open spec fn run_of(values: Seq<Single>, denominator: nat, start: int, end: int) -> DenseRun {
    DenseRun {
        start: start as u32,
        end: end as u32,
        mean_ratio: total_of(values, start, end).over(
            whole((end - start) as nat).times(whole(denominator)),
        ),
    }
}

/// How good a run is: long, dense and near the middle.
pub open spec fn run_score(values: Seq<Single>, denominator: nat, start: int, end: int) -> Single {
    let center = whole((start + end) as nat).over(whole(2)).over(whole(values.len()));
    let centrality = whole(1).minus(
        center.minus(fraction(50, 100)).absolute().times(fraction(130, 100)),
    ).held(zero(), whole(1));
    whole((end - start) as nat).times(run_of(values, denominator, start, end).mean_ratio).times(
        fraction(80, 100).plus(centrality.times(fraction(20, 100))),
    )
}

/// The best of the runs from `from` on and one found before, the earliest where several are
/// as good. Short runs are left out.
pub open spec fn best_run_from(
    values: Seq<Single>,
    flags: Seq<bool>,
    denominator: nat,
    shortest: int,
    from: int,
    best: Option<RatedRun>,
) -> Option<RatedRun>
    decreases flags.len() - from,
{
    let start = next_flag(flags, from, true);
    let end = next_flag(flags, start, false);
    if start >= flags.len() || end <= from || end > flags.len() {
        best
    } else {
        let score = run_score(values, denominator, start, end);
        let better = end - start >= shortest && (best is None || best->0.score.less(score));
        best_run_from(
            values,
            flags,
            denominator,
            shortest,
            end,
            if better {
                Some(RatedRun { score, run: run_of(values, denominator, start, end) })
            } else {
                best
            },
        )
    }
}

/// The best run of dense lines.
pub open spec fn dense_run(
    values: Seq<Single>,
    denominator: nat,
    threshold: Single,
    shortest: int,
) -> Option<DenseRun> {
    let flags = closed_lines(dense_lines(values, denominator, threshold));
    match best_run_from(values, flags, denominator, shortest, 0, None) {
        Some(rated) => Some(rated.run),
        None => None,
    }
}

fn rate_run(values: &Vec<Single>, denominator: u32, start: usize, end: usize) -> (result: RatedRun)
    requires
        start < end <= values@.len() <= MOST_SMALL_ROWS,
        denominator > 0,
    ensures
        result.score == run_score(values@, denominator as nat, start as int, end as int),
        result.run == run_of(values@, denominator as nat, start as int, end as int),
{
    let mut total = from_int(0);
    let mut k: usize = start;
    while k < end
        invariant
            start <= k <= end <= values@.len(),
            total == total_of(values@, start as int, k as int),
        decreases end - k,
    {
        total = total.add(values[k]);
        k += 1;
    }
    let length = from_int((end - start) as u64);
    let mean_ratio = total.div(length.mul(from_int(denominator as u64)));
    let center = from_int((start + end) as u64).div(from_int(2)).div(
        from_int(values.len() as u64),
    );
    let centrality = from_int(1).sub(
        center.sub(ratio(50, 100)).abs().mul(ratio(130, 100)),
    ).clamp(from_int(0), from_int(1));
    let score = length.mul(mean_ratio).mul(
        ratio(80, 100).add(centrality.mul(ratio(20, 100))),
    );
    RatedRun { score, run: DenseRun { start: start as u32, end: end as u32, mean_ratio } }
}

/// Finds the best run of dense lines among the profile `values`, whose entries are counts
/// out of `denominator`.
pub fn best_dense_run(
    values: &Vec<Single>,
    denominator: u32,
    threshold: Single,
    shortest: u32,
) -> (result: Option<DenseRun>)
    requires
        values@.len() <= MOST_SMALL_ROWS,
        denominator > 0,
    ensures
        result == dense_run(values@, denominator as nat, threshold, shortest as int),
        result is Some ==> result->0.start < result->0.end <= values@.len(),
{
    let mut flags: Vec<bool> = Vec::new();
    let mut at: usize = 0;
    let whole_line = from_int(denominator as u64);
    while at < values.len()
        invariant
            at <= values@.len(),
            flags@.len() == at,
            whole_line == whole(denominator as nat),
            forall|k: int|
                0 <= k < at ==> #[trigger] flags@[k] == values@[k].over(
                    whole(denominator as nat),
                ).at_least(threshold),
        decreases values.len() - at,
    {
        flags.push(values[at].div(whole_line).ge(threshold));
        at += 1;
    }
    let ghost dense = dense_lines(values@, denominator as nat, threshold);
    assert(flags@ =~= dense);
    close_short_gaps(&mut flags, 2);
    assert(flags@ =~= closed_lines(dense));
    let mut best: Option<RatedRun> = None;
    let mut from: usize = 0;
    let mut more = true;
    while more
        invariant
            values@.len() <= MOST_SMALL_ROWS,
            denominator > 0,
            flags@.len() == values@.len(),
            from <= flags@.len(),
            best is Some ==> best->0.run.start < best->0.run.end <= values@.len(),
            more ==> best_run_from(
                values@,
                flags@,
                denominator as nat,
                shortest as int,
                0,
                None,
            ) == best_run_from(
                values@,
                flags@,
                denominator as nat,
                shortest as int,
                from as int,
                best,
            ),
            !more ==> best == best_run_from(
                values@,
                flags@,
                denominator as nat,
                shortest as int,
                0,
                None,
            ),
        decreases (if more { flags@.len() - from + 1 } else { 0 }),
    {
        let start: usize = find_flag(&flags, from, true);
        let end: usize = find_flag(&flags, start, false);
        if start < flags.len() {
            if end - start >= shortest as usize {
                let rated = rate_run(values, denominator, start, end);
                let better = match &best {
                    Some(current) => current.score.lt(rated.score),
                    None => true,
                };
                if better {
                    best = Some(rated);
                }
            }
            from = end;
        } else {
            more = false;
        }
    }
    match best {
        Some(rated) => Some(rated.run),
        None => None,
    }
}

/// A row below the content still shows something.
pub open spec fn shows_something(
    analysis: Analysis,
    counts: Seq<u32>,
    left: int,
    right: int,
    y: int,
) -> bool {
    fraction(counts[y] as nat, (right - left) as nat).at_least(fraction(2, 100)) || mean_distance(
        analysis,
        y,
        left,
        right,
    ).at_least(whole(10))
}

/// Row below the last one that shows something, read from `y` on until a gap is too long.
/// `last` is that row so far and `gap` the number of empty rows behind it; `None` stands for
/// no such row, and then `gap` counts from the bottom of the content.
pub open spec fn last_structured(
    analysis: Analysis,
    counts: Seq<u32>,
    left: int,
    right: int,
    y: int,
    scan_end: int,
    last: Option<u32>,
    gap: int,
) -> Option<u32>
    decreases scan_end - y,
{
    if y >= scan_end {
        last
    } else if shows_something(analysis, counts, left, right, y) {
        last_structured(
            analysis,
            counts,
            left,
            right,
            y + 1,
            scan_end,
            Some((y + 1) as u32),
            0,
        )
    } else if gap + 1 > if last is Some {
        trailing_rows(analysis.height as int)
    } else {
        leading_rows(analysis.height as int)
    } {
        last
    } else {
        last_structured(analysis, counts, left, right, y + 1, scan_end, last, gap + 1)
    }
}

/// Empty rows allowed between the content and what is below it.
pub open spec fn leading_rows(height: int) -> int {
    clamp_int(height / 36, 3, 8)
}

/// Empty rows allowed inside what is below the content.
pub open spec fn trailing_rows(height: int) -> int {
    clamp_int(height / 72, 1, 3)
}

/// Bottom of the content with the desktop's own bars below it.
pub open spec fn extended_bottom(
    analysis: Analysis,
    counts: Seq<u32>,
    left: int,
    right: int,
    bottom: int,
) -> int {
    let height = analysis.height as int;
    let scan_end = min_int(bottom + max_int(height / 10, 6), height);
    match last_structured(analysis, counts, left, right, bottom, scan_end, None, 0) {
        Some(last) => min_int(last + trailing_rows(height), scan_end),
        None => bottom,
    }
}

/// Moves the bottom of the content down over the desktop's own bars.
pub fn extend_bottom_over_desktop_chrome(
    frame: &AnalysisFrame,
    counts: &Vec<u32>,
    left: u32,
    right: u32,
    bottom: u32,
) -> (result: u32)
    requires
        frame.well_formed(),
        counts@.len() == frame.height,
        left < right <= frame.width,
        bottom <= frame.height,
    ensures
        result == extended_bottom(frame@, counts@, left as int, right as int, bottom as int),
        bottom <= result <= frame.height,
{
    let scan_end: u32 = min_u32(bottom + max_u32(frame.height / 10, 6), frame.height);
    let leading: u32 = clamp_u32(frame.height / 36, 3, 8);
    let trailing: u32 = clamp_u32(frame.height / 72, 1, 3);
    let mut last: Option<u32> = None;
    let mut gap: u32 = 0;
    let mut y: u32 = bottom;
    let mut more = true;
    let ghost expected = last_structured(
        frame@,
        counts@,
        left as int,
        right as int,
        bottom as int,
        scan_end as int,
        None,
        0,
    );
    while more && y < scan_end
        invariant
            frame.well_formed(),
            counts@.len() == frame.height,
            left < right <= frame.width,
            bottom <= y <= scan_end <= frame.height,
            leading == leading_rows(frame.height as int),
            trailing == trailing_rows(frame.height as int),
            gap <= y - bottom,
            last is Some ==> bottom < last->0 <= scan_end,
            more ==> expected == last_structured(
                frame@,
                counts@,
                left as int,
                right as int,
                y as int,
                scan_end as int,
                last,
                gap as int,
            ),
            !more ==> expected == last,
        decreases (scan_end - y) + if more { 1int } else { 0int },
    {
        let active = ratio(counts[y as usize] as u64, (right - left) as u64);
        let structured = active.ge(ratio(2, 100)) || measure_distance(frame, y, left, right).ge(
            from_int(10),
        );
        if structured {
            last = Some(y + 1);
            gap = 0;
            y += 1;
        } else {
            let limit: u32 = match last {
                Some(_) => trailing,
                None => leading,
            };
            if gap + 1 > limit {
                more = false;
            } else {
                gap += 1;
                y += 1;
            }
        }
    }
    match last {
        Some(row) => min_u32(row + trailing, scan_end),
        None => bottom,
    }
}

/// A rectangle of the small copy, as one of the picture.
pub open spec fn enlarged(rect: PixelRect, picture: Pixels, analysis: Analysis) -> PixelRect {
    let left = scaled_down(rect.x as int, picture.width as int, analysis.width as int);
    let top = scaled_down(rect.y as int, picture.height as int, analysis.height as int);
    let right = scaled_up(rect.right_edge(), picture.width as int, analysis.width as int);
    let bottom = scaled_up(rect.bottom_edge(), picture.height as int, analysis.height as int);
    PixelRect {
        x: left as u32,
        y: top as u32,
        width: (right - left) as u32,
        height: (bottom - top) as u32,
    }
}

proof fn lemma_enlarging_keeps_order(low: int, high: int, target: int, source: int)
    requires
        0 <= low < high <= source,
        target > 0,
    ensures
        0 <= scaled_down(low, target, source) < scaled_up(high, target, source) <= target,
{
    let down = low * target;
    let up = high * target;
    assert(0 <= down && down + target <= up && up <= source * target) by (nonlinear_arith)
        requires
            0 <= low < high <= source,
            target > 0,
            down == low * target,
            up == high * target,
    ;
    assert(source * target == target * source) by (nonlinear_arith);
    vstd::arithmetic::div_mod::lemma_div_is_ordered(0, down, source);
    crate::numeric::lemma_div_up(up, source);
    let q = down / source;
    let c = crate::numeric::div_up(up, source);
    assert(up <= c * source) by {
        vstd::arithmetic::div_mod::lemma_fundamental_div_mod(up, source);
        let d = up / source;
        assert(up == source * d + up % source);
        if up % source == 0 {
            assert(source * d == d * source) by (nonlinear_arith);
        } else {
            assert((d + 1) * source == source * d + source) by (nonlinear_arith);
        }
    }
    assert(q * source <= down) by {
        vstd::arithmetic::div_mod::lemma_fundamental_div_mod(down, source);
        assert(source * q == q * source) by (nonlinear_arith);
    }
    assert(q < c) by (nonlinear_arith)
        requires
            q * source <= down,
            down < up,
            up <= c * source,
            source > 0,
    ;
    assert(q < target) by (nonlinear_arith)
        requires
            q * source <= down,
            down < target * source,
            source > 0,
    ;
}

/// A rectangle of the small copy stays inside the picture when it is scaled up.
pub proof fn lemma_enlarged_lies_inside(rect: PixelRect, picture: Pixels, analysis: Analysis)
    requires
        picture.width > 0,
        picture.height > 0,
        rect.width > 0,
        rect.height > 0,
        rect.x + rect.width <= analysis.width <= MOST_SMALL_ROWS,
        rect.y + rect.height <= analysis.height <= MOST_SMALL_ROWS,
    ensures
        picture.holds(enlarged(rect, picture, analysis)),
        enlarged(rect, picture, analysis).width > 0,
        enlarged(rect, picture, analysis).height > 0,
{
    lemma_enlarging_keeps_order(
        rect.x as int,
        rect.right_edge(),
        picture.width as int,
        analysis.width as int,
    );
    lemma_enlarging_keeps_order(
        rect.y as int,
        rect.bottom_edge(),
        picture.height as int,
        analysis.height as int,
    );
}

/// Scales a rectangle of the small copy up to the picture.
pub fn scale_rect(rect: PixelRect, picture: &Picture, frame: &AnalysisFrame) -> (result: PixelRect)
    requires
        frame.well_formed(),
        picture.width > 0,
        picture.height > 0,
        rect.width > 0,
        rect.height > 0,
        rect.x + rect.width <= frame.width,
        rect.y + rect.height <= frame.height,
    ensures
        result == enlarged(rect, picture@, frame@),
        result.width > 0,
        result.height > 0,
        result.x + result.width <= picture.width,
        result.y + result.height <= picture.height,
{
    let right_edge: u32 = rect.right();
    let bottom_edge: u32 = rect.bottom();
    proof {
        lemma_enlarging_keeps_order(
            rect.x as int,
            right_edge as int,
            picture.width as int,
            frame.width as int,
        );
        lemma_enlarging_keeps_order(
            rect.y as int,
            bottom_edge as int,
            picture.height as int,
            frame.height as int,
        );
        assert forall|value: int, target: u32| 0 <= value <= MOST_SMALL_ROWS implies
            #[trigger] (value * target) <= u64::MAX by {
            assert(value * target <= 4096 * u32::MAX) by (nonlinear_arith)
                requires
                    0 <= value <= 4096,
                    0 <= target <= u32::MAX,
            ;
        }
    }
    let left: u32 = scale_floor(rect.x as u64, picture.width, frame.width);
    let top: u32 = scale_floor(rect.y as u64, picture.height, frame.height);
    let right: u32 = scale_ceil(right_edge as u64, picture.width, frame.width);
    let bottom: u32 = scale_ceil(bottom_edge as u64, picture.height, frame.height);
    PixelRect { x: left, y: top, width: right - left, height: bottom - top }
}

/// The best run of lines of a profile whose entries count up to `denominator`. The densest
/// line sets what counts as dense.
pub open spec fn profile_run(
    values: Seq<Single>,
    denominator: nat,
    factor: nat,
    shortest: int,
) -> Option<DenseRun> {
    let top = peak(values, values.len()).over(whole(denominator));
    if top.less(fraction(25, 100)) {
        None
    } else {
        dense_run(
            values,
            denominator,
            top.times(fraction(factor, 100)).held(fraction(30, 100), fraction(78, 100)),
            shortest,
        )
    }
}

fn find_profile_run(values: &Vec<Single>, denominator: u32, factor: u64, shortest: u32) -> (result:
    Option<DenseRun>)
    requires
        values@.len() <= MOST_SMALL_ROWS,
        denominator > 0,
    ensures
        result == profile_run(values@, denominator as nat, factor as nat, shortest as int),
        result is Some ==> result->0.start < result->0.end <= values@.len(),
{
    let top = find_peak(values).div(from_int(denominator as u64));
    if top.lt(ratio(25, 100)) {
        None
    } else {
        let threshold = top.mul(ratio(factor, 100)).clamp(ratio(30, 100), ratio(78, 100));
        best_dense_run(values, denominator, threshold, shortest)
    }
}

/// The columns that hold the content.
pub open spec fn content_columns(analysis: Analysis) -> Option<DenseRun> {
    profile_run(
        smoothed(column_profile(analysis), 2),
        analysis.height as nat,
        72,
        max_int(analysis.width as int / 8, 3),
    )
}

/// A row differs from a light background by weak colours only: nothing in it stands out.
pub open spec fn is_tinted(analysis: Analysis, left: int, right: int, y: int) -> bool {
    &&& analysis.threshold == LIGHT_THRESHOLD
    &&& row_active(analysis, y, left, (right - left) as nat) == 0
    &&& mean_distance(analysis, y, left, right).at_least(
        whole(analysis.threshold).times(fraction(35, 100)),
    )
}

/// First row of the tinted rows above row `y`, which may have short gaps between them. `first`
/// is that row so far and `gap` the number of rows above it that are not tinted.
pub open spec fn tinted_start(
    analysis: Analysis,
    left: int,
    right: int,
    y: int,
    first: int,
    gap: int,
) -> int
    decreases y,
{
    if y <= 0 {
        first
    } else if is_tinted(analysis, left, right, y - 1) {
        tinted_start(analysis, left, right, y - 1, y - 1, 0)
    } else if gap + 1 > trailing_rows(analysis.height) {
        first
    } else {
        tinted_start(analysis, left, right, y - 1, first, gap + 1)
    }
}

/// First row of content whose dense rows start at `start`. Content that reaches near the top
/// starts at the top. On a light background it does so too where only weak colours, such as
/// those of a title bar, stand between.
pub open spec fn content_top(analysis: Analysis, left: int, right: int, start: int) -> int {
    if tinted_start(analysis, left, right, start, start, 0) <= max_int(analysis.height / 20, 4) {
        0
    } else {
        start
    }
}

/// The rows that hold the content of the given columns. The bars of the desktop below it
/// belong to it.
pub open spec fn content_rows(analysis: Analysis, columns: DenseRun) -> Option<DenseRun> {
    let left = columns.start as int;
    let right = columns.end as int;
    let height = analysis.height as int;
    let counts = row_profile(analysis, left, right);
    match profile_run(smoothed(counts, 1), (right - left) as nat, 70, max_int(height / 8, 3)) {
        Some(rows) => Some(
            DenseRun {
                start: content_top(analysis, left, right, rows.start as int) as u32,
                end: extended_bottom(analysis, counts, left, right, rows.end as int) as u32,
                mean_ratio: rows.mean_ratio,
            },
        ),
        None => None,
    }
}

/// Where the content stands in the small copy.
pub open spec fn content_area(columns: DenseRun, rows: DenseRun) -> PixelRect {
    PixelRect {
        x: columns.start,
        y: rows.start,
        width: (columns.end - columns.start) as u32,
        height: (rows.end - rows.start) as u32,
    }
}

/// Share of a rectangle of the small copy that is active.
pub open spec fn filled(analysis: Analysis, rect: PixelRect) -> Single {
    fraction(
        area_active(
            analysis,
            rect.x as int,
            rect.y as int,
            rect.width as nat,
            rect.height as nat,
        ),
        rect.pixel_count() as nat,
    )
}

/// Share of the small copy that a rectangle takes.
pub open spec fn area_share(analysis: Analysis, rect: PixelRect) -> Single {
    fraction(rect.pixel_count() as nat, (analysis.width * analysis.height) as nat)
}

/// A number lies between two hundredths, both included.
pub open spec fn between(number: Single, low: nat, high: nat) -> bool {
    number.at_least(fraction(low, 100)) && fraction(high, 100).at_least(number)
}

/// Tells whether a number lies between two hundredths.
pub fn is_between(number: Single, low: u64, high: u64) -> (result: bool)
    ensures
        result == between(number, low as nat, high as nat),
{
    number.ge(ratio(low, 100)) && ratio(high, 100).ge(number)
}

/// Part of a confidence: `number` up to one, weighted with hundredths.
pub open spec fn weighted(number: Single, weight: nat) -> Single {
    number.smaller(whole(1)).times(fraction(weight, 100))
}

/// Weighs a part of a confidence.
pub fn weigh(number: Single, weight: u64) -> (result: Single)
    ensures
        result == weighted(number, weight as nat),
{
    number.min(from_int(1)).mul(ratio(weight, 100))
}

/// How sure a projection is.
pub open spec fn projection_confidence(
    analysis: Analysis,
    columns: DenseRun,
    rows: DenseRun,
) -> Single {
    let area = content_area(columns, rows);
    fraction(50, 100).plus(weighted(filled(analysis, area), 20)).plus(
        weighted(rows.mean_ratio, 10),
    ).plus(weighted(columns.mean_ratio, 12)).plus(
        weighted(area_share(analysis, area).over(fraction(55, 100)), 8),
    )
}

/// The area is large enough, not the whole picture, neither a strip nor mostly empty.
pub open spec fn is_content_area(analysis: Analysis, area: PixelRect) -> bool {
    &&& between(area_share(analysis, area), 12, 97)
    &&& between(fraction(area.width as nat, area.height as nat), 30, 650)
    &&& filled(analysis, area).at_least(fraction(48, 100))
}

/// The content that the projections of a picture show.
pub open spec fn projected_content(picture: Pixels, analysis: Analysis) -> Option<ContentCandidate> {
    match content_columns(analysis) {
        Some(columns) => match content_rows(analysis, columns) {
            Some(rows) => {
                let area = content_area(columns, rows);
                if is_content_area(analysis, area) {
                    Some(
                        ContentCandidate::held(
                            snapped_to_edges(picture, enlarged(area, picture, analysis)),
                            projection_confidence(analysis, columns, rows),
                        ),
                    )
                } else {
                    None
                }
            },
            None => None,
        },
        None => None,
    }
}

fn find_content_columns(frame: &AnalysisFrame) -> (result: Option<DenseRun>)
    requires
        frame.well_formed(),
    ensures
        result == content_columns(frame@),
        result is Some ==> result->0.start < result->0.end <= frame.width,
{
    let counts = count_columns(frame);
    let values = smooth_counts(&counts, 2);
    find_profile_run(&values, frame.height, 72, max_u32(frame.width / 8, 3))
}

fn find_content_top(frame: &AnalysisFrame, left: u32, right: u32, start: u32) -> (result: u32)
    requires
        frame.well_formed(),
        left <= right <= frame.width,
        start < frame.height,
    ensures
        result == content_top(frame@, left as int, right as int, start as int),
        result <= start,
{
    let weak = from_int(frame.threshold as u64).mul(ratio(35, 100));
    let trailing: u32 = clamp_u32(frame.height / 72, 1, 3);
    let mut y: u32 = start;
    let mut first: u32 = start;
    let mut gap: u32 = 0;
    while y > 0 && gap <= trailing
        invariant
            frame.well_formed(),
            left <= right <= frame.width,
            y <= first <= start < frame.height,
            gap <= trailing + 1,
            trailing == trailing_rows(frame@.height),
            trailing <= 3,
            weak == whole(frame@.threshold).times(fraction(35, 100)),
            gap <= trailing ==> tinted_start(
                frame@,
                left as int,
                right as int,
                start as int,
                start as int,
                0,
            ) == tinted_start(
                frame@,
                left as int,
                right as int,
                y as int,
                first as int,
                gap as int,
            ),
            gap > trailing ==> first == tinted_start(
                frame@,
                left as int,
                right as int,
                start as int,
                start as int,
                0,
            ),
        decreases y,
    {
        y -= 1;
        let tinted = frame.threshold == LIGHT_THRESHOLD && count_row(frame, y, left, right) == 0
            && measure_distance(frame, y, left, right).ge(weak);
        if tinted {
            first = y;
            gap = 0;
        } else {
            gap += 1;
        }
    }
    if first <= max_u32(frame.height / 20, 4) {
        0
    } else {
        start
    }
}

fn find_content_rows(frame: &AnalysisFrame, columns: DenseRun) -> (result: Option<DenseRun>)
    requires
        frame.well_formed(),
        columns.start < columns.end <= frame.width,
    ensures
        result == content_rows(frame@, columns),
        result is Some ==> result->0.start < result->0.end <= frame.height,
{
    let counts = count_rows(frame, columns.start, columns.end);
    let values = smooth_counts(&counts, 1);
    let found = find_profile_run(
        &values,
        columns.end - columns.start,
        70,
        max_u32(frame.height / 8, 3),
    );
    match found {
        Some(rows) => {
            let start: u32 = find_content_top(frame, columns.start, columns.end, rows.start);
            let end: u32 = extend_bottom_over_desktop_chrome(
                frame,
                &counts,
                columns.start,
                columns.end,
                rows.end,
            );
            Some(DenseRun { start, end, mean_ratio: rows.mean_ratio })
        },
        None => None,
    }
}

/// Looks for content by the projections of the small copy.
pub fn detect_projection_candidate(picture: &Picture, frame: &AnalysisFrame) -> (result: Option<
    ContentCandidate,
>)
    requires
        picture.well_formed(),
        frame.well_formed(),
        picture.width > 0,
        picture.height > 0,
    ensures
        result == projected_content(picture@, frame@),
        result is Some ==> picture@.holds(result->0.rect),
{
    let columns = match find_content_columns(frame) {
        Some(columns) => columns,
        None => return None,
    };
    let rows = match find_content_rows(frame, columns) {
        Some(rows) => rows,
        None => return None,
    };
    let area = PixelRect::new(
        columns.start,
        rows.start,
        columns.end - columns.start,
        rows.end - rows.start,
    );
    assert(area == content_area(columns, rows));
    proof {
        lemma_area_is_positive(area.width as int, area.height as int);
        lemma_area_is_positive(frame.width as int, frame.height as int);
    }
    let size: u64 = area.area();
    let share = ratio(size, frame.width as u64 * frame.height as u64);
    let aspect = ratio(area.width as u64, area.height as u64);
    if !is_between(share, 12, 97) || !is_between(aspect, 30, 650) {
        return None;
    }
    let fill = ratio(count_area(frame, area), size);
    if fill.lt(ratio(48, 100)) {
        return None;
    }
    let rect = refine_projected_edges(picture, scale_rect(area, picture, frame));
    let confidence = ratio(50, 100).add(weigh(fill, 20)).add(weigh(rows.mean_ratio, 10)).add(
        weigh(columns.mean_ratio, 12),
    ).add(weigh(share.div(ratio(55, 100)), 8));
    proof {
        law_projected_content_lies_inside(picture@, frame@);
    }
    Some(ContentCandidate::new(rect, confidence))
}

/// The area of a rectangle with an interior is positive and fits.
pub proof fn lemma_area_is_positive(width: int, height: int)
    requires
        0 < width <= u32::MAX,
        0 < height <= u32::MAX,
    ensures
        0 < width * height <= u64::MAX,
{
    assert(0 < width * height <= u32::MAX * u32::MAX) by (nonlinear_arith)
        requires
            0 < width <= u32::MAX,
            0 < height <= u32::MAX,
    ;
}

proof fn lemma_next_flag(flags: Seq<bool>, at: int, value: bool)
    requires
        0 <= at <= flags.len(),
    ensures
        at <= next_flag(flags, at, value) <= flags.len(),
        next_flag(flags, at, value) < flags.len() ==> flags[next_flag(flags, at, value)] == value,
    decreases flags.len() - at,
{
    if at < flags.len() && flags[at] != value {
        lemma_next_flag(flags, at + 1, value);
    }
}

proof fn lemma_best_run_is_a_run(
    values: Seq<Single>,
    flags: Seq<bool>,
    denominator: nat,
    shortest: int,
    from: int,
    best: Option<RatedRun>,
)
    requires
        0 <= from <= flags.len() <= MOST_SMALL_ROWS,
        best is Some ==> best->0.run.start < best->0.run.end <= flags.len(),
    ensures
        ({
            let result = best_run_from(values, flags, denominator, shortest, from, best);
            result is Some ==> result->0.run.start < result->0.run.end <= flags.len()
        }),
    decreases flags.len() - from,
{
    let start = next_flag(flags, from, true);
    let end = next_flag(flags, start, false);
    lemma_next_flag(flags, from, true);
    lemma_next_flag(flags, start, false);
    if !(start >= flags.len() || end <= from || end > flags.len()) {
        let score = run_score(values, denominator, start, end);
        let better = end - start >= shortest && (best is None || best->0.score.less(score));
        let next = if better {
            Some(RatedRun { score, run: run_of(values, denominator, start, end) })
        } else {
            best
        };
        assert(start < end);
        lemma_best_run_is_a_run(values, flags, denominator, shortest, end, next);
    }
}

proof fn lemma_profile_run(values: Seq<Single>, denominator: nat, factor: nat, shortest: int)
    requires
        values.len() <= MOST_SMALL_ROWS,
    ensures
        ({
            let result = profile_run(values, denominator, factor, shortest);
            result is Some ==> result->0.start < result->0.end <= values.len()
        }),
{
    let top = peak(values, values.len()).over(whole(denominator));
    let threshold = top.times(fraction(factor, 100)).held(fraction(30, 100), fraction(78, 100));
    let flags = closed_lines(dense_lines(values, denominator, threshold));
    lemma_best_run_is_a_run(values, flags, denominator, shortest, 0, None);
}

proof fn lemma_last_structured(
    analysis: Analysis,
    counts: Seq<u32>,
    left: int,
    right: int,
    bottom: int,
    y: int,
    scan_end: int,
    last: Option<u32>,
    gap: int,
)
    requires
        0 <= bottom <= y,
        scan_end <= u32::MAX,
        last is Some ==> bottom < last->0 <= scan_end,
    ensures
        ({
            let result = last_structured(
                analysis,
                counts,
                left,
                right,
                y,
                scan_end,
                last,
                gap,
            );
            result is Some ==> bottom < result->0 <= scan_end
        }),
    decreases scan_end - y,
{
    if y < scan_end {
        lemma_last_structured(
            analysis,
            counts,
            left,
            right,
            bottom,
            y + 1,
            scan_end,
            Some((y + 1) as u32),
            0,
        );
        lemma_last_structured(
            analysis,
            counts,
            left,
            right,
            bottom,
            y + 1,
            scan_end,
            last,
            gap + 1,
        );
    }
}

proof fn lemma_nothing_is_tinted(
    analysis: Analysis,
    left: int,
    right: int,
    y: int,
    first: int,
    gap: int,
)
    requires
        forall|row: int| 0 <= row < y ==> !#[trigger] is_tinted(analysis, left, right, row),
    ensures
        tinted_start(analysis, left, right, y, first, gap) == first,
    decreases y,
{
    if y > 0 {
        assert(!is_tinted(analysis, left, right, y - 1));
        lemma_nothing_is_tinted(analysis, left, right, y - 1, first, gap + 1);
    }
}

/// Where the background is not light, or something stands out in every row above, content
/// starts with its dense rows, or at the top where these start near it.
pub proof fn law_dense_rows_start_the_content(
    analysis: Analysis,
    left: int,
    right: int,
    start: int,
)
    requires
        analysis.threshold != LIGHT_THRESHOLD || forall|row: int|
            0 <= row < start ==> #[trigger] row_active(analysis, row, left, (right - left) as nat)
                > 0,
    ensures
        content_top(analysis, left, right, start) == if start <= max_int(analysis.height / 20, 4) {
            0
        } else {
            start
        },
{
    assert forall|row: int| 0 <= row < start implies !#[trigger] is_tinted(
        analysis,
        left,
        right,
        row,
    ) by {
        if analysis.threshold == LIGHT_THRESHOLD {
            assert(row_active(analysis, row, left, (right - left) as nat) > 0);
        }
    }
    lemma_nothing_is_tinted(analysis, left, right, start, start, 0);
}

/// The content lies inside the picture.
pub proof fn law_projected_content_lies_inside(picture: Pixels, analysis: Analysis)
    requires
        picture.width > 0,
        picture.height > 0,
        0 < analysis.width <= MOST_SMALL_ROWS,
        0 < analysis.height <= MOST_SMALL_ROWS,
        projected_content(picture, analysis) is Some,
    ensures
        picture.holds(projected_content(picture, analysis)->0.rect),
{
    let columns = content_columns(analysis)->0;
    lemma_profile_run(
        smoothed(column_profile(analysis), 2),
        analysis.height as nat,
        72,
        max_int(analysis.width as int / 8, 3),
    );
    let left = columns.start as int;
    let right = columns.end as int;
    let height = analysis.height as int;
    let counts = row_profile(analysis, left, right);
    let found = profile_run(
        smoothed(counts, 1),
        (right - left) as nat,
        70,
        max_int(height / 8, 3),
    );
    lemma_profile_run(smoothed(counts, 1), (right - left) as nat, 70, max_int(height / 8, 3));
    let end = found->0.end as int;
    lemma_last_structured(
        analysis,
        counts,
        left,
        right,
        end,
        end,
        min_int(end + max_int(height / 10, 6), height),
        None,
        0,
    );
    let rows = content_rows(analysis, columns)->0;
    let area = content_area(columns, rows);
    lemma_enlarged_lies_inside(area, picture, analysis);
    law_moved_edges_stay_inside(picture, enlarged(area, picture, analysis));
}

/// A candidate keeps its rectangle, and its confidence where that lies between nothing and
/// one; nothing else is ever claimed of it.
pub proof fn law_candidates_are_between_unsure_and_sure(rect: PixelRect, confidence: Single)
    ensures
        ({
            let candidate = ContentCandidate::held(rect, confidence);
            &&& candidate.rect == rect
            &&& !candidate.is_exclusion
            &&& candidate.confidence.at_least(zero())
            &&& whole(1).at_least(candidate.confidence)
            &&& confidence.at_least(zero()) && whole(1).at_least(confidence)
                ==> candidate.confidence == confidence.canonical()
        }),
{
    lemma_zero_is_modest();
    law_held_numbers_are_in_range(confidence, zero(), whole(1));
}

/// The cells of a row or a column are counted where they are active.
pub proof fn law_active_cells_are_counted(
    analysis: Analysis,
    line: int,
    left: int,
    cells: nat,
)
    ensures
        row_active(analysis, line, left, cells) <= cells,
        column_active(analysis, line, cells) <= cells,
        (forall|k: int| 0 <= k < cells ==> #[trigger] analysis.on(left + k, line)) ==> row_active(
            analysis,
            line,
            left,
            cells,
        ) == cells,
        (forall|k: int| 0 <= k < cells ==> !(#[trigger] analysis.on(left + k, line)))
            ==> row_active(analysis, line, left, cells) == 0,
        (forall|y: int| 0 <= y < cells ==> #[trigger] analysis.on(line, y)) ==> column_active(
            analysis,
            line,
            cells,
        ) == cells,
        (forall|y: int| 0 <= y < cells ==> !(#[trigger] analysis.on(line, y))) ==> column_active(
            analysis,
            line,
            cells,
        ) == 0,
        row_active(analysis, line, left, cells + 1) == row_active(analysis, line, left, cells)
            + if analysis.on(left + cells, line) {
            1int
        } else {
            0
        },
    decreases cells,
{
    if cells > 0 {
        let last = (cells - 1) as nat;
        law_active_cells_are_counted(analysis, line, left, last);
        if forall|k: int| 0 <= k < cells ==> #[trigger] analysis.on(left + k, line) {
            assert(analysis.on(left + last, line));
        }
        if forall|k: int| 0 <= k < cells ==> !(#[trigger] analysis.on(left + k, line)) {
            assert(!analysis.on(left + last, line));
        }
    }
}

/// An area has as many active cells as its rows together.
pub proof fn law_areas_are_counted_row_by_row(
    analysis: Analysis,
    left: int,
    top: int,
    columns: nat,
    rows: nat,
)
    ensures
        area_active(analysis, left, top, columns, rows) <= columns * rows,
        area_active(analysis, left, top, columns, rows + 1) == area_active(
            analysis,
            left,
            top,
            columns,
            rows,
        ) + row_active(analysis, top + rows, left, columns),
        (forall|i: int, j: int|
            0 <= i < columns && 0 <= j < rows ==> #[trigger] analysis.on(left + i, top + j))
            ==> area_active(analysis, left, top, columns, rows) == columns * rows,
        (forall|i: int, j: int|
            0 <= i < columns && 0 <= j < rows ==> !(#[trigger] analysis.on(left + i, top + j)))
            ==> area_active(analysis, left, top, columns, rows) == 0,
    decreases rows,
{
    assert(columns * 0 == 0);
    if rows > 0 {
        let last = (rows - 1) as nat;
        law_areas_are_counted_row_by_row(analysis, left, top, columns, last);
        law_active_cells_are_counted(analysis, top + last, left, columns);
        let c = columns as int;
        let r = rows as int;
        assert(c * (r - 1) + c == c * r) by (nonlinear_arith);
        if forall|i: int, j: int|
            0 <= i < columns && 0 <= j < rows ==> #[trigger] analysis.on(left + i, top + j) {
            assert forall|k: int| 0 <= k < columns implies #[trigger] analysis.on(
                left + k,
                top + last,
            ) by {}
        }
        if forall|i: int, j: int|
            0 <= i < columns && 0 <= j < rows ==> !(#[trigger] analysis.on(left + i, top + j)) {
            assert forall|k: int| 0 <= k < columns implies !(#[trigger] analysis.on(
                left + k,
                top + last,
            )) by {}
        }
    }
}

/// Profiles hold the active cells of each column, and of each row between two columns.
pub proof fn law_profiles_count_each_line(
    analysis: Analysis,
    left: int,
    right: int,
    at: int,
)
    requires
        0 <= analysis.width <= u32::MAX,
        0 <= analysis.height <= u32::MAX,
        0 <= left <= right <= analysis.width,
        0 <= at,
    ensures
        at < analysis.width ==> column_profile(analysis)[at] == column_active(
            analysis,
            at,
            analysis.height as nat,
        ),
        at < analysis.height ==> row_profile(analysis, left, right)[at] == row_active(
            analysis,
            at,
            left,
            (right - left) as nat,
        ),
        column_profile(analysis).len() == analysis.width,
        row_profile(analysis, left, right).len() == analysis.height,
{
    law_active_cells_are_counted(analysis, at, 0, analysis.height as nat);
    law_active_cells_are_counted(analysis, at, left, (right - left) as nat);
}

/// The mean distance of a row of equal cells is that of each.
pub proof fn law_equal_cells_have_their_distance(
    analysis: Analysis,
    y: int,
    left: int,
    right: int,
    level: u8,
)
    requires
        left < right,
        right - left < 0x1_0000,
        forall|x: int| left <= x < right ==> #[trigger] analysis.level(x, y) == level,
    ensures
        mean_distance(analysis, y, left, right) == whole(level as nat),
        mean_distance(analysis, y, right, left) == zero(),
{
    let columns = (right - left) as nat;
    lemma_equal_distances(analysis, y, left, columns, level);
    let l = level as nat;
    assert(l * columns == columns * l) by (nonlinear_arith);
    assert(l * columns < 0x100_0000) by (nonlinear_arith)
        requires
            l <= 255,
            columns < 0x1_0000,
    ;
    law_small_integers_divide(l, columns);
}

proof fn lemma_equal_distances(analysis: Analysis, y: int, left: int, columns: nat, level: u8)
    requires
        forall|x: int| left <= x < left + columns ==> #[trigger] analysis.level(x, y) == level,
    ensures
        row_distance(analysis, y, left, columns) == columns * (level as nat),
    decreases columns,
{
    let l = level as int;
    assert(0 * l == 0);
    if columns > 0 {
        lemma_equal_distances(analysis, y, left, (columns - 1) as nat, level);
        assert(analysis.level(left + columns - 1, y) == level);
        let c = columns as int;
        assert((c - 1) * l + l == c * l) by (nonlinear_arith);
    }
}

/// Smoothing keeps a profile of equal entries.
pub proof fn law_smoothing_keeps_equal_entries(
    counts: Seq<u32>,
    radius: int,
    at: int,
    value: u32,
)
    requires
        0 <= radius <= 16,
        0 <= at < counts.len(),
        value < 0x1_0000,
        forall|k: int| 0 <= k < counts.len() ==> #[trigger] counts[k] == value,
    ensures
        smoothed(counts, radius)[at] == whole(value as nat),
        smoothed(counts, radius).len() == counts.len(),
{
    let start = max_int(at - radius, 0);
    let end = min_int(at + radius + 1, counts.len() as int);
    let n = (end - start) as nat;
    lemma_equal_sum(counts, start, end, value);
    let v = value as nat;
    assert(v * n == n * v) by (nonlinear_arith);
    assert(v * n < 0x100_0000) by (nonlinear_arith)
        requires
            v < 0x1_0000,
            n <= 33,
    ;
    law_small_integers_divide(v, n);
}

proof fn lemma_equal_sum(counts: Seq<u32>, start: int, end: int, value: u32)
    requires
        0 <= start <= end <= counts.len(),
        forall|k: int| 0 <= k < counts.len() ==> #[trigger] counts[k] == value,
    ensures
        sum_of(counts, start, end) == (end - start) * value,
    decreases end - start,
{
    let v = value as int;
    assert(0 * v == 0);
    if start < end {
        lemma_equal_sum(counts, start, end - 1, value);
        let n = end - start;
        assert((n - 1) * v + v == n * v) by (nonlinear_arith);
    }
}

/// The peak of a profile is at least each of its entries, and never negative.
pub proof fn law_the_peak_is_the_largest(values: Seq<Single>, first: nat)
    requires
        first <= values.len(),
    ensures
        peak(values, first).at_least(zero()),
        forall|k: int| 0 <= k < first ==> peak(values, first).at_least(#[trigger] values[k]),
    decreases first,
{
    law_order_is_total(zero(), zero());
    if first > 0 {
        law_the_peak_is_the_largest(values, (first - 1) as nat);
        let before = peak(values, (first - 1) as nat);
        let last = values[first - 1];
        law_the_smaller_is_above_neither(before, last);
        law_order_is_transitive(peak(values, first), before, zero());
        assert forall|k: int| 0 <= k < first implies peak(values, first).at_least(
            #[trigger] values[k],
        ) by {
            if k < first - 1 {
                law_order_is_transitive(peak(values, first), before, values[k]);
            }
        }
    }
}

/// A line is dense where its share reaches the threshold; gaps of one or two lines between
/// dense ones are closed, longer ones are not.
pub proof fn law_dense_lines_reach_the_threshold(
    values: Seq<Single>,
    denominator: nat,
    threshold: Single,
    at: int,
)
    requires
        0 <= at < values.len(),
    ensures
        ({
            let dense = dense_lines(values, denominator, threshold);
            &&& dense.len() == values.len()
            &&& dense[at] <==> values[at].over(whole(denominator)).at_least(threshold)
            &&& dense[at] ==> closed_lines(dense)[at]
            &&& 0 < at && at + 1 < values.len() && dense[at - 1] && dense[at + 1] ==> closed_lines(
                dense,
            )[at]
            &&& closed_lines(dense).len() == dense.len()
        }),
{
    let dense = dense_lines(values, denominator, threshold);
    if 0 < at && at + 1 < values.len() && dense[at - 1] && dense[at + 1] && !dense[at] {
        law_short_gaps_are_closed(dense, at, at + 1, 2);
        assert(is_closed_at(dense, at, 2));
    }
}

/// The next flag is the first one from the place on.
pub proof fn law_the_next_flag_is_the_first(flags: Seq<bool>, at: int, value: bool)
    requires
        0 <= at <= flags.len(),
    ensures
        ({
            let next = next_flag(flags, at, value);
            &&& at <= next <= flags.len()
            &&& next < flags.len() ==> flags[next] == value
            &&& forall|k: int| at <= k < next ==> #[trigger] flags[k] != value
        }),
    decreases flags.len() - at,
{
    if at < flags.len() && flags[at] != value {
        law_the_next_flag_is_the_first(flags, at + 1, value);
    }
}

/// A run of set flags that cannot be made longer.
pub open spec fn is_run(flags: Seq<bool>, start: int, end: int) -> bool {
    &&& 0 <= start < end <= flags.len()
    &&& forall|k: int| start <= k < end ==> #[trigger] flags[k]
    &&& start > 0 ==> !flags[start - 1]
    &&& end < flags.len() ==> !flags[end]
}

/// The best run that is long enough is taken: where there is one, some run is taken, and none
/// that is long enough scores higher.
pub proof fn law_the_best_run_is_taken(
    values: Seq<Single>,
    flags: Seq<bool>,
    denominator: nat,
    shortest: int,
    from: int,
    best: Option<RatedRun>,
    start: int,
    end: int,
)
    requires
        0 <= from <= flags.len(),
        from == 0 || from == flags.len() || !flags[from],
    ensures
        ({
            let taken = best_run_from(values, flags, denominator, shortest, from, best);
            &&& best is Some ==> taken is Some && taken->0.score.at_least(best->0.score)
            &&& is_run(flags, start, end) && from <= start && end - start >= shortest ==> taken
                is Some && taken->0.score.at_least(run_score(values, denominator, start, end))
        }),
    decreases flags.len() - from,
{
    let first = next_flag(flags, from, true);
    law_the_next_flag_is_the_first(flags, from, true);
    law_the_next_flag_is_the_first(flags, first, false);
    let last = next_flag(flags, first, false);
    if best is Some {
        law_order_is_total(best->0.score, best->0.score);
    }
    if is_run(flags, start, end) && from <= start {
        assert(flags[start]);
        assert(first <= start);
    }
    if first < flags.len() {
        assert(flags[first]);
        assert(last > first);
        let score = run_score(values, denominator, first, last);
        law_order_is_total(score, score);
        let better = last - first >= shortest && (best is None || best->0.score.less(score));
        let next = if better {
            Some(RatedRun { score, run: run_of(values, denominator, first, last) })
        } else {
            best
        };
        law_the_best_run_is_taken(
            values,
            flags,
            denominator,
            shortest,
            last,
            next,
            start,
            end,
        );
        let taken = best_run_from(values, flags, denominator, shortest, from, best);
        if best is Some {
            law_order_is_total(best->0.score, score);
            law_order_is_transitive(taken->0.score, next->0.score, best->0.score);
        }
        if is_run(flags, start, end) && from <= start && end - start >= shortest {
            if start < last {
                if start > first {
                    assert(flags[start - 1]);
                }
                assert(start == first);
                if end < last {
                    assert(flags[end]);
                }
                if last < end {
                    assert(!flags[last]);
                }
                assert(end == last);
                law_order_is_transitive(taken->0.score, next->0.score, score);
            }
        }
    }
}

/// A picture in which nothing stands out has no projected content.
pub proof fn law_nothing_shows_nothing(picture: Pixels, analysis: Analysis)
    requires
        0 < analysis.width <= MOST_SMALL_ROWS,
        0 < analysis.height <= MOST_SMALL_ROWS,
        forall|x: int, y: int|
            0 <= x < analysis.width && 0 <= y < analysis.height ==> !(#[trigger] analysis.on(x, y)),
    ensures
        projected_content(picture, analysis) is None,
{
    let counts = column_profile(analysis);
    assert forall|k: int| 0 <= k < counts.len() implies #[trigger] counts[k] == 0 by {
        law_active_cells_are_counted(analysis, k, 0, analysis.height as nat);
    }
    let values = smoothed(counts, 2);
    assert forall|k: int| 0 <= k < values.len() implies #[trigger] values[k] == zero() by {
        law_smoothing_keeps_equal_entries(counts, 2, k, 0);
        law_small_integers_are_kept(0);
    }
    lemma_peak_of_nothing(values, values.len());
    lemma_naturals_are_modest(analysis.height as nat);
    law_numbers_cancel(whole(analysis.height as nat));
    law_shares_are_compared_by_their_parts(0, 25, 100);
    lemma_fraction_of_nothing(100);
}

proof fn lemma_peak_of_nothing(values: Seq<Single>, first: nat)
    requires
        first <= values.len(),
        forall|k: int| 0 <= k < values.len() ==> #[trigger] values[k] == zero(),
    ensures
        peak(values, first) == zero(),
    decreases first,
{
    if first > 0 {
        lemma_peak_of_nothing(values, (first - 1) as nat);
        law_small_integers_are_kept(0);
        law_small_integers_are_in_order(0, 0);
        assert(values[first - 1] == zero());
    }
}

/// A number of hundredths lies between two others where they say so.
pub proof fn law_hundredths_lie_between(number: nat, low: nat, high: nat)
    requires
        number < 0x10_0000,
        low < 0x10_0000,
        high < 0x10_0000,
    ensures
        between(fraction(number, 100), low, high) <==> low <= number <= high,
{
    law_shares_are_compared_by_their_parts(number, low, 100);
    law_shares_are_compared_by_their_parts(high, number, 100);
}

/// A part of a confidence counts with its full weight from one on, not at all where it is
/// nothing, and more the larger it is.
pub proof fn law_parts_count_with_their_weight(number: Single, smaller: Single, weight: nat)
    requires
        is_modest(number, 0x1000),
        is_modest(smaller, 0x1000),
        number.at_least(smaller),
        weight <= 100,
    ensures
        whole(1).less(number) ==> weighted(number, weight) == fraction(weight, 100),
        weighted(whole(1), weight) == fraction(weight, 100),
        weighted(zero(), weight) == zero(),
        weighted(number, weight).at_least(weighted(smaller, weight)),
{
    let part = fraction(weight, 100);
    lemma_fractions_are_modest(weight, 100);
    lemma_zero_is_modest();
    law_fractions_are_not_negative(weight, 100);
    law_numbers_cancel(part);
    law_operations_commute(whole(1), part);
    law_operations_commute(zero(), part);
    law_small_integers_are_kept(0);
    law_small_integers_are_kept(1);
    law_small_integers_are_in_order(0, 1);
    law_small_integers_are_in_order(1, 1);
    lemma_results_are_modest(number, whole(1), 0x1000);
    lemma_results_are_modest(smaller, whole(1), 0x1000);
    lemma_canonical_is_kept(number);
    lemma_canonical_is_kept(smaller);
    let a = number.smaller(whole(1));
    let b = smaller.smaller(whole(1));
    law_the_smaller_is_above_neither(number, whole(1));
    law_the_smaller_is_above_neither(smaller, whole(1));
    if whole(1).less(number) {
        assert(a == whole(1));
    } else {
        assert(a == number);
        law_order_is_transitive(number, smaller, b);
    }
    assert(a.at_least(b));
    law_multiplying_keeps_the_order(a, b, part);
}

/// An area is content where it takes between 12 and 97 hundredths of the picture, is no strip
/// and is filled to 48 hundredths.
pub proof fn law_large_filled_areas_are_content(analysis: Analysis, area: PixelRect)
    requires
        0 < analysis.width * analysis.height < 0x100_0000,
        0 < area.width < 0x100_0000,
        0 < area.height < 0x100_0000,
        area.pixel_count() < 0x100_0000,
        area.pixel_count() * 100 >= analysis.width * analysis.height * 12,
        area.pixel_count() * 100 <= analysis.width * analysis.height * 97,
        area.width * 10 >= area.height * 3,
        area.width * 2 <= area.height * 13,
        area_active(
            analysis,
            area.x as int,
            area.y as int,
            area.width as nat,
            area.height as nat,
        ) * 100 >= area.pixel_count() * 48,
    ensures
        is_content_area(analysis, area),
{
    let all = (analysis.width * analysis.height) as nat;
    let part = area.pixel_count() as nat;
    assert(area.pixel_count() > 0) by (nonlinear_arith)
        requires
            area.pixel_count() == area.width * area.height,
            area.width > 0,
            area.height > 0,
    ;
    let active = area_active(
        analysis,
        area.x as int,
        area.y as int,
        area.width as nat,
        area.height as nat,
    );
    law_areas_are_counted_row_by_row(
        analysis,
        area.x as int,
        area.y as int,
        area.width as nat,
        area.height as nat,
    );
    law_larger_shares_reach_smaller_ones(12, 100, part, all);
    law_larger_shares_reach_smaller_ones(part, all, 97, 100);
    law_larger_shares_reach_smaller_ones(30, 100, area.width as nat, area.height as nat);
    law_larger_shares_reach_smaller_ones(area.width as nat, area.height as nat, 650, 100);
    law_larger_shares_reach_smaller_ones(48, 100, active, part);
}

/// An area without active cells is no content, nor is the whole picture.
pub proof fn law_empty_areas_are_no_content(analysis: Analysis, area: PixelRect)
    requires
        0 < analysis.width * analysis.height < 0x100_0000,
        0 < area.pixel_count() < 0x100_0000,
    ensures
        area_active(
            analysis,
            area.x as int,
            area.y as int,
            area.width as nat,
            area.height as nat,
        ) == 0 ==> !is_content_area(analysis, area),
        area.pixel_count() == analysis.width * analysis.height ==> !is_content_area(
            analysis,
            area,
        ),
{
    lemma_fraction_of_nothing(area.pixel_count() as nat);
    lemma_fraction_of_nothing(100);
    law_shares_are_compared_by_their_parts(0, 48, 100);
    law_whole_share_is_one(area.pixel_count() as nat);
    law_whole_share_is_one(100);
    law_shares_are_compared_by_their_parts(97, 100, 100);
}

/// The area of columns and rows reaches from the first to the last of them.
pub proof fn law_areas_reach_from_first_to_last(columns: DenseRun, rows: DenseRun)
    requires
        columns.start <= columns.end,
        rows.start <= rows.end,
    ensures
        content_area(columns, rows).x == columns.start,
        content_area(columns, rows).y == rows.start,
        content_area(columns, rows).x + content_area(columns, rows).width == columns.end,
        content_area(columns, rows).y + content_area(columns, rows).height == rows.end,
{
}

/// Content reaches down over the rows below it that show something, and stays where none of
/// them does; few empty rows are allowed between them.
pub proof fn law_bars_below_belong_to_the_content(
    analysis: Analysis,
    counts: Seq<u32>,
    left: int,
    right: int,
    bottom: int,
)
    requires
        0 <= bottom < analysis.height <= MOST_SMALL_ROWS,
    ensures
        (forall|y: int|
            bottom <= y < analysis.height ==> !(#[trigger] shows_something(
                analysis,
                counts,
                left,
                right,
                y,
            ))) ==> extended_bottom(analysis, counts, left, right, bottom) == bottom,
        shows_something(analysis, counts, left, right, bottom) ==> extended_bottom(
            analysis,
            counts,
            left,
            right,
            bottom,
        ) > bottom,
        3 <= leading_rows(analysis.height) <= 8,
        1 <= trailing_rows(analysis.height) <= 3,
{
    let height = analysis.height;
    let scan_end = min_int(bottom + max_int(height / 10, 6), height);
    if forall|y: int|
        bottom <= y < height ==> !(#[trigger] shows_something(analysis, counts, left, right, y)) {
        lemma_nothing_below(analysis, counts, left, right, bottom, scan_end, 0);
    }
    if shows_something(analysis, counts, left, right, bottom) {
        lemma_last_structured(
            analysis,
            counts,
            left,
            right,
            bottom,
            bottom + 1,
            scan_end,
            Some((bottom + 1) as u32),
            0,
        );
        lemma_rows_only_go_down(
            analysis,
            counts,
            left,
            right,
            bottom + 1,
            scan_end,
            (bottom + 1) as u32,
            0,
        );
    }
}

proof fn lemma_nothing_below(
    analysis: Analysis,
    counts: Seq<u32>,
    left: int,
    right: int,
    y: int,
    scan_end: int,
    gap: int,
)
    requires
        scan_end <= analysis.height,
        forall|row: int|
            y <= row < analysis.height ==> !(#[trigger] shows_something(
                analysis,
                counts,
                left,
                right,
                row,
            )),
    ensures
        last_structured(analysis, counts, left, right, y, scan_end, None, gap) is None,
    decreases scan_end - y,
{
    if y < scan_end {
        assert(!shows_something(analysis, counts, left, right, y));
        lemma_nothing_below(analysis, counts, left, right, y + 1, scan_end, gap + 1);
    }
}

proof fn lemma_rows_only_go_down(
    analysis: Analysis,
    counts: Seq<u32>,
    left: int,
    right: int,
    y: int,
    scan_end: int,
    last: u32,
    gap: int,
)
    requires
        last <= y,
        0 <= y,
        scan_end <= MOST_SMALL_ROWS,
    ensures
        ({
            let found = last_structured(
                analysis,
                counts,
                left,
                right,
                y,
                scan_end,
                Some(last),
                gap,
            );
            found is Some && found->0 >= last && (found->0 <= scan_end || found->0 == last)
        }),
    decreases scan_end - y,
{
    if y < scan_end {
        if shows_something(analysis, counts, left, right, y) {
            lemma_rows_only_go_down(
                analysis,
                counts,
                left,
                right,
                y + 1,
                scan_end,
                (y + 1) as u32,
                0,
            );
        } else {
            lemma_rows_only_go_down(
                analysis,
                counts,
                left,
                right,
                y + 1,
                scan_end,
                last,
                gap + 1,
            );
        }
    }
}

/// A rectangle of the small copy is enlarged to the smallest one of whole pixels of the picture
/// that holds all of it.
pub proof fn law_enlarged_rectangles_are_tight(
    rect: PixelRect,
    picture: Pixels,
    analysis: Analysis,
)
    requires
        0 < rect.width,
        0 < rect.height,
        rect.x + rect.width <= analysis.width <= u32::MAX,
        rect.y + rect.height <= analysis.height <= u32::MAX,
        picture.width > 0,
        picture.height > 0,
    ensures
        ({
            let large = enlarged(rect, picture, analysis);
            let w = analysis.width;
            let h = analysis.height;
            &&& large.x * w <= rect.x * picture.width < (large.x + 1) * w
            &&& large.y * h <= rect.y * picture.height < (large.y + 1) * h
            &&& (large.x + large.width - 1) * w < (rect.x + rect.width) * picture.width <= (large.x
                + large.width) * w
            &&& (large.y + large.height - 1) * h < (rect.y + rect.height) * picture.height
                <= (large.y + large.height) * h
        }),
{
    let pw = picture.width as int;
    let ph = picture.height as int;
    law_scaling_keeps_the_ratio(rect.x as int, pw, analysis.width);
    law_scaling_keeps_the_ratio(rect.x + rect.width, pw, analysis.width);
    law_scaling_keeps_the_ratio(rect.y as int, ph, analysis.height);
    law_scaling_keeps_the_ratio(rect.y + rect.height, ph, analysis.height);
    lemma_spans_stay_open(rect.x as int, rect.x + rect.width, pw, analysis.width);
    lemma_spans_stay_open(rect.y as int, rect.y + rect.height, ph, analysis.height);
}

proof fn lemma_peak_of_equal_entries(values: Seq<Single>, first: nat, value: nat)
    requires
        first <= values.len(),
        value < 0x1_0000,
        forall|k: int| 0 <= k < values.len() ==> #[trigger] values[k] == whole(value),
    ensures
        first > 0 ==> peak(values, first) == whole(value),
        first == 0 ==> peak(values, first) == zero(),
    decreases first,
{
    if first > 0 {
        lemma_peak_of_equal_entries(values, (first - 1) as nat, value);
        law_small_integers_are_kept(0);
        law_small_integers_are_kept(value as int);
        law_small_integers_are_in_order(0, value as int);
        law_small_integers_are_in_order(value as int, value as int);
        assert(values[first - 1] == whole(value));
    }
}

/// A profile whose lines are all alike, three tenths full or more, is one run from its first
/// line to its last.
pub proof fn law_even_profiles_are_one_run(
    values: Seq<Single>,
    value: nat,
    denominator: nat,
    factor: nat,
    shortest: int,
)
    requires
        0 < values.len() <= MOST_SMALL_ROWS,
        0 < denominator < 0x1_0000,
        value <= denominator,
        value * 10 >= denominator * 3,
        factor <= 100,
        shortest <= values.len(),
        forall|k: int| 0 <= k < values.len() ==> #[trigger] values[k] == whole(value),
    ensures
        ({
            let run = profile_run(values, denominator, factor, shortest);
            &&& run is Some
            &&& run->0.start == 0
            &&& run->0.end == values.len()
        }),
{
    lemma_peak_of_equal_entries(values, values.len(), value);
    let top = whole(value).over(whole(denominator));
    assert(top == fraction(value, denominator));
    law_larger_shares_reach_smaller_ones(25, 100, value, denominator);
    law_larger_shares_reach_smaller_ones(30, 100, value, denominator);
    assert(!top.less(fraction(25, 100)));
    let part = fraction(factor, 100);
    let one = whole(1);
    lemma_fractions_are_modest(value, denominator);
    lemma_fractions_are_modest(factor, 100);
    lemma_fractions_are_modest(30, 100);
    lemma_fractions_are_modest(78, 100);
    lemma_naturals_are_modest(1);
    law_whole_share_is_one(100);
    law_larger_shares_reach_smaller_ones(factor, 100, 100, 100);
    law_fractions_are_not_negative(value, denominator);
    law_multiplying_keeps_the_order(one, part, top);
    law_operations_commute(one, top);
    law_operations_commute(part, top);
    law_numbers_cancel(top);
    let scaled = top.times(part);
    assert(top.at_least(scaled));
    let low = fraction(30, 100);
    let high = fraction(78, 100);
    let threshold = scaled.held(low, high);
    lemma_canonical_is_kept(scaled);
    lemma_canonical_is_kept(low);
    lemma_canonical_is_kept(high);
    let raised = scaled.larger(low);
    assert(raised == scaled || raised == low);
    law_the_smaller_is_above_neither(raised, high);
    lemma_canonical_is_kept(raised);
    assert(top.at_least(raised));
    assert(raised.at_least(threshold));
    law_order_is_transitive(top, raised, threshold);
    let dense = dense_lines(values, denominator, threshold);
    let flags = closed_lines(dense);
    assert forall|k: int| 0 <= k < flags.len() implies #[trigger] flags[k] by {
        law_dense_lines_reach_the_threshold(values, denominator, threshold, k);
        assert(values[k] == whole(value));
    }
    let length = values.len() as int;
    law_the_next_flag_is_the_first(flags, 0, true);
    law_the_next_flag_is_the_first(flags, 0, false);
    assert(next_flag(flags, 0, true) == 0) by {
        assert(flags[0]);
    }
    let end = next_flag(flags, 0, false);
    assert(end == length);
    law_the_next_flag_is_the_first(flags, length, true);
    reveal_with_fuel(best_run_from, 3);
    assert(best_run_from(values, flags, denominator, shortest, 0, None) is Some);
}

/// Where everything stands out, the columns and the rows of the content are all there are,
/// and nothing is taken for shared content: it never fills the whole picture.
pub proof fn law_everything_shows_everything(picture: Pixels, analysis: Analysis)
    requires
        8 <= analysis.width <= MOST_SMALL_ROWS,
        8 <= analysis.height <= MOST_SMALL_ROWS,
        forall|x: int, y: int|
            0 <= x < analysis.width && 0 <= y < analysis.height ==> #[trigger] analysis.on(x, y),
    ensures
        content_columns(analysis) is Some,
        content_columns(analysis)->0.start == 0,
        content_columns(analysis)->0.end == analysis.width,
        content_rows(analysis, content_columns(analysis)->0) is Some,
        content_rows(analysis, content_columns(analysis)->0)->0.start == 0,
        content_rows(analysis, content_columns(analysis)->0)->0.end == analysis.height,
        projected_content(picture, analysis) is None,
{
    let width = analysis.width as int;
    let height = analysis.height as int;
    let counts = column_profile(analysis);
    assert forall|k: int| 0 <= k < counts.len() implies #[trigger] counts[k] == height as u32 by {
        law_active_cells_are_counted(analysis, k, 0, height as nat);
    }
    let values = smoothed(counts, 2);
    assert forall|k: int| 0 <= k < values.len() implies #[trigger] values[k] == whole(
        height as nat,
    ) by {
        law_smoothing_keeps_equal_entries(counts, 2, k, height as u32);
    }
    law_even_profiles_are_one_run(
        values,
        height as nat,
        height as nat,
        72,
        max_int(width / 8, 3),
    );
    let columns = content_columns(analysis)->0;
    let rows = row_profile(analysis, 0, width);
    assert forall|k: int| 0 <= k < rows.len() implies #[trigger] rows[k] == width as u32 by {
        law_active_cells_are_counted(analysis, k, 0, width as nat);
        assert forall|i: int| 0 <= i < width implies #[trigger] analysis.on(0 + i, k) by {}
    }
    let means = smoothed(rows, 1);
    assert forall|k: int| 0 <= k < means.len() implies #[trigger] means[k] == whole(
        width as nat,
    ) by {
        law_smoothing_keeps_equal_entries(rows, 1, k, width as u32);
    }
    law_even_profiles_are_one_run(
        means,
        width as nat,
        width as nat,
        70,
        max_int(height / 8, 3),
    );
    let found = content_rows(analysis, columns)->0;
    let area = content_area(columns, found);
    assert(area.pixel_count() == width * height);
    assert(0 < width * height < 0x100_0000 + 1) by (nonlinear_arith)
        requires
            8 <= width <= 4096,
            8 <= height <= 4096,
    ;
    law_whole_share_is_one((width * height) as nat);
    law_whole_share_is_one(100);
    law_shares_are_compared_by_their_parts(97, 100, 100);
}

/// The denser its columns and its rows are, and the fuller the area that they enclose, the
/// surer a projection is.
pub proof fn law_dense_projections_are_surer(
    analysis: Analysis,
    other: Analysis,
    columns: DenseRun,
    rows: DenseRun,
    fewer_columns: DenseRun,
    fewer_rows: DenseRun,
)
    requires
        analysis.width == other.width,
        analysis.height == other.height,
        0 < analysis.width * analysis.height < 0x100_0000,
        columns.start == fewer_columns.start && columns.end == fewer_columns.end,
        rows.start == fewer_rows.start && rows.end == fewer_rows.end,
        0 < content_area(columns, rows).pixel_count() < 0x100_0000,
        filled(analysis, content_area(columns, rows)).at_least(
            filled(other, content_area(columns, rows)),
        ),
        is_modest(columns.mean_ratio, 0x100),
        is_modest(rows.mean_ratio, 0x100),
        is_modest(fewer_columns.mean_ratio, 0x100),
        is_modest(fewer_rows.mean_ratio, 0x100),
        columns.mean_ratio.at_least(fewer_columns.mean_ratio),
        rows.mean_ratio.at_least(fewer_rows.mean_ratio),
    ensures
        projection_confidence(analysis, columns, rows).at_least(
            projection_confidence(other, fewer_columns, fewer_rows),
        ),
{
    let area = content_area(columns, rows);
    assert(content_area(fewer_columns, fewer_rows) == area);
    let part = area.pixel_count() as nat;
    let all = (analysis.width * analysis.height) as nat;
    law_areas_are_counted_row_by_row(
        analysis,
        area.x as int,
        area.y as int,
        area.width as nat,
        area.height as nat,
    );
    law_areas_are_counted_row_by_row(
        other,
        area.x as int,
        area.y as int,
        area.width as nat,
        area.height as nat,
    );
    let full = filled(analysis, area);
    let thin = filled(other, area);
    lemma_fractions_are_modest(
        area_active(
            analysis,
            area.x as int,
            area.y as int,
            area.width as nat,
            area.height as nat,
        ),
        part,
    );
    lemma_fractions_are_modest(
        area_active(
            other,
            area.x as int,
            area.y as int,
            area.width as nat,
            area.height as nat,
        ),
        part,
    );
    let base = fraction(50, 100);
    lemma_fractions_are_modest(50, 100);
    lemma_fractions_are_modest(55, 100);
    lemma_fractions_are_modest(part, all);
    let share = area_share(analysis, area).over(fraction(55, 100));
    lemma_results_are_modest(area_share(analysis, area), fraction(55, 100), 64);
    law_parts_count_with_their_weight(full, thin, 20);
    law_parts_count_with_their_weight(rows.mean_ratio, fewer_rows.mean_ratio, 10);
    law_parts_count_with_their_weight(columns.mean_ratio, fewer_columns.mean_ratio, 12);
    lemma_parts_are_modest(full, 20);
    lemma_parts_are_modest(thin, 20);
    lemma_parts_are_modest(rows.mean_ratio, 10);
    lemma_parts_are_modest(fewer_rows.mean_ratio, 10);
    lemma_parts_are_modest(columns.mean_ratio, 12);
    lemma_parts_are_modest(fewer_columns.mean_ratio, 12);
    lemma_parts_are_modest(share, 8);
    law_order_is_total(base, base);
    lemma_sums_keep_the_order(base, base, weighted(full, 20), weighted(thin, 20), 0x400);
    let a = base.plus(weighted(full, 20));
    let b = base.plus(weighted(thin, 20));
    lemma_sums_keep_the_order(
        a,
        b,
        weighted(rows.mean_ratio, 10),
        weighted(fewer_rows.mean_ratio, 10),
        0x430,
    );
    let c = a.plus(weighted(rows.mean_ratio, 10));
    let d = b.plus(weighted(fewer_rows.mean_ratio, 10));
    lemma_sums_keep_the_order(
        c,
        d,
        weighted(columns.mean_ratio, 12),
        weighted(fewer_columns.mean_ratio, 12),
        0x460,
    );
    law_order_is_total(weighted(share, 8), weighted(share, 8));
    lemma_sums_keep_the_order(
        c.plus(weighted(columns.mean_ratio, 12)),
        d.plus(weighted(fewer_columns.mean_ratio, 12)),
        weighted(share, 8),
        weighted(share, 8),
        0x490,
    );
}

proof fn lemma_parts_are_modest(number: Single, weight: nat)
    requires
        is_modest(number, 0x100),
        weight <= 100,
    ensures
        is_modest(weighted(number, weight), 0x400),
{
    lemma_naturals_are_modest(1);
    lemma_fractions_are_modest(weight, 100);
    lemma_results_are_modest(number, whole(1), 0x100);
    lemma_results_are_modest(number.smaller(whole(1)), fraction(weight, 100), 0x100);
}

proof fn lemma_sums_keep_the_order(
    large: Single,
    small: Single,
    more: Single,
    less: Single,
    bound: int,
)
    requires
        0 <= bound <= 0x1000,
        is_modest(large, bound),
        is_modest(small, bound),
        is_modest(more, bound),
        is_modest(less, bound),
        large.at_least(small),
        more.at_least(less),
    ensures
        large.plus(more).at_least(small.plus(less)),
        is_modest(large.plus(more), bound + 48),
        is_modest(small.plus(less), bound + 48),
{
    law_adding_keeps_the_order(large, small, more);
    law_adding_keeps_the_order(more, less, small);
    law_order_is_transitive(large.plus(more), small.plus(more), small.plus(less));
    lemma_sums_are_modest(large, more, bound);
    lemma_sums_are_modest(small, less, bound);
}

} // verus!
