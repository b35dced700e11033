//! The three-tone line with which Teams parts the participants from the shared content.

use vstd::prelude::*;

use crate::detector::color::PixelTest;
use crate::detector::margins::{along_length, along_start, depth};
use crate::detector::picture::{Axis, Picture, Pixels};
use crate::detector::projection::{between, is_between, total_of};
use crate::detector::sampling::{
    area_hits, count_area, count_line, law_areas_count_their_rows, law_lines_count_what_passes,
    law_samples_cover_the_stretch, lemma_few_samples, lemma_sample_on_stretch, line_hits,
    sample_count, sampled_columns, sampled_rows, step_for,
};
use crate::geometry::PixelRect;
use crate::numeric::{clamp_int, clamp_u32, max_int, max_u32, min_int, min_u32};
use crate::single::{
    fraction, from_int, is_modest, law_adding_keeps_the_order, law_dividing_keeps_the_order,
    law_fractions_are_not_negative, law_held_numbers_are_in_range, law_holding_keeps_the_order,
    law_multiplying_keeps_the_order, law_numbers_cancel, law_operations_commute, law_order_is_total,
    law_order_is_transitive, law_order_of_zero, law_shares_are_compared_by_their_parts,
    law_small_integers_add, law_small_integers_are_in_order, law_small_integers_are_kept,
    law_small_integers_divide, law_taking_less_leaves_more, law_the_smaller_is_above_neither,
    law_whole_share_is_one, lemma_canonical_is_kept, lemma_equal_order_is_equal,
    lemma_fraction_is_positive, lemma_fraction_of_nothing, lemma_fractions_are_modest,
    lemma_naturals_are_modest, lemma_results_are_modest, lemma_sums_are_modest,
    lemma_sums_are_not_negative, lemma_zero_is_modest, ratio, whole, zero, Single,
};

verus! {

/// Grays of a separator: two outer lines and one between them.
#[derive(Clone, Copy, Debug, PartialEq, Eq, Structural)]
pub struct BorderPalette {
    pub outer: u8,
    pub inner: u8,
}

impl BorderPalette {
    /// The palettes of the separators: that on light backgrounds first, then that on dark
    /// ones.
    pub open spec fn numbered(index: int) -> BorderPalette {
        if index == 0 {
            BorderPalette { outer: 0x72, inner: 0x60 }
        } else {
            BorderPalette { outer: 0xa8, inner: 0x9b }
        }
    }

    pub fn by_number(index: u64) -> (result: BorderPalette)
        ensures
            result == Self::numbered(index as int),
    {
        if index == 0 {
            BorderPalette { outer: 0x72, inner: 0x60 }
        } else {
            BorderPalette { outer: 0xa8, inner: 0x9b }
        }
    }
}

/// Where the separator stands.
#[derive(Clone, Copy, Debug, PartialEq, Eq, Structural)]
pub enum SeparatorSide {
    Left,
    Right,
    Top,
}

/// A separator, from line `start` to before line `end`.
#[derive(Clone, Copy, Debug, PartialEq, Eq, Structural)]
pub struct Separator {
    pub start: u32,
    pub end: u32,
    pub score: Single,
    pub side: SeparatorSide,
}

/// First line of a rectangle.
pub open spec fn first_line(rect: PixelRect, axis: Axis) -> int {
    match axis {
        Axis::Horizontal => rect.y as int,
        Axis::Vertical => rect.x as int,
    }
}

/// Share of a line that has nearly the given gray. The ends of the line do not count.
pub open spec fn band_ratio(
    picture: Pixels,
    rect: PixelRect,
    axis: Axis,
    position: int,
    gray: u8,
) -> Single {
    let length = along_length(rect, axis);
    let margin = max_int(length / 20, 2);
    let start = along_start(rect, axis) + margin;
    let span = length - 2 * margin;
    let step = step_for(span, 192);
    let samples = sample_count(span, step);
    if span <= 0 {
        zero()
    } else {
        fraction(
            line_hits(
                picture,
                axis,
                position,
                start,
                step,
                samples,
                PixelTest::Gray { target: gray, tolerance: 10 },
            ),
            samples,
        )
    }
}

/// Measures how much of a line has nearly the given gray.
pub fn band_match_ratio(
    picture: &Picture,
    rect: PixelRect,
    axis: Axis,
    position: u32,
    gray: u8,
) -> (result: Single)
    requires
        picture.well_formed(),
        picture@.holds(rect),
        picture@.has_line(axis, position as int, 0),
    ensures
        result == band_ratio(picture@, rect, axis, position as int, gray),
{
    let (first, length): (u32, u32) = match axis {
        Axis::Horizontal => (rect.x, rect.width),
        Axis::Vertical => (rect.y, rect.height),
    };
    let margin: u32 = max_u32(length / 20, 2);
    if length <= 2 * margin {
        return from_int(0);
    }
    let start: u32 = first + margin;
    let end: u32 = first + (length - margin);
    let step: u32 = max_u32((end - start) / 192, 1);
    let (samples, hits): (u32, u32) = count_line(
        picture,
        axis,
        position,
        start,
        end,
        step,
        PixelTest::Gray { target: gray, tolerance: 10 },
    );
    ratio(hits as u64, samples as u64)
}

/// The larger share of the two grays of a palette.
pub open spec fn palette_ratio(
    picture: Pixels,
    rect: PixelRect,
    axis: Axis,
    position: int,
    palette: BorderPalette,
) -> Single {
    band_ratio(picture, rect, axis, position, palette.outer).larger(
        band_ratio(picture, rect, axis, position, palette.inner),
    )
}

/// First line of a separator, moved back over lines that look like it.
pub open spec fn grown_start(
    picture: Pixels,
    rect: PixelRect,
    axis: Axis,
    palette: BorderPalette,
    start: int,
    steps: nat,
) -> int
    decreases steps,
{
    if steps == 0 || start <= first_line(rect, axis) || palette_ratio(
        picture,
        rect,
        axis,
        start - 1,
        palette,
    ).less(fraction(42, 100)) {
        start
    } else {
        grown_start(picture, rect, axis, palette, start - 1, (steps - 1) as nat)
    }
}

/// Line behind a separator, moved on over lines that look like it.
pub open spec fn grown_end(
    picture: Pixels,
    rect: PixelRect,
    axis: Axis,
    palette: BorderPalette,
    end: int,
    steps: nat,
) -> int
    decreases steps,
{
    if steps == 0 || end >= first_line(rect, axis) + depth(rect, axis) || palette_ratio(
        picture,
        rect,
        axis,
        end,
        palette,
    ).less(fraction(42, 100)) {
        end
    } else {
        grown_end(picture, rect, axis, palette, end + 1, (steps - 1) as nat)
    }
}

fn grow_start(
    picture: &Picture,
    rect: PixelRect,
    axis: Axis,
    palette: BorderPalette,
    start: u32,
    steps: u32,
) -> (result: u32)
    requires
        picture.well_formed(),
        picture@.holds(rect),
        first_line(rect, axis) <= start <= first_line(rect, axis) + depth(rect, axis),
    ensures
        result == grown_start(picture@, rect, axis, palette, start as int, steps as nat),
        first_line(rect, axis) <= result <= start,
{
    let minimum: u32 = match axis {
        Axis::Horizontal => rect.y,
        Axis::Vertical => rect.x,
    };
    let mut at: u32 = start;
    let mut left: u32 = steps;
    let mut more = true;
    while more && left > 0
        invariant
            picture.well_formed(),
            picture@.holds(rect),
            minimum == first_line(rect, axis),
            minimum <= at <= start <= minimum + depth(rect, axis),
            more ==> grown_start(picture@, rect, axis, palette, start as int, steps as nat)
                == grown_start(picture@, rect, axis, palette, at as int, left as nat),
            !more ==> at == grown_start(
                picture@,
                rect,
                axis,
                palette,
                start as int,
                steps as nat,
            ),
        decreases left + if more {
            1int
        } else {
            0int
        },
    {
        if at <= minimum {
            more = false;
        } else {
            let share = band_match_ratio(picture, rect, axis, at - 1, palette.outer).max(
                band_match_ratio(picture, rect, axis, at - 1, palette.inner),
            );
            if share.lt(ratio(42, 100)) {
                more = false;
            } else {
                at -= 1;
                left -= 1;
            }
        }
    }
    at
}

fn grow_end(
    picture: &Picture,
    rect: PixelRect,
    axis: Axis,
    palette: BorderPalette,
    end: u32,
    steps: u32,
) -> (result: u32)
    requires
        picture.well_formed(),
        picture@.holds(rect),
        first_line(rect, axis) <= end <= first_line(rect, axis) + depth(rect, axis),
    ensures
        result == grown_end(picture@, rect, axis, palette, end as int, steps as nat),
        end <= result <= first_line(rect, axis) + depth(rect, axis),
{
    let maximum: u32 = match axis {
        Axis::Horizontal => rect.bottom(),
        Axis::Vertical => rect.right(),
    };
    let mut at: u32 = end;
    let mut left: u32 = steps;
    let mut more = true;
    while more && left > 0
        invariant
            picture.well_formed(),
            picture@.holds(rect),
            maximum == first_line(rect, axis) + depth(rect, axis),
            first_line(rect, axis) <= end <= at <= maximum,
            more ==> grown_end(picture@, rect, axis, palette, end as int, steps as nat)
                == grown_end(picture@, rect, axis, palette, at as int, left as nat),
            !more ==> at == grown_end(picture@, rect, axis, palette, end as int, steps as nat),
        decreases left + if more {
            1int
        } else {
            0int
        },
    {
        if at >= maximum {
            more = false;
        } else {
            let share = band_match_ratio(picture, rect, axis, at, palette.outer).max(
                band_match_ratio(picture, rect, axis, at, palette.inner),
            );
            if share.lt(ratio(42, 100)) {
                more = false;
            } else {
                at += 1;
                left -= 1;
            }
        }
    }
    at
}

/// Where the middle of a separator stands in its rectangle, from zero to one.
pub open spec fn relative_center(rect: PixelRect, axis: Axis, start: int, end: int) -> Single {
    whole(start as nat).plus(whole(end as nat)).over(whole(2)).minus(
        whole(first_line(rect, axis) as nat),
    ).over(whole(depth(rect, axis) as nat))
}

/// The side on which a separator at this place stands. Separators in the middle or at the
/// edge have none.
pub open spec fn side_of(axis: Axis, center: Single) -> Option<SeparatorSide> {
    match axis {
        Axis::Horizontal => if between(center, 4, 48) {
            Some(SeparatorSide::Top)
        } else {
            None
        },
        Axis::Vertical => if between(center, 4, 46) {
            Some(SeparatorSide::Left)
        } else if between(center, 54, 97) {
            Some(SeparatorSide::Right)
        } else {
            None
        },
    }
}

/// How usual the place of a separator is.
pub open spec fn position_score(side: SeparatorSide, center: Single) -> Single {
    match side {
        SeparatorSide::Top => whole(1).minus(
            center.minus(fraction(24, 100)).absolute().smaller(fraction(24, 100)),
        ),
        SeparatorSide::Left => fraction(72, 100).plus(
            fraction(46, 100).minus(center).times(fraction(25, 100)),
        ),
        SeparatorSide::Right => fraction(72, 100).plus(
            center.minus(fraction(54, 100)).times(fraction(25, 100)),
        ),
    }
}

/// Finds the side of a separator and how usual its place is.
pub fn separator_side(rect: PixelRect, axis: Axis, start: u32, end: u32) -> (result: Option<
    (SeparatorSide, Single),
>)
    ensures
        ({
            let center = relative_center(rect, axis, start as int, end as int);
            match side_of(axis, center) {
                Some(side) => result == Some((side, position_score(side, center))),
                None => result is None,
            }
        }),
{
    let (first, lines): (u32, u32) = match axis {
        Axis::Horizontal => (rect.y, rect.height),
        Axis::Vertical => (rect.x, rect.width),
    };
    let center = from_int(start as u64).add(from_int(end as u64)).div(from_int(2)).sub(
        from_int(first as u64),
    ).div(from_int(lines as u64));
    match axis {
        Axis::Horizontal => if is_between(center, 4, 48) {
            let score = from_int(1).sub(center.sub(ratio(24, 100)).abs().min(ratio(24, 100)));
            Some((SeparatorSide::Top, score))
        } else {
            None
        },
        Axis::Vertical => if is_between(center, 4, 46) {
            let score = ratio(72, 100).add(ratio(46, 100).sub(center).mul(ratio(25, 100)));
            Some((SeparatorSide::Left, score))
        } else if is_between(center, 54, 97) {
            let score = ratio(72, 100).add(center.sub(ratio(54, 100)).mul(ratio(25, 100)));
            Some((SeparatorSide::Right, score))
        } else {
            None
        },
    }
}

/// The part of a rectangle that a separator cuts off.
pub open spec fn outside_area(
    rect: PixelRect,
    side: SeparatorSide,
    start: int,
    end: int,
) -> PixelRect {
    match side {
        SeparatorSide::Top => PixelRect {
            x: rect.x,
            y: rect.y,
            width: rect.width,
            height: (start - rect.y) as u32,
        },
        SeparatorSide::Left => PixelRect {
            x: rect.x,
            y: rect.y,
            width: (start - rect.x) as u32,
            height: rect.height,
        },
        SeparatorSide::Right => PixelRect {
            x: end as u32,
            y: rect.y,
            width: (rect.x + rect.width - end) as u32,
            height: rect.height,
        },
    }
}

/// How much of the part that is cut off has a background of Teams.
pub open spec fn outside_score(picture: Pixels, outside: PixelRect) -> Single {
    let step_x = step_for(outside.width as int, 96);
    let step_y = step_for(outside.height as int, 96);
    let columns = sampled_columns(picture, outside, step_x);
    let rows = sampled_rows(picture, outside, step_y);
    if columns * rows == 0 {
        zero()
    } else {
        fraction(
            area_hits(
                picture,
                outside.x as int,
                outside.y as int,
                step_x,
                step_y,
                columns,
                rows,
                PixelTest::KnownGray { tolerance: 24 },
            ),
            columns * rows,
        ).over(fraction(28, 100)).smaller(whole(1))
    }
}

/// Measures how much of the part that is cut off has a background of Teams.
pub fn outside_background_ratio(picture: &Picture, outside: PixelRect) -> (result: Single)
    requires
        picture.well_formed(),
    ensures
        result == outside_score(picture@, outside),
{
    let step_x: u32 = max_u32(outside.width / 96, 1);
    let step_y: u32 = max_u32(outside.height / 96, 1);
    let (samples, hits): (u64, u64) = count_area(
        picture,
        outside,
        step_x,
        step_y,
        PixelTest::KnownGray { tolerance: 24 },
    );
    if samples == 0 {
        from_int(0)
    } else {
        ratio(hits, samples).div(ratio(28, 100)).min(from_int(1))
    }
}

/// A place for a separator: a palette, a first line, and the widths of the three tones.
#[derive(Clone, Copy, Debug, PartialEq, Eq, Structural)]
pub struct Shape {
    pub palette: BorderPalette,
    pub start: u32,
    pub outer: u32,
    pub middle: u32,
    pub trailing: u32,
}

impl Shape {
    /// Line behind the shape.
    pub open spec fn end(self) -> int {
        self.start + self.outer + self.middle + self.trailing
    }
}

/// Widest tone of a separator.
pub open spec fn widest_tone(rect: PixelRect, axis: Axis) -> int {
    clamp_int(depth(rect, axis) / 360, 1, 6)
}

/// First line where a separator can begin.
pub open spec fn search_start(rect: PixelRect, axis: Axis) -> int {
    first_line(rect, axis) + max_int(depth(rect, axis) / 40, 2)
}

/// Line behind the last one that a separator can take.
pub open spec fn search_end(rect: PixelRect, axis: Axis) -> int {
    let last = max_int(first_line(rect, axis) + depth(rect, axis) - 3, 0);
    match axis {
        Axis::Horizontal => min_int(rect.y + rect.height * 48 / 100, last),
        Axis::Vertical => last,
    }
}

/// The places for a separator in their order: by palette, first line and widths.
#[verifier::opaque]
pub open spec fn nth_shape(rect: PixelRect, axis: Axis, number: int) -> Shape {
    let widest = widest_tone(rect, axis);
    let first = search_start(rect, axis);
    let length = search_end(rect, axis) - first;
    let outer_number = number / widest / widest;
    let start_number = outer_number / widest;
    Shape {
        palette: BorderPalette::numbered(start_number / length),
        start: (first + start_number % length) as u32,
        outer: (outer_number % widest + 1) as u32,
        middle: (number / widest % widest + 1) as u32,
        trailing: (number % widest + 1) as u32,
    }
}

/// Mean share of lines that have nearly the given gray.
pub open spec fn band_average(
    picture: Pixels,
    rect: PixelRect,
    axis: Axis,
    gray: u8,
    start: int,
    lines: int,
) -> Single {
    total_of(
        Seq::new(lines as nat, |k: int| band_ratio(picture, rect, axis, start + k, gray)),
        0,
        lines,
    ).over(whole(lines as nat))
}

/// The three tones are there: the shares of the outer, the middle and the other outer one.
pub open spec fn has_tones(first: Single, middle: Single, second: Single) -> bool {
    &&& first.at_least(fraction(48, 100))
    &&& middle.at_least(fraction(44, 100))
    &&& second.at_least(fraction(34, 100))
}

/// How sure a separator is.
pub open spec fn separator_score(
    first: Single,
    middle: Single,
    second: Single,
    position: Single,
    outside: Single,
) -> Single {
    let continuity = first.plus(middle).plus(second).over(whole(3));
    let shape = first.smaller(second).times(fraction(55, 100)).plus(
        middle.times(fraction(45, 100)),
    );
    continuity.times(fraction(54, 100)).plus(shape.times(fraction(18, 100))).plus(
        position.times(fraction(16, 100)),
    ).plus(outside.times(fraction(12, 100))).held(zero(), whole(1))
}

/// The separator at a place whose tones have the given shares.
pub open spec fn rated_separator(
    picture: Pixels,
    rect: PixelRect,
    axis: Axis,
    shape: Shape,
    first: Single,
    middle: Single,
    second: Single,
) -> Option<Separator> {
    let steps = (widest_tone(rect, axis) * 3) as nat;
    let start = grown_start(picture, rect, axis, shape.palette, shape.start as int, steps);
    let end = grown_end(picture, rect, axis, shape.palette, shape.end(), steps);
    let center = relative_center(rect, axis, start, end);
    match side_of(axis, center) {
        Some(side) => {
            let score = separator_score(
                first,
                middle,
                second,
                position_score(side, center),
                outside_score(picture, outside_area(rect, side, start, end)),
            );
            if score.less(fraction(62, 100)) {
                None
            } else {
                Some(Separator { start: start as u32, end: end as u32, score, side })
            }
        },
        None => None,
    }
}

/// The separator at a place, if there is one.
#[verifier::opaque]
pub open spec fn separator_at(
    picture: Pixels,
    rect: PixelRect,
    axis: Axis,
    shape: Shape,
) -> Option<Separator> {
    let palette = shape.palette;
    let start = shape.start as int;
    let first = band_average(picture, rect, axis, palette.outer, start, shape.outer as int);
    let middle = band_average(
        picture,
        rect,
        axis,
        palette.inner,
        start + shape.outer,
        shape.middle as int,
    );
    let second = band_average(
        picture,
        rect,
        axis,
        palette.outer,
        start + shape.outer + shape.middle,
        shape.trailing as int,
    );
    if shape.end() > search_end(rect, axis) || !has_tones(first, middle, second) {
        None
    } else {
        rated_separator(picture, rect, axis, shape, first, middle, second)
    }
}

/// The surest separator among the first places, the earliest where several are as sure.
pub open spec fn best_separator(
    picture: Pixels,
    rect: PixelRect,
    axis: Axis,
    places: nat,
) -> Option<Separator>
    decreases places,
{
    if places == 0 {
        None
    } else {
        let best = best_separator(picture, rect, axis, (places - 1) as nat);
        let candidate = separator_at(picture, rect, axis, nth_shape(rect, axis, places - 1));
        if candidate is Some && (best is None || best->0.score.less(candidate->0.score)) {
            candidate
        } else {
            best
        }
    }
}

/// Number of places for a separator.
pub open spec fn place_count(rect: PixelRect, axis: Axis) -> int {
    let widest = widest_tone(rect, axis);
    let length = search_end(rect, axis) - search_start(rect, axis);
    if length <= 0 {
        0
    } else {
        2 * length * (widest * widest * widest)
    }
}

/// The surest separator of a rectangle.
pub open spec fn separator(picture: Pixels, rect: PixelRect, axis: Axis) -> Option<Separator> {
    best_separator(picture, rect, axis, place_count(rect, axis) as nat)
}

/// The shares of a gray on all lines where a separator can stand.
fn band_profile(
    picture: &Picture,
    rect: PixelRect,
    axis: Axis,
    gray: u8,
    first: u32,
    last: u32,
) -> (result: Vec<Single>)
    requires
        picture.well_formed(),
        picture@.holds(rect),
        first_line(rect, axis) <= first <= last <= first_line(rect, axis) + depth(rect, axis),
    ensures
        result@.len() == last - first,
        forall|k: int|
            0 <= k < result@.len() ==> #[trigger] result@[k] == band_ratio(
                picture@,
                rect,
                axis,
                first + k,
                gray,
            ),
{
    let mut profile: Vec<Single> = Vec::new();
    let mut at: u32 = first;
    while at < last
        invariant
            picture.well_formed(),
            picture@.holds(rect),
            first_line(rect, axis) <= first <= at <= last <= first_line(rect, axis) + depth(
                rect,
                axis,
            ),
            profile@.len() == at - first,
            forall|k: int|
                0 <= k < profile@.len() ==> #[trigger] profile@[k] == band_ratio(
                    picture@,
                    rect,
                    axis,
                    first + k,
                    gray,
                ),
        decreases last - at,
    {
        profile.push(band_match_ratio(picture, rect, axis, at, gray));
        at += 1;
    }
    profile
}

proof fn lemma_total_of_part(values: Seq<Single>, part: Seq<Single>, start: int, lines: int)
    requires
        0 <= start,
        0 <= lines <= part.len(),
        start + lines <= values.len(),
        forall|k: int| 0 <= k < part.len() ==> #[trigger] part[k] == values[start + k],
    ensures
        total_of(values, start, start + lines) == total_of(part, 0, lines),
    decreases lines,
{
    if lines > 0 {
        lemma_total_of_part(values, part, start, lines - 1);
        assert(part[lines - 1] == values[start + (lines - 1)]);
    }
}

/// Mean of a stretch of a profile.
fn average_profile(profile: &Vec<Single>, start: usize, lines: u32) -> (result: Single)
    requires
        start + lines <= profile@.len(),
    ensures
        result == total_of(profile@, start as int, start + lines).over(whole(lines as nat)),
{
    let length: usize = profile.len();
    let end: usize = start + lines as usize;
    let mut total = from_int(0);
    let mut k: usize = start;
    while k < end
        invariant
            start <= k <= end <= profile@.len(),
            total == total_of(profile@, start as int, k as int),
        decreases end - k,
    {
        total = total.add(profile[k]);
        k += 1;
    }
    total.div(from_int(lines as u64))
}

/// The profile holds the shares of a gray on the lines from `first` on.
pub open spec fn is_profile(
    profile: Seq<Single>,
    picture: Pixels,
    rect: PixelRect,
    axis: Axis,
    gray: u8,
    first: int,
) -> bool {
    forall|k: int|
        0 <= k < profile.len() ==> #[trigger] profile[k] == band_ratio(
            picture,
            rect,
            axis,
            first + k,
            gray,
        )
}

fn average_band(
    profile: &Vec<Single>,
    Ghost(picture): Ghost<Pixels>,
    rect: PixelRect,
    axis: Axis,
    gray: u8,
    first: u32,
    start: u32,
    lines: u32,
) -> (result: Single)
    requires
        is_profile(profile@, picture, rect, axis, gray, first as int),
        first <= start,
        start + lines <= first + profile@.len(),
    ensures
        result == band_average(picture, rect, axis, gray, start as int, lines as int),
{
    let offset: u32 = start - first;
    proof {
        let part = Seq::new(
            lines as nat,
            |k: int| band_ratio(picture, rect, axis, start + k, gray),
        );
        assert forall|k: int| 0 <= k < part.len() implies #[trigger] part[k] == profile@[offset
            + k] by {
            assert(first + (offset + k) == start + k);
        }
        lemma_total_of_part(profile@, part, offset as int, lines as int);
    }
    average_profile(profile, offset as usize, lines)
}

/// Rates the separator at a place whose tones have the given shares.
fn rate_separator(
    picture: &Picture,
    rect: PixelRect,
    axis: Axis,
    shape: Shape,
    first: Single,
    middle: Single,
    second: Single,
) -> (result: Option<Separator>)
    requires
        picture.well_formed(),
        picture@.holds(rect),
        first_line(rect, axis) <= shape.start,
        shape.end() <= first_line(rect, axis) + depth(rect, axis),
    ensures
        result == rated_separator(picture@, rect, axis, shape, first, middle, second),
{
    let lines: u32 = match axis {
        Axis::Horizontal => rect.height,
        Axis::Vertical => rect.width,
    };
    let steps: u32 = clamp_u32(lines / 360, 1, 6) * 3;
    let shape_end: u32 = shape.start + shape.outer + shape.middle + shape.trailing;
    let start: u32 = grow_start(picture, rect, axis, shape.palette, shape.start, steps);
    let end: u32 = grow_end(picture, rect, axis, shape.palette, shape_end, steps);
    let (side, position) = match separator_side(rect, axis, start, end) {
        Some(place) => place,
        None => return None,
    };
    let outside = match side {
        SeparatorSide::Top => PixelRect::new(rect.x, rect.y, rect.width, start - rect.y),
        SeparatorSide::Left => PixelRect::new(rect.x, rect.y, start - rect.x, rect.height),
        SeparatorSide::Right => PixelRect::new(end, rect.y, rect.right() - end, rect.height),
    };
    let outside_part = outside_background_ratio(picture, outside);
    let continuity = first.add(middle).add(second).div(from_int(3));
    let form = first.min(second).mul(ratio(55, 100)).add(middle.mul(ratio(45, 100)));
    let score = continuity.mul(ratio(54, 100)).add(form.mul(ratio(18, 100))).add(
        position.mul(ratio(16, 100)),
    ).add(outside_part.mul(ratio(12, 100))).clamp(from_int(0), from_int(1));
    if score.lt(ratio(62, 100)) {
        None
    } else {
        Some(Separator { start, end, score, side })
    }
}

fn examine_shape(
    picture: &Picture,
    rect: PixelRect,
    axis: Axis,
    shape: Shape,
    outer: &Vec<Single>,
    inner: &Vec<Single>,
    first: u32,
    last: u32,
) -> (result: Option<Separator>)
    requires
        picture.well_formed(),
        picture@.holds(rect),
        first_line(rect, axis) <= first <= shape.start,
        last <= first_line(rect, axis) + depth(rect, axis),
        last == search_end(rect, axis),
        outer@.len() == last - first,
        inner@.len() == last - first,
        shape.start < last,
        shape.outer <= 6,
        shape.middle <= 6,
        shape.trailing <= 6,
        is_profile(outer@, picture@, rect, axis, shape.palette.outer, first as int),
        is_profile(inner@, picture@, rect, axis, shape.palette.inner, first as int),
    ensures
        result == separator_at(picture@, rect, axis, shape),
{
    reveal(separator_at);
    if shape.start as u64 + shape.outer as u64 + shape.middle as u64 + shape.trailing as u64
        > last as u64 {
        return None;
    }
    let pixels: Ghost<Pixels> = Ghost(picture@);
    let middle_start: u32 = shape.start + shape.outer;
    let second_start: u32 = middle_start + shape.middle;
    let palette = shape.palette;
    let first_outer = average_band(
        outer,
        pixels,
        rect,
        axis,
        palette.outer,
        first,
        shape.start,
        shape.outer,
    );
    if first_outer.lt(ratio(48, 100)) {
        return None;
    }
    let middle = average_band(
        inner,
        pixels,
        rect,
        axis,
        palette.inner,
        first,
        middle_start,
        shape.middle,
    );
    if middle.lt(ratio(44, 100)) {
        return None;
    }
    let second_outer = average_band(
        outer,
        pixels,
        rect,
        axis,
        palette.outer,
        first,
        second_start,
        shape.trailing,
    );
    if second_outer.lt(ratio(34, 100)) {
        return None;
    }
    rate_separator(picture, rect, axis, shape, first_outer, middle, second_outer)
}

/// Reads a place for a separator from its number, and whether its palette is the first one.
fn read_shape(
    rect: PixelRect,
    axis: Axis,
    number: u64,
    widest: u64,
    first: u32,
    length: u64,
) -> (result: (Shape, bool))
    requires
        widest == widest_tone(rect, axis),
        first == search_start(rect, axis),
        length == search_end(rect, axis) - first,
        0 < length,
        first + length <= u32::MAX,
    ensures
        result.0 == nth_shape(rect, axis, number as int),
        first <= result.0.start < first + length,
        result.0.outer <= 6,
        result.0.middle <= 6,
        result.0.trailing <= 6,
        result.0.palette == BorderPalette::numbered(
            if result.1 {
                0
            } else {
                1
            },
        ),
{
    reveal(nth_shape);
    let outer_number: u64 = number / widest / widest;
    let start_number: u64 = outer_number / widest;
    let palette_number: u64 = start_number / length;
    let shape = Shape {
        palette: BorderPalette::by_number(palette_number),
        start: first + (start_number % length) as u32,
        outer: (outer_number % widest) as u32 + 1,
        middle: (number / widest % widest) as u32 + 1,
        trailing: (number % widest) as u32 + 1,
    };
    (shape, palette_number == 0)
}

/// Looks for the surest separator of a rectangle.
pub fn detect_separator(picture: &Picture, rect: PixelRect, axis: Axis) -> (result: Option<
    Separator,
>)
    requires
        picture.well_formed(),
        picture@.holds(rect),
    ensures
        result == separator(picture@, rect, axis),
{
    let (base, lines): (u32, u32) = match axis {
        Axis::Horizontal => (rect.y, rect.height),
        Axis::Vertical => (rect.x, rect.width),
    };
    let widest: u64 = clamp_u32(lines / 360, 1, 6) as u64;
    let first: u64 = base as u64 + max_u32(lines / 40, 2) as u64;
    let behind: u32 = (base + lines).saturating_sub(3);
    let last: u32 = match axis {
        Axis::Horizontal => min_u32(
            rect.y + (rect.height as u64 * 48 / 100) as u32,
            behind,
        ),
        Axis::Vertical => behind,
    };
    if last as u64 <= first {
        return None;
    }
    let first: u32 = first as u32;
    let length: u64 = (last - first) as u64;
    let light = BorderPalette::by_number(0);
    let dark = BorderPalette::by_number(1);
    let light_outer = band_profile(picture, rect, axis, light.outer, first, last);
    let light_inner = band_profile(picture, rect, axis, light.inner, first, last);
    let dark_outer = band_profile(picture, rect, axis, dark.outer, first, last);
    let dark_inner = band_profile(picture, rect, axis, dark.inner, first, last);
    proof {
        lemma_place_count(length as int, widest as int);
    }
    let places: u64 = 2 * length * (widest * widest * widest);
    let mut best: Option<Separator> = None;
    let mut number: u64 = 0;
    while number < places
        invariant
            picture.well_formed(),
            picture@.holds(rect),
            widest == widest_tone(rect, axis),
            first == search_start(rect, axis),
            last == search_end(rect, axis),
            first_line(rect, axis) <= first < last <= first_line(rect, axis) + depth(rect, axis),
            1 <= widest <= 6,
            length == last - first,
            light == BorderPalette::numbered(0),
            dark == BorderPalette::numbered(1),
            light_outer@.len() == length,
            light_inner@.len() == length,
            dark_outer@.len() == length,
            dark_inner@.len() == length,
            is_profile(light_outer@, picture@, rect, axis, light.outer, first as int),
            is_profile(light_inner@, picture@, rect, axis, light.inner, first as int),
            is_profile(dark_outer@, picture@, rect, axis, dark.outer, first as int),
            is_profile(dark_inner@, picture@, rect, axis, dark.inner, first as int),
            number <= places,
            best == best_separator(picture@, rect, axis, number as nat),
        decreases places - number,
    {
        let (shape, is_light) = read_shape(rect, axis, number, widest, first, length);
        let candidate = if is_light {
            examine_shape(picture, rect, axis, shape, &light_outer, &light_inner, first, last)
        } else {
            examine_shape(picture, rect, axis, shape, &dark_outer, &dark_inner, first, last)
        };
        match candidate {
            Some(found) => {
                let better = match &best {
                    Some(current) => current.score.lt(found.score),
                    None => true,
                };
                if better {
                    best = Some(found);
                }
            },
            None => {},
        }
        number += 1;
    }
    best
}

proof fn lemma_place_count(length: int, widest: int)
    requires
        0 < length <= u32::MAX,
        1 <= widest <= 6,
    ensures
        0 < widest * widest <= 36,
        0 < widest * widest * widest <= 216,
        0 < 2 * length * (widest * widest * widest) <= 2 * u32::MAX * 216,
{
    assert(0 < widest * widest <= 36) by (nonlinear_arith)
        requires
            1 <= widest <= 6,
    ;
    let square = widest * widest;
    assert(0 < square * widest <= 216) by (nonlinear_arith)
        requires
            1 <= widest <= 6,
            0 < square <= 36,
    ;
    let cube = square * widest;
    let double = 2 * length;
    assert(0 < double * cube <= (2 * u32::MAX) * 216) by (nonlinear_arith)
        requires
            0 < double <= 2 * u32::MAX,
            0 < cube <= 216,
    ;
}

proof fn lemma_grown_bounds(
    picture: Pixels,
    rect: PixelRect,
    axis: Axis,
    palette: BorderPalette,
    at: int,
    steps: nat,
)
    requires
        first_line(rect, axis) <= at <= first_line(rect, axis) + depth(rect, axis),
    ensures
        first_line(rect, axis) <= grown_start(picture, rect, axis, palette, at, steps) <= at,
        at <= grown_end(picture, rect, axis, palette, at, steps) <= first_line(rect, axis) + depth(
            rect,
            axis,
        ),
    decreases steps,
{
    if steps > 0 {
        if at > first_line(rect, axis) {
            lemma_grown_bounds(picture, rect, axis, palette, at - 1, (steps - 1) as nat);
        }
        if at < first_line(rect, axis) + depth(rect, axis) {
            lemma_grown_bounds(picture, rect, axis, palette, at + 1, (steps - 1) as nat);
        }
    }
}

/// The separator lies inside the rectangle.
pub open spec fn is_inside(line: Separator, rect: PixelRect, axis: Axis) -> bool {
    first_line(rect, axis) <= line.start < line.end <= first_line(rect, axis) + depth(rect, axis)
}

proof fn lemma_separator_at(picture: Pixels, rect: PixelRect, axis: Axis, number: int)
    requires
        picture.holds(rect),
        0 <= number,
        search_start(rect, axis) < search_end(rect, axis),
        separator_at(picture, rect, axis, nth_shape(rect, axis, number)) is Some,
    ensures
        is_inside(
            separator_at(picture, rect, axis, nth_shape(rect, axis, number))->0,
            rect,
            axis,
        ),
{
    reveal(separator_at);
    reveal(nth_shape);
    let shape = nth_shape(rect, axis, number);
    let widest = widest_tone(rect, axis);
    let length = search_end(rect, axis) - search_start(rect, axis);
    let start_number = number / widest / widest / widest;
    vstd::arithmetic::div_mod::lemma_mod_bound(start_number, length);
    vstd::arithmetic::div_mod::lemma_mod_bound(number / widest / widest, widest);
    vstd::arithmetic::div_mod::lemma_mod_bound(number / widest, widest);
    vstd::arithmetic::div_mod::lemma_mod_bound(number, widest);
    let steps = (widest * 3) as nat;
    lemma_grown_bounds(picture, rect, axis, shape.palette, shape.start as int, steps);
    lemma_grown_bounds(picture, rect, axis, shape.palette, shape.end(), steps);
}

proof fn lemma_best_separator(picture: Pixels, rect: PixelRect, axis: Axis, places: nat)
    requires
        picture.holds(rect),
        places > 0 ==> search_start(rect, axis) < search_end(rect, axis),
    ensures
        ({
            let best = best_separator(picture, rect, axis, places);
            best is Some ==> is_inside(best->0, rect, axis)
        }),
    decreases places,
{
    if places > 0 {
        lemma_best_separator(picture, rect, axis, (places - 1) as nat);
        let number = places - 1;
        if separator_at(picture, rect, axis, nth_shape(rect, axis, number)) is Some {
            lemma_separator_at(picture, rect, axis, number);
        }
    }
}

/// A separator lies inside its rectangle.
pub proof fn lemma_separator_lies_inside(picture: Pixels, rect: PixelRect, axis: Axis)
    requires
        picture.holds(rect),
    ensures
        separator(picture, rect, axis) is Some ==> is_inside(
            separator(picture, rect, axis)->0,
            rect,
            axis,
        ),
{
    lemma_best_separator(picture, rect, axis, place_count(rect, axis) as nat);
}

/// A separator stands on the side of its rectangle that it is nearer to; at the very edge and
/// in the middle it has no side, and neither has one in the lower half.
pub proof fn law_separators_stand_on_the_nearer_side(hundredths: nat)
    requires
        hundredths < 0x10_0000,
    ensures
        ({
            let center = fraction(hundredths, 100);
            &&& side_of(Axis::Horizontal, center) == if 4 <= hundredths <= 48 {
                Some(SeparatorSide::Top)
            } else {
                None
            }
            &&& side_of(Axis::Vertical, center) == if 4 <= hundredths <= 46 {
                Some(SeparatorSide::Left)
            } else if 54 <= hundredths <= 97 {
                Some(SeparatorSide::Right)
            } else {
                None
            }
        }),
{
    law_shares_are_compared_by_their_parts(hundredths, 4, 100);
    law_shares_are_compared_by_their_parts(48, hundredths, 100);
    law_shares_are_compared_by_their_parts(46, hundredths, 100);
    law_shares_are_compared_by_their_parts(hundredths, 54, 100);
    law_shares_are_compared_by_their_parts(97, hundredths, 100);
}

/// The middle of a separator is told by its place between the first and the last line.
pub proof fn law_centers_are_told_by_the_place(
    rect: PixelRect,
    axis: Axis,
    before: nat,
    half: nat,
)
    requires
        first_line(rect, axis) <= 0x10_0000,
        before + half <= 0x10_0000,
        0 < depth(rect, axis) <= 0x10_0000,
    ensures
        ({
            let start = first_line(rect, axis) + before;
            relative_center(rect, axis, start, start + 2 * half) == fraction(
                before + half,
                depth(rect, axis) as nat,
            )
        }),
{
    let first = first_line(rect, axis);
    let start = first + before;
    let end = start + 2 * half;
    let middle = (start + half) as nat;
    law_small_integers_are_kept(start);
    law_small_integers_are_kept(end);
    law_small_integers_are_kept(first);
    law_small_integers_are_kept(middle as int);
    law_small_integers_are_kept((before + half) as int);
    law_small_integers_add(start, end);
    law_small_integers_are_kept(start + end);
    assert(middle * 2 == start + end);
    law_small_integers_divide(middle, 2);
    law_small_integers_add(middle as int, -first);
    law_small_integers_are_kept(middle - first);
}

/// What a separator cuts off reaches from it to the side that it stands on.
pub proof fn law_the_outside_reaches_to_the_side(
    rect: PixelRect,
    side: SeparatorSide,
    start: int,
    end: int,
)
    requires
        rect.x + rect.width <= u32::MAX,
        rect.y + rect.height <= u32::MAX,
        match side {
            SeparatorSide::Top => rect.y <= start <= end <= rect.y + rect.height,
            _ => rect.x <= start <= end <= rect.x + rect.width,
        },
    ensures
        ({
            let outside = outside_area(rect, side, start, end);
            &&& outside.lies_in(rect)
            &&& side is Top ==> outside.y == rect.y && outside.y + outside.height == start
                && outside.x == rect.x && outside.width == rect.width
            &&& side is Left ==> outside.x == rect.x && outside.x + outside.width == start
                && outside.y == rect.y && outside.height == rect.height
            &&& side is Right ==> outside.x == end && outside.x + outside.width == rect.x
                + rect.width && outside.y == rect.y && outside.height == rect.height
        }),
{
}

/// A line has a gray all over where all of its pixels are near it, and not at all where none
/// is.
pub proof fn law_lines_of_one_gray_have_it(
    picture: Pixels,
    rect: PixelRect,
    axis: Axis,
    position: int,
    gray: u8,
)
    requires
        4 < along_length(rect, axis) < 0x100_0000,
    ensures
        (forall|along: int|
            along_start(rect, axis) <= along < along_start(rect, axis) + along_length(rect, axis)
                ==> (PixelTest::Gray { target: gray, tolerance: 10 }).holds(
                #[trigger] picture.on_line(axis, position, along),
            )) ==> band_ratio(picture, rect, axis, position, gray) == whole(1),
        (forall|along: int|
            along_start(rect, axis) <= along < along_start(rect, axis) + along_length(rect, axis)
                ==> !(PixelTest::Gray { target: gray, tolerance: 10 }).holds(
                #[trigger] picture.on_line(axis, position, along),
            )) ==> band_ratio(picture, rect, axis, position, gray) == zero(),
{
    let length = along_length(rect, axis);
    let margin = max_int(length / 20, 2);
    let start = along_start(rect, axis) + margin;
    let span = length - 2 * margin;
    let step = step_for(span, 192);
    let samples = sample_count(span, step);
    let test = PixelTest::Gray { target: gray, tolerance: 10 };
    law_samples_cover_the_stretch(span, step);
    assert(samples <= span) by {
        assert(samples - 1 <= (samples - 1) * step) by (nonlinear_arith)
            requires
                samples >= 1,
                step >= 1,
        ;
    }
    law_lines_count_what_passes(picture, axis, position, start, step, samples, test);
    law_whole_share_is_one(samples);
    lemma_fraction_of_nothing(samples);
    let from = along_start(rect, axis);
    if forall|along: int|
        from <= along < from + length ==> test.holds(
            #[trigger] picture.on_line(axis, position, along),
        ) {
        assert forall|k: int| 0 <= k < samples implies test.holds(
            #[trigger] picture.on_line(axis, position, start + k * step),
        ) by {
            lemma_sample_on_stretch(span, step, k);
            let along = start + k * step;
            assert(from <= along < from + length);
        }
    }
    if forall|along: int|
        from <= along < from + length ==> !test.holds(
            #[trigger] picture.on_line(axis, position, along),
        ) {
        assert forall|k: int| 0 <= k < samples implies !test.holds(
            #[trigger] picture.on_line(axis, position, start + k * step),
        ) by {
            lemma_sample_on_stretch(span, step, k);
            let along = start + k * step;
            assert(from <= along < from + length);
        }
    }
}

/// A line has a palette as far as it has one of its two grays.
pub proof fn law_either_gray_counts(
    picture: Pixels,
    rect: PixelRect,
    axis: Axis,
    position: int,
    palette: BorderPalette,
)
    ensures
        palette_ratio(picture, rect, axis, position, palette).at_least(
            band_ratio(picture, rect, axis, position, palette.outer),
        ),
        palette_ratio(picture, rect, axis, position, palette).at_least(
            band_ratio(picture, rect, axis, position, palette.inner),
        ),
        BorderPalette::numbered(0).outer == 0x72 && BorderPalette::numbered(0).inner == 0x60,
        BorderPalette::numbered(1).outer == 0xa8 && BorderPalette::numbered(1).inner == 0x9b,
{
    law_the_smaller_is_above_neither(
        band_ratio(picture, rect, axis, position, palette.outer),
        band_ratio(picture, rect, axis, position, palette.inner),
    );
}

/// A separator grows over the lines beside it that still have its palette, as far as it may
/// grow, and no further than the first line that does not.
pub proof fn law_separators_grow_over_their_palette(
    picture: Pixels,
    rect: PixelRect,
    axis: Axis,
    palette: BorderPalette,
    at: int,
    steps: nat,
)
    requires
        first_line(rect, axis) <= at <= first_line(rect, axis) + depth(rect, axis),
    ensures
        ({
            let start = grown_start(picture, rect, axis, palette, at, steps);
            &&& at - steps <= start <= at
            &&& first_line(rect, axis) <= start
            &&& forall|line: int|
                start <= line < at ==> !(#[trigger] palette_ratio(
                    picture,
                    rect,
                    axis,
                    line,
                    palette,
                )).less(fraction(42, 100))
            &&& start > at - steps && start > first_line(rect, axis) ==> palette_ratio(
                picture,
                rect,
                axis,
                start - 1,
                palette,
            ).less(fraction(42, 100))
        }),
        ({
            let end = grown_end(picture, rect, axis, palette, at, steps);
            &&& at <= end <= at + steps
            &&& end <= first_line(rect, axis) + depth(rect, axis)
            &&& forall|line: int|
                at <= line < end ==> !(#[trigger] palette_ratio(
                    picture,
                    rect,
                    axis,
                    line,
                    palette,
                )).less(fraction(42, 100))
            &&& end < at + steps && end < first_line(rect, axis) + depth(rect, axis)
                ==> palette_ratio(picture, rect, axis, end, palette).less(fraction(42, 100))
        }),
    decreases steps,
{
    if steps > 0 {
        if at > first_line(rect, axis) {
            law_separators_grow_over_their_palette(
                picture,
                rect,
                axis,
                palette,
                at - 1,
                (steps - 1) as nat,
            );
        }
        if at < first_line(rect, axis) + depth(rect, axis) {
            law_separators_grow_over_their_palette(
                picture,
                rect,
                axis,
                palette,
                at + 1,
                (steps - 1) as nat,
            );
        }
    }
}

/// The three tones are there from 48, 44 and 34 hundredths of their lines on.
pub proof fn law_tones_need_their_shares(first: nat, middle: nat, second: nat)
    requires
        first < 0x10_0000,
        middle < 0x10_0000,
        second < 0x10_0000,
    ensures
        has_tones(fraction(first, 100), fraction(middle, 100), fraction(second, 100)) <==> first
            >= 48 && middle >= 44 && second >= 34,
{
    law_shares_are_compared_by_their_parts(first, 48, 100);
    law_shares_are_compared_by_their_parts(middle, 44, 100);
    law_shares_are_compared_by_their_parts(second, 34, 100);
}

/// A separator is never surer than sure nor less than unsure; one that is found is sure to 62
/// hundredths, lies about its place and has a side.
pub proof fn law_found_separators_are_sure(
    picture: Pixels,
    rect: PixelRect,
    axis: Axis,
    shape: Shape,
    first: Single,
    middle: Single,
    second: Single,
    position: Single,
    outside: Single,
)
    ensures
        separator_score(first, middle, second, position, outside).at_least(zero()),
        whole(1).at_least(separator_score(first, middle, second, position, outside)),
        ({
            let found = rated_separator(picture, rect, axis, shape, first, middle, second);
            found is Some ==> found->0.score.at_least(fraction(62, 100)) && whole(1).at_least(
                found->0.score,
            ) && (axis is Horizontal <==> found->0.side is Top)
        }),
{
    lemma_scores_are_in_range(first, middle, second, position, outside);
    let steps = (widest_tone(rect, axis) * 3) as nat;
    let start = grown_start(picture, rect, axis, shape.palette, shape.start as int, steps);
    let end = grown_end(picture, rect, axis, shape.palette, shape.end(), steps);
    let center = relative_center(rect, axis, start, end);
    if let Some(side) = side_of(axis, center) {
        lemma_scores_are_in_range(
            first,
            middle,
            second,
            position_score(side, center),
            outside_score(picture, outside_area(rect, side, start, end)),
        );
    }
}

proof fn lemma_scores_are_in_range(
    first: Single,
    middle: Single,
    second: Single,
    position: Single,
    outside: Single,
)
    ensures
        separator_score(first, middle, second, position, outside).at_least(zero()),
        whole(1).at_least(separator_score(first, middle, second, position, outside)),
{
    let continuity = first.plus(middle).plus(second).over(whole(3));
    let shape = first.smaller(second).times(fraction(55, 100)).plus(
        middle.times(fraction(45, 100)),
    );
    let sum = continuity.times(fraction(54, 100)).plus(shape.times(fraction(18, 100))).plus(
        position.times(fraction(16, 100)),
    ).plus(outside.times(fraction(12, 100)));
    lemma_zero_is_modest();
    law_held_numbers_are_in_range(sum, zero(), whole(1));
}

/// The surest separator is taken: it stands at one of the places, and none of them has a surer
/// one.
pub proof fn law_the_surest_separator_is_taken(
    picture: Pixels,
    rect: PixelRect,
    axis: Axis,
    places: nat,
)
    ensures
        ({
            let best = best_separator(picture, rect, axis, places);
            &&& best is Some <==> exists|k: int|
                0 <= k < places && separator_at(
                    picture,
                    rect,
                    axis,
                    #[trigger] nth_shape(rect, axis, k),
                ) is Some
            &&& forall|k: int|
                0 <= k < places && separator_at(
                    picture,
                    rect,
                    axis,
                    #[trigger] nth_shape(rect, axis, k),
                ) is Some ==> best->0.score.at_least(
                    separator_at(picture, rect, axis, nth_shape(rect, axis, k))->0.score,
                )
        }),
    decreases places,
{
    if places > 0 {
        law_the_surest_separator_is_taken(picture, rect, axis, (places - 1) as nat);
        let before = best_separator(picture, rect, axis, (places - 1) as nat);
        let best = best_separator(picture, rect, axis, places);
        let last = separator_at(picture, rect, axis, nth_shape(rect, axis, places - 1));
        assert forall|k: int|
            0 <= k < places && separator_at(
                picture,
                rect,
                axis,
                #[trigger] nth_shape(rect, axis, k),
            ) is Some implies best->0.score.at_least(
            separator_at(picture, rect, axis, nth_shape(rect, axis, k))->0.score,
        ) by {
            let other = separator_at(picture, rect, axis, nth_shape(rect, axis, k))->0.score;
            law_order_is_total(other, other);
            if k < places - 1 && before is Some && last is Some && before->0.score.less(
                last->0.score,
            ) {
                law_order_is_total(before->0.score, last->0.score);
                law_order_is_transitive(last->0.score, before->0.score, other);
            }
        }
    }
}

/// No place is left out: every palette, every first line between the ends of the search and
/// every choice of the three widths up to the widest is one of the places.
pub proof fn law_no_place_is_left_out(
    rect: PixelRect,
    axis: Axis,
    palette: int,
    start: int,
    outer: int,
    middle: int,
    trailing: int,
)
    requires
        rect.x + rect.width <= u32::MAX,
        rect.y + rect.height <= u32::MAX,
        palette == 0 || palette == 1,
        search_start(rect, axis) <= start < search_end(rect, axis),
        1 <= outer <= widest_tone(rect, axis),
        1 <= middle <= widest_tone(rect, axis),
        1 <= trailing <= widest_tone(rect, axis),
    ensures
        exists|number: int|
            0 <= number < place_count(rect, axis) && #[trigger] nth_shape(rect, axis, number) == (
            Shape {
                palette: BorderPalette::numbered(palette),
                start: start as u32,
                outer: outer as u32,
                middle: middle as u32,
                trailing: trailing as u32,
            }),
{
    reveal(nth_shape);
    let w = widest_tone(rect, axis);
    let first = search_start(rect, axis);
    let length = search_end(rect, axis) - first;
    let a = palette * length + (start - first);
    let b = a * w + (outer - 1);
    let c = b * w + (middle - 1);
    let number = c * w + (trailing - 1);
    vstd::arithmetic::div_mod::lemma_fundamental_div_mod_converse(number, w, c, trailing - 1);
    vstd::arithmetic::div_mod::lemma_fundamental_div_mod_converse(c, w, b, middle - 1);
    vstd::arithmetic::div_mod::lemma_fundamental_div_mod_converse(b, w, a, outer - 1);
    vstd::arithmetic::div_mod::lemma_fundamental_div_mod_converse(
        a,
        length,
        palette,
        start - first,
    );
    assert(0 <= a < 2 * length);
    assert(0 <= b < 2 * length * w) by (nonlinear_arith)
        requires
            b == a * w + (outer - 1),
            0 <= a <= 2 * length - 1,
            1 <= outer <= w,
    ;
    assert(0 <= c < 2 * length * w * w) by (nonlinear_arith)
        requires
            c == b * w + (middle - 1),
            0 <= b <= 2 * length * w - 1,
            1 <= middle <= w,
    ;
    assert(0 <= number < 2 * length * w * w * w) by (nonlinear_arith)
        requires
            number == c * w + (trailing - 1),
            0 <= c <= 2 * length * w * w - 1,
            1 <= trailing <= w,
    ;
    assert(2 * length * w * w * w == 2 * length * (w * w * w)) by (nonlinear_arith);
    assert(nth_shape(rect, axis, number).palette == BorderPalette::numbered(palette));
}

/// Tones are one to six lines wide, by the size of the rectangle; separators are looked for
/// clear of its edges, and horizontal ones in its upper half only.
pub proof fn law_separators_are_looked_for_inside(rect: PixelRect, axis: Axis)
    requires
        rect.x + rect.width <= u32::MAX,
        rect.y + rect.height <= u32::MAX,
    ensures
        1 <= widest_tone(rect, axis) <= 6,
        depth(rect, axis) < 720 ==> widest_tone(rect, axis) == 1,
        depth(rect, axis) >= 2160 ==> widest_tone(rect, axis) == 6,
        search_start(rect, axis) >= first_line(rect, axis) + 2,
        40 * (search_start(rect, axis) - first_line(rect, axis)) + 40 > depth(rect, axis),
        depth(rect, axis) >= 3 ==> search_end(rect, axis) + 3 <= first_line(rect, axis) + depth(
            rect,
            axis,
        ),
        100 * (search_end(rect, Axis::Horizontal) - rect.y) <= 48 * rect.height || rect.height < 3,
        first_line(rect, Axis::Horizontal) == rect.y && first_line(rect, Axis::Vertical) == rect.x,
{
}

/// The usual place of a separator at the top is at 24 hundredths; those at the sides are the
/// more usual the further out they stand.
pub proof fn law_outer_separators_are_more_usual(outer: nat, inner: nat)
    requires
        outer <= inner <= 50,
    ensures
        position_score(SeparatorSide::Top, fraction(24, 100)) == whole(1),
        position_score(SeparatorSide::Left, fraction(outer, 100)).at_least(
            position_score(SeparatorSide::Left, fraction(inner, 100)),
        ),
        position_score(SeparatorSide::Right, fraction((100 - outer) as nat, 100)).at_least(
            position_score(SeparatorSide::Right, fraction((100 - inner) as nat, 100)),
        ),
        position_score(SeparatorSide::Left, fraction(46, 100)) == fraction(72, 100),
        position_score(SeparatorSide::Right, fraction(54, 100)) == fraction(72, 100),
        whole(1).at_least(position_score(SeparatorSide::Top, fraction(inner, 100))),
{
    let quarter = fraction(25, 100);
    let base = fraction(72, 100);
    lemma_fractions_are_modest(25, 100);
    lemma_fractions_are_modest(72, 100);
    lemma_fractions_are_modest(46, 100);
    lemma_fractions_are_modest(54, 100);
    lemma_fractions_are_modest(24, 100);
    lemma_zero_is_modest();
    law_fractions_are_not_negative(25, 100);
    law_numbers_cancel(fraction(24, 100));
    law_numbers_cancel(fraction(46, 100));
    law_numbers_cancel(fraction(54, 100));
    law_numbers_cancel(quarter);
    law_numbers_cancel(base);
    law_operations_commute(zero(), quarter);
    law_small_integers_are_kept(0);
    law_small_integers_are_kept(1);
    law_small_integers_add(1, 0);
    law_fractions_are_not_negative(24, 100);
    assert(zero().absolute() == zero());
    assert(zero().smaller(fraction(24, 100)) == zero()) by {
        lemma_canonical_is_kept(zero());
        assert(!fraction(24, 100).less(zero()));
    }
    // The left side.
    let near = fraction(outer, 100);
    let far = fraction(inner, 100);
    lemma_fractions_are_modest(outer, 100);
    lemma_fractions_are_modest(inner, 100);
    law_shares_are_compared_by_their_parts(inner, outer, 100);
    law_taking_less_leaves_more(fraction(46, 100), far, near);
    let a = fraction(46, 100).minus(near);
    let b = fraction(46, 100).minus(far);
    lemma_sums_are_modest(fraction(46, 100), near, 64);
    lemma_sums_are_modest(fraction(46, 100), far, 64);
    law_multiplying_keeps_the_order(a, b, quarter);
    lemma_results_are_modest(a, quarter, 112);
    lemma_results_are_modest(b, quarter, 112);
    law_adding_keeps_the_order(a.times(quarter), b.times(quarter), base);
    // The right side.
    let x = (100 - outer) as nat;
    let y = (100 - inner) as nat;
    lemma_fractions_are_modest(x, 100);
    lemma_fractions_are_modest(y, 100);
    law_shares_are_compared_by_their_parts(x, y, 100);
    law_adding_keeps_the_order(fraction(x, 100), fraction(y, 100), fraction(54, 100));
    let c = fraction(x, 100).minus(fraction(54, 100));
    let d = fraction(y, 100).minus(fraction(54, 100));
    lemma_sums_are_modest(fraction(x, 100), fraction(54, 100), 64);
    lemma_sums_are_modest(fraction(y, 100), fraction(54, 100), 64);
    law_multiplying_keeps_the_order(c, d, quarter);
    lemma_results_are_modest(c, quarter, 112);
    lemma_results_are_modest(d, quarter, 112);
    law_adding_keeps_the_order(c.times(quarter), d.times(quarter), base);
    // The top.
    let off = far.minus(fraction(24, 100));
    lemma_sums_are_modest(far, fraction(24, 100), 64);
    lemma_results_are_modest(off, off, 112);
    lemma_results_are_modest(off.absolute(), fraction(24, 100), 112);
    let taken = off.absolute().smaller(fraction(24, 100));
    law_the_smaller_is_above_neither(off.absolute(), fraction(24, 100));
    law_order_of_zero(off.absolute());
    lemma_canonical_is_kept(off.absolute());
    lemma_canonical_is_kept(fraction(24, 100));
    assert(taken.at_least(zero()));
    law_order_is_total(taken, taken);
    law_taking_less_leaves_more(whole(1), taken, taken);
}

/// A separator at a more usual place, or with more of the background of Teams beyond it, is at
/// least as sure.
pub proof fn law_usual_places_are_surer(
    first: Single,
    middle: Single,
    second: Single,
    position: Single,
    outside: Single,
    less_usual: Single,
    less_outside: Single,
)
    requires
        is_modest(first, 0x100),
        is_modest(middle, 0x100),
        is_modest(second, 0x100),
        is_modest(position, 0x400),
        is_modest(outside, 0x400),
        is_modest(less_usual, 0x400),
        is_modest(less_outside, 0x400),
        position.at_least(less_usual),
        outside.at_least(less_outside),
    ensures
        separator_score(first, middle, second, position, outside).at_least(
            separator_score(first, middle, second, less_usual, less_outside),
        ),
{
    lemma_naturals_are_modest(3);
    lemma_fractions_are_modest(54, 100);
    lemma_fractions_are_modest(55, 100);
    lemma_fractions_are_modest(45, 100);
    lemma_fractions_are_modest(18, 100);
    lemma_fractions_are_modest(16, 100);
    lemma_fractions_are_modest(12, 100);
    lemma_zero_is_modest();
    law_fractions_are_not_negative(16, 100);
    law_fractions_are_not_negative(12, 100);
    lemma_sums_are_modest(first, middle, 0x100);
    lemma_sums_are_modest(first.plus(middle), second, 0x130);
    let sum = first.plus(middle).plus(second);
    lemma_results_are_modest(sum, whole(3), 0x160);
    let continuity = sum.over(whole(3));
    lemma_results_are_modest(continuity, fraction(54, 100), 0x2f0);
    lemma_results_are_modest(first, second, 0x100);
    let weaker = first.smaller(second);
    lemma_results_are_modest(weaker, fraction(55, 100), 0x100);
    lemma_results_are_modest(middle, fraction(45, 100), 0x100);
    lemma_sums_are_modest(
        weaker.times(fraction(55, 100)),
        middle.times(fraction(45, 100)),
        0x230,
    );
    let shape = weaker.times(fraction(55, 100)).plus(middle.times(fraction(45, 100)));
    lemma_results_are_modest(shape, fraction(18, 100), 0x260);
    let c = continuity.times(fraction(54, 100));
    let s = shape.times(fraction(18, 100));
    lemma_sums_are_modest(c, s, 0x610);
    let base = c.plus(s);
    let p = fraction(16, 100);
    let o = fraction(12, 100);
    law_multiplying_keeps_the_order(position, less_usual, p);
    law_multiplying_keeps_the_order(outside, less_outside, o);
    lemma_results_are_modest(position, p, 0x400);
    lemma_results_are_modest(less_usual, p, 0x400);
    lemma_results_are_modest(outside, o, 0x400);
    lemma_results_are_modest(less_outside, o, 0x400);
    law_adding_keeps_the_order(position.times(p), less_usual.times(p), base);
    lemma_sums_are_modest(base, position.times(p), 0x900);
    lemma_sums_are_modest(base, less_usual.times(p), 0x900);
    let a = base.plus(position.times(p));
    let b = base.plus(less_usual.times(p));
    law_adding_keeps_the_order(a, b, outside.times(o));
    law_adding_keeps_the_order(outside.times(o), less_outside.times(o), b);
    lemma_sums_are_modest(a, outside.times(o), 0x940);
    lemma_sums_are_modest(b, outside.times(o), 0x940);
    lemma_sums_are_modest(b, less_outside.times(o), 0x940);
    law_order_is_transitive(
        a.plus(outside.times(o)),
        b.plus(outside.times(o)),
        b.plus(less_outside.times(o)),
    );
    law_holding_keeps_the_order(
        a.plus(outside.times(o)),
        b.plus(less_outside.times(o)),
        zero(),
        whole(1),
    );
}

proof fn lemma_every_sample_passes(
    picture: Pixels,
    left: int,
    top: int,
    step_x: int,
    step_y: int,
    columns: nat,
    rows: nat,
    test: PixelTest,
)
    ensures
        (forall|k: int, j: int|
            0 <= k < columns && 0 <= j < rows ==> test.holds(
                #[trigger] picture.on_line(Axis::Horizontal, top + j * step_y, left + k * step_x),
            )) ==> area_hits(picture, left, top, step_x, step_y, columns, rows, test) == columns
            * rows,
        (forall|k: int, j: int|
            0 <= k < columns && 0 <= j < rows ==> !test.holds(
                #[trigger] picture.on_line(Axis::Horizontal, top + j * step_y, left + k * step_x),
            )) ==> area_hits(picture, left, top, step_x, step_y, columns, rows, test) == 0,
    decreases rows,
{
    assert(columns * 0 == 0);
    if rows > 0 {
        let last = rows - 1;
        lemma_every_sample_passes(
            picture,
            left,
            top,
            step_x,
            step_y,
            columns,
            last as nat,
            test,
        );
        law_lines_count_what_passes(
            picture,
            Axis::Horizontal,
            top + last * step_y,
            left,
            step_x,
            columns,
            test,
        );
        let c = columns as int;
        let r = rows as int;
        assert(c * (r - 1) + c == c * r) by (nonlinear_arith);
        if forall|k: int, j: int|
            0 <= k < columns && 0 <= j < rows ==> test.holds(
                #[trigger] picture.on_line(Axis::Horizontal, top + j * step_y, left + k * step_x),
            ) {
            assert forall|k: int| 0 <= k < columns implies test.holds(
                #[trigger] picture.on_line(Axis::Horizontal, top + last * step_y, left + k * step_x),
            ) by {}
        }
        if forall|k: int, j: int|
            0 <= k < columns && 0 <= j < rows ==> !test.holds(
                #[trigger] picture.on_line(Axis::Horizontal, top + j * step_y, left + k * step_x),
            ) {
            assert forall|k: int| 0 <= k < columns implies !test.holds(
                #[trigger] picture.on_line(Axis::Horizontal, top + last * step_y, left + k * step_x),
            ) by {}
        }
    }
}

/// What a separator cuts off counts fully where all of it has a background of Teams, and not
/// at all where none of it has.
pub proof fn law_teams_backgrounds_lie_outside(picture: Pixels, outside: PixelRect)
    requires
        0 < outside.width < 0x1000,
        0 < outside.height < 0x1000,
        picture.holds(outside),
    ensures
        (forall|x: int, y: int|
            outside.x <= x < outside.x + outside.width && outside.y <= y < outside.y
                + outside.height ==> (PixelTest::KnownGray { tolerance: 24 }).holds(
                #[trigger] picture.on_line(Axis::Horizontal, y, x),
            )) ==> outside_score(picture, outside) == whole(1),
        (forall|x: int, y: int|
            outside.x <= x < outside.x + outside.width && outside.y <= y < outside.y
                + outside.height ==> !(PixelTest::KnownGray { tolerance: 24 }).holds(
                #[trigger] picture.on_line(Axis::Horizontal, y, x),
            )) ==> outside_score(picture, outside) == zero(),
        whole(1).at_least(outside_score(picture, outside)),
        outside_score(picture, outside).at_least(zero()),
{
    let test = PixelTest::KnownGray { tolerance: 24 };
    let left = outside.x as int;
    let top = outside.y as int;
    let width = outside.width as int;
    let height = outside.height as int;
    let step_x = step_for(width, 96);
    let step_y = step_for(height, 96);
    let columns = sampled_columns(picture, outside, step_x);
    let rows = sampled_rows(picture, outside, step_y);
    law_samples_cover_the_stretch(width, step_x);
    law_samples_cover_the_stretch(height, step_y);
    lemma_few_samples(width, step_x);
    lemma_few_samples(height, step_y);
    assert(columns == sample_count(width, step_x) && rows == sample_count(height, step_y));
    let all = columns * rows;
    assert(0 < all < 0x100_0000) by (nonlinear_arith)
        requires
            all == columns * rows,
            0 < columns < 0x1000,
            0 < rows < 0x1000,
    ;
    lemma_every_sample_passes(picture, left, top, step_x, step_y, columns, rows, test);
    law_areas_count_their_rows(picture, left, top, step_x, step_y, columns, rows, test);
    let hits = area_hits(picture, left, top, step_x, step_y, columns, rows, test);
    let part = fraction(28, 100);
    let share = fraction(hits, all);
    lemma_fractions_are_modest(28, 100);
    lemma_fractions_are_modest(hits, all);
    lemma_naturals_are_modest(1);
    lemma_zero_is_modest();
    lemma_fraction_is_positive(28, 100);
    law_fractions_are_not_negative(hits, all);
    law_numbers_cancel(part);
    law_small_integers_are_kept(0);
    law_small_integers_are_kept(1);
    law_small_integers_are_in_order(0, 1);
    let ratio = share.over(part);
    law_dividing_keeps_the_order(share, zero(), part);
    lemma_results_are_modest(share, part, 0x400);
    lemma_canonical_is_kept(ratio);
    law_the_smaller_is_above_neither(ratio, whole(1));
    if forall|x: int, y: int|
        outside.x <= x < outside.x + outside.width && outside.y <= y < outside.y + outside.height
            ==> test.holds(#[trigger] picture.on_line(Axis::Horizontal, y, x)) {
        assert forall|k: int, j: int| 0 <= k < columns && 0 <= j < rows implies test.holds(
            #[trigger] picture.on_line(Axis::Horizontal, top + j * step_y, left + k * step_x),
        ) by {
            lemma_sample_on_stretch(width, step_x, k);
            lemma_sample_on_stretch(height, step_y, j);
        }
        law_whole_share_is_one(all);
        law_whole_share_is_one(100);
        law_shares_are_compared_by_their_parts(100, 28, 100);
        law_dividing_keeps_the_order(whole(1), part, part);
        assert(ratio.at_least(whole(1)));
        law_order_is_total(ratio, whole(1));
        if ratio.smaller(whole(1)) != whole(1) {
            assert(!whole(1).less(ratio) && !ratio.less(whole(1)));
            lemma_fraction_is_positive(1, 1);
            assert(ratio != zero());
            lemma_equal_order_is_equal(ratio, whole(1));
        }
    }
    if forall|x: int, y: int|
        outside.x <= x < outside.x + outside.width && outside.y <= y < outside.y + outside.height
            ==> !test.holds(#[trigger] picture.on_line(Axis::Horizontal, y, x)) {
        assert forall|k: int, j: int| 0 <= k < columns && 0 <= j < rows implies !test.holds(
            #[trigger] picture.on_line(Axis::Horizontal, top + j * step_y, left + k * step_x),
        ) by {
            lemma_sample_on_stretch(width, step_x, k);
            lemma_sample_on_stretch(height, step_y, j);
        }
        lemma_fraction_of_nothing(all);
    }
}

/// The clearer its three tones are, the surer a separator is.
pub proof fn law_clear_tones_are_surer(
    first: Single,
    middle: Single,
    second: Single,
    fainter: (Single, Single, Single),
    position: Single,
    outside: Single,
)
    requires
        is_modest(first, 0x80),
        is_modest(middle, 0x80),
        is_modest(second, 0x80),
        is_modest(fainter.0, 0x80),
        is_modest(fainter.1, 0x80),
        is_modest(fainter.2, 0x80),
        is_modest(position, 0x80),
        is_modest(outside, 0x80),
        !first.negative && !middle.negative && !second.negative,
        !fainter.0.negative && !fainter.1.negative && !fainter.2.negative,
        first.at_least(fainter.0),
        middle.at_least(fainter.1),
        second.at_least(fainter.2),
    ensures
        separator_score(first, middle, second, position, outside).at_least(
            separator_score(fainter.0, fainter.1, fainter.2, position, outside),
        ),
{
    let a = fainter.0;
    let b = fainter.1;
    let c = fainter.2;
    let three = whole(3);
    lemma_naturals_are_modest(3);
    lemma_fraction_is_positive(3, 1);
    lemma_fractions_are_modest(54, 100);
    lemma_fractions_are_modest(55, 100);
    lemma_fractions_are_modest(45, 100);
    lemma_fractions_are_modest(18, 100);
    lemma_fractions_are_modest(16, 100);
    lemma_fractions_are_modest(12, 100);
    lemma_zero_is_modest();
    law_fractions_are_not_negative(54, 100);
    law_fractions_are_not_negative(55, 100);
    law_fractions_are_not_negative(45, 100);
    law_fractions_are_not_negative(18, 100);
    // How continuous the tones are.
    law_adding_keeps_the_order(first, a, middle);
    law_adding_keeps_the_order(middle, b, a);
    law_order_is_transitive(first.plus(middle), a.plus(middle), a.plus(b));
    lemma_sums_are_modest(first, middle, 0x80);
    lemma_sums_are_modest(a, b, 0x80);
    lemma_sums_are_not_negative(first, middle);
    lemma_sums_are_not_negative(a, b);
    let x = first.plus(middle);
    let y = a.plus(b);
    law_adding_keeps_the_order(x, y, second);
    law_adding_keeps_the_order(second, c, y);
    law_order_is_transitive(x.plus(second), y.plus(second), y.plus(c));
    lemma_sums_are_modest(x, second, 0xb0);
    lemma_sums_are_modest(y, c, 0xb0);
    lemma_sums_are_not_negative(x, second);
    lemma_sums_are_not_negative(y, c);
    let sum = x.plus(second);
    let less = y.plus(c);
    law_dividing_keeps_the_order(sum, less, three);
    lemma_results_are_modest(sum, three, 0xe0);
    lemma_results_are_modest(less, three, 0xe0);
    law_multiplying_keeps_the_order(sum.over(three), less.over(three), fraction(54, 100));
    lemma_results_are_modest(sum.over(three), fraction(54, 100), 0x1f0);
    lemma_results_are_modest(less.over(three), fraction(54, 100), 0x1f0);
    let p = sum.over(three).times(fraction(54, 100));
    let q = less.over(three).times(fraction(54, 100));
    // What shape they have.
    lemma_results_are_modest(first, second, 0x80);
    lemma_results_are_modest(a, c, 0x80);
    lemma_canonical_is_kept(first);
    lemma_canonical_is_kept(second);
    lemma_canonical_is_kept(a);
    lemma_canonical_is_kept(c);
    law_the_smaller_is_above_neither(first, second);
    law_the_smaller_is_above_neither(a, c);
    let weaker = first.smaller(second);
    let faintest = a.smaller(c);
    law_order_is_transitive(first, a, faintest);
    law_order_is_transitive(second, c, faintest);
    assert(weaker.at_least(faintest));
    law_multiplying_keeps_the_order(weaker, faintest, fraction(55, 100));
    law_multiplying_keeps_the_order(middle, b, fraction(45, 100));
    lemma_results_are_modest(weaker, fraction(55, 100), 0x80);
    lemma_results_are_modest(faintest, fraction(55, 100), 0x80);
    lemma_results_are_modest(middle, fraction(45, 100), 0x80);
    lemma_results_are_modest(b, fraction(45, 100), 0x80);
    let i = weaker.times(fraction(55, 100));
    let j = faintest.times(fraction(55, 100));
    let k = middle.times(fraction(45, 100));
    let l = b.times(fraction(45, 100));
    law_adding_keeps_the_order(i, j, k);
    law_adding_keeps_the_order(k, l, j);
    law_order_is_transitive(i.plus(k), j.plus(k), j.plus(l));
    lemma_sums_are_modest(i, k, 0x130);
    lemma_sums_are_modest(j, l, 0x130);
    let shape = i.plus(k);
    let blur = j.plus(l);
    law_multiplying_keeps_the_order(shape, blur, fraction(18, 100));
    lemma_results_are_modest(shape, fraction(18, 100), 0x160);
    lemma_results_are_modest(blur, fraction(18, 100), 0x160);
    let s = shape.times(fraction(18, 100));
    let t = blur.times(fraction(18, 100));
    // Both together, with what does not change.
    law_adding_keeps_the_order(p, q, s);
    law_adding_keeps_the_order(s, t, q);
    law_order_is_transitive(p.plus(s), q.plus(s), q.plus(t));
    lemma_sums_are_modest(p, s, 0x410);
    lemma_sums_are_modest(q, t, 0x410);
    let place = position.times(fraction(16, 100));
    let beyond = outside.times(fraction(12, 100));
    lemma_results_are_modest(position, fraction(16, 100), 0x80);
    lemma_results_are_modest(outside, fraction(12, 100), 0x80);
    law_adding_keeps_the_order(p.plus(s), q.plus(t), place);
    lemma_sums_are_modest(p.plus(s), place, 0x440);
    lemma_sums_are_modest(q.plus(t), place, 0x440);
    let m = p.plus(s).plus(place);
    let n = q.plus(t).plus(place);
    law_adding_keeps_the_order(m, n, beyond);
    lemma_sums_are_modest(m, beyond, 0x470);
    lemma_sums_are_modest(n, beyond, 0x470);
    law_holding_keeps_the_order(m.plus(beyond), n.plus(beyond), zero(), whole(1));
}

} // verus!
