//! Boundaries between areas of a picture.

use vstd::prelude::*;

use crate::detector::background::{area_mode, estimate_region_mode};
use crate::detector::color::PixelTest;
use crate::detector::picture::{Axis, Picture, Pixels};
use crate::detector::sampling::{
    area_hits, count_area, law_samples_cover_the_stretch, lemma_few_samples, lemma_sample_on_stretch, sample_count,
    sampled_columns, sampled_rows, step_for,
};
use crate::geometry::PixelRect;
use crate::numeric::{clamp_int, clamp_u32, max_int, max_u32, min_int, min_u32};
use crate::single::{
    fraction, from_int, law_order_is_total, law_order_is_transitive, law_small_integers_add,
    law_small_integers_are_kept, law_small_integers_divide, law_the_smaller_is_above_neither, ratio,
    whole, zero, Single,
};

verus! {

/// Number of lines of a picture across an axis: its rows for horizontal lines, its columns
/// for vertical ones.
pub open spec fn line_count(picture: Pixels, axis: Axis) -> int {
    match axis {
        Axis::Horizontal => picture.height as int,
        Axis::Vertical => picture.width as int,
    }
}

/// Length of the lines along an axis.
pub open spec fn line_length(picture: Pixels, axis: Axis) -> int {
    match axis {
        Axis::Horizontal => picture.width as int,
        Axis::Vertical => picture.height as int,
    }
}

fn lines_across(picture: &Picture, axis: Axis) -> (result: u32)
    ensures
        result == line_count(picture@, axis),
{
    match axis {
        Axis::Horizontal => picture.height,
        Axis::Vertical => picture.width,
    }
}

fn lines_along(picture: &Picture, axis: Axis) -> (result: u32)
    ensures
        result == line_length(picture@, axis),
{
    match axis {
        Axis::Horizontal => picture.width,
        Axis::Vertical => picture.height,
    }
}

/// Sum of the distances between a line and the one before it, over the first samples.
pub open spec fn boundary_sum(
    picture: Pixels,
    axis: Axis,
    position: int,
    start: int,
    step: int,
    taken: nat,
) -> Single
    decreases taken,
{
    if taken == 0 {
        zero()
    } else {
        let along = start + (taken - 1) * step;
        boundary_sum(picture, axis, position, start, step, (taken - 1) as nat).plus(
            picture.on_line(axis, position - 1, along).distance(
                picture.on_line(axis, position, along),
            ),
        )
    }
}

/// Mean distance between a line and the one before it, from `start` to before `end`.
pub open spec fn boundary_strength(
    picture: Pixels,
    axis: Axis,
    position: int,
    start: int,
    end: int,
) -> Single {
    let step = step_for(end - start, 256);
    let samples = sample_count(min_int(end, line_length(picture, axis)) - start, step);
    if position <= 0 || position >= line_count(picture, axis) || end <= start || samples == 0 {
        zero()
    } else {
        boundary_sum(picture, axis, position, start, step, samples).over(whole(samples))
    }
}

pub fn measure_boundary(picture: &Picture, axis: Axis, position: u32, start: u32, end: u32)
    -> (result: Single)
    requires
        picture.well_formed(),
    ensures
        result == boundary_strength(
            picture@,
            axis,
            position as int,
            start as int,
            end as int,
        ),
        result.is_canonical(),
{
    if position == 0 || position >= lines_across(picture, axis) || end <= start {
        return from_int(0);
    }
    let step: u32 = max_u32((end - start) / 256, 1);
    let stop: u32 = min_u32(end, lines_along(picture, axis));
    if stop <= start {
        return from_int(0);
    }
    let length: u32 = stop - start;
    let ghost total = sample_count(length as int, step as int);
    let mut samples: u32 = 0;
    let mut sum = from_int(0);
    let mut cursor: u32 = start;
    proof {
        lemma_sample_on_stretch(length as int, step as int, 0);
        lemma_few_samples(length as int, step as int);
    }
    while cursor < stop
        invariant
            picture.well_formed(),
            step > 0,
            start < stop,
            length == stop - start,
            0 < position < line_count(picture@, axis),
            stop <= line_length(picture@, axis),
            total == sample_count(length as int, step as int),
            total <= u32::MAX,
            start <= cursor,
            samples <= total,
            cursor < stop ==> cursor == start + samples * step,
            (cursor < stop) == (samples < total),
            sum.is_canonical(),
            sum == boundary_sum(
                picture@,
                axis,
                position as int,
                start as int,
                step as int,
                samples as nat,
            ),
        decreases total - samples,
    {
        let before = picture.line_pixel(axis, position - 1, cursor);
        let after = picture.line_pixel(axis, position, cursor);
        sum = sum.add(before.color_distance(after));
        proof {
            lemma_sample_on_stretch(length as int, step as int, samples + 1);
            assert((samples + 1) * step == samples * step + step) by (nonlinear_arith);
            assert((samples + 1 - 1) as nat == samples as nat);
        }
        samples += 1;
        cursor = cursor.saturating_add(step);
    }
    sum.div(from_int(samples as u64))
}

/// The strongest boundary among `count` lines from `first` on, the first one where several
/// are as strong.
pub open spec fn strongest_from(
    picture: Pixels,
    axis: Axis,
    first: int,
    count: nat,
    start: int,
    end: int,
) -> Option<(int, Single)>
    decreases count,
{
    if count == 0 {
        None
    } else {
        let before = strongest_from(picture, axis, first, (count - 1) as nat, start, end);
        let position = first + count - 1;
        let strength = boundary_strength(picture, axis, position, start, end);
        match before {
            Some((_, best)) => if best.less(strength) {
                Some((position, strength))
            } else {
                before
            },
            None => Some((position, strength)),
        }
    }
}

/// The strongest boundary within `radius` lines of `center`.
pub open spec fn strongest_near(
    picture: Pixels,
    axis: Axis,
    center: int,
    radius: int,
    start: int,
    end: int,
) -> Option<(int, Single)> {
    let first = max_int(center - radius, 1);
    let last = min_int(min_int(center + radius, u32::MAX as int), line_count(picture, axis) - 1);
    if first > last || end <= start {
        None
    } else {
        strongest_from(picture, axis, first, (last - first + 1) as nat, start, end)
    }
}

pub fn strongest_boundary(
    picture: &Picture,
    axis: Axis,
    center: u32,
    radius: u32,
    start: u32,
    end: u32,
) -> (result: Option<(u32, Single)>)
    requires
        picture.well_formed(),
        line_count(picture@, axis) > 0,
    ensures
        match (result, strongest_near(
            picture@,
            axis,
            center as int,
            radius as int,
            start as int,
            end as int,
        )) {
            (Some((position, strength)), Some((expected, best))) => position == expected && strength
                == best,
            (None, None) => true,
            _ => false,
        },
{
    let first: u32 = max_u32(center.saturating_sub(radius), 1);
    let last: u32 = min_u32(center.saturating_add(radius), lines_across(picture, axis) - 1);
    if first > last || end <= start {
        return None;
    }
    let mut best: u32 = first;
    let mut best_strength = measure_boundary(picture, axis, first, start, end);
    let mut position: u32 = first;
    proof {
        assert(strongest_from(
            picture@,
            axis,
            first as int,
            0,
            start as int,
            end as int,
        ) is None);
    }
    while position < last
        invariant
            picture.well_formed(),
            first <= position <= last,
            last < line_count(picture@, axis),
            strongest_from(
                picture@,
                axis,
                first as int,
                (position - first + 1) as nat,
                start as int,
                end as int,
            ) == Some((best as int, best_strength)),
        decreases last - position,
    {
        position += 1;
        let strength = measure_boundary(picture, axis, position, start, end);
        proof {
            assert((position - first + 1 - 1) as nat == (position - 1 - first + 1) as nat);
        }
        if best_strength.lt(strength) {
            best = position;
            best_strength = strength;
        }
    }
    Some((best, best_strength))
}

/// The edge moved to the strongest boundary near it, if that is strong enough.
pub open spec fn moved_edge(
    picture: Pixels,
    axis: Axis,
    edge: int,
    radius: int,
    start: int,
    end: int,
    minimum: nat,
) -> int {
    match strongest_near(picture, axis, edge, radius, start, end) {
        Some((position, strength)) => if strength.at_least(whole(minimum)) {
            position
        } else {
            edge
        },
        None => edge,
    }
}

fn move_edge(
    picture: &Picture,
    axis: Axis,
    edge: u32,
    radius: u32,
    start: u32,
    end: u32,
    minimum: u64,
) -> (result: u32)
    requires
        picture.well_formed(),
        line_count(picture@, axis) > 0,
    ensures
        result == moved_edge(
            picture@,
            axis,
            edge as int,
            radius as int,
            start as int,
            end as int,
            minimum as nat,
        ),
{
    match strongest_boundary(picture, axis, edge, radius, start, end) {
        Some((position, strength)) => if strength.ge(from_int(minimum)) {
            position
        } else {
            edge
        },
        None => edge,
    }
}

/// How far the edges of a rectangle may be moved.
pub open spec fn edge_radius_x(picture: Pixels) -> int {
    clamp_int(picture.width as int / 64, 8, 40)
}

pub open spec fn edge_radius_y(picture: Pixels) -> int {
    clamp_int(picture.height as int / 64, 6, 28)
}

/// The rectangle with its edges at the strongest boundaries near them; an edge near that of
/// the picture is moved there.
pub open spec fn snapped_to_edges(picture: Pixels, rect: PixelRect) -> PixelRect {
    let width = picture.width as int;
    let height = picture.height as int;
    let rx = edge_radius_x(picture);
    let ry = edge_radius_y(picture);
    let y = rect.y as int;
    let bottom_edge = rect.bottom_edge();
    let left = if rect.x <= rx {
        0
    } else {
        moved_edge(picture, Axis::Vertical, rect.x as int, rx, y, bottom_edge, 6)
    };
    let right = if width - rect.right_edge() <= rx {
        width
    } else {
        moved_edge(picture, Axis::Vertical, rect.right_edge(), rx, y, bottom_edge, 6)
    };
    let top = if y <= ry {
        0
    } else {
        moved_edge(picture, Axis::Horizontal, y, ry, left, right, 4)
    };
    let bottom = if height - bottom_edge <= ry {
        height
    } else {
        moved_edge(picture, Axis::Horizontal, bottom_edge, ry, left, right, 4)
    };
    if width < 2 || height < 2 || right <= left || bottom <= top {
        rect
    } else {
        PixelRect {
            x: left as u32,
            y: top as u32,
            width: (right - left) as u32,
            height: (bottom - top) as u32,
        }
    }
}

pub fn refine_projected_edges(picture: &Picture, rect: PixelRect) -> (result: PixelRect)
    requires
        picture.well_formed(),
    ensures
        result == snapped_to_edges(picture@, rect),
{
    if picture.width < 2 || picture.height < 2 {
        return rect;
    }
    let radius_x: u32 = clamp_u32(picture.width / 64, 8, 40);
    let radius_y: u32 = clamp_u32(picture.height / 64, 6, 28);
    let left: u32 = if rect.x <= radius_x {
        0
    } else {
        move_edge(picture, Axis::Vertical, rect.x, radius_x, rect.y, rect.bottom(), 6)
    };
    let right_gap: u32 = picture.width.saturating_sub(rect.right());
    let right: u32 = if right_gap <= radius_x {
        picture.width
    } else {
        move_edge(picture, Axis::Vertical, rect.right(), radius_x, rect.y, rect.bottom(), 6)
    };
    let top: u32 = if rect.y <= radius_y {
        0
    } else {
        move_edge(picture, Axis::Horizontal, rect.y, radius_y, left, right, 4)
    };
    let bottom_gap: u32 = picture.height.saturating_sub(rect.bottom());
    let bottom: u32 = if bottom_gap <= radius_y {
        picture.height
    } else {
        move_edge(picture, Axis::Horizontal, rect.bottom(), radius_y, left, right, 4)
    };
    if right > left && bottom > top {
        PixelRect { x: left, y: top, width: right - left, height: bottom - top }
    } else {
        rect
    }
}

/// A strongest boundary lies on the picture.
proof fn lemma_strongest_lies_inside(
    picture: Pixels,
    axis: Axis,
    first: int,
    count: nat,
    start: int,
    end: int,
)
    ensures
        match strongest_from(picture, axis, first, count, start, end) {
            Some((position, _)) => first <= position < first + count,
            None => count == 0,
        },
    decreases count,
{
    if count > 0 {
        lemma_strongest_lies_inside(picture, axis, first, (count - 1) as nat, start, end);
    }
}

/// A rectangle inside the picture stays inside when its edges are moved.
pub proof fn law_moved_edges_stay_inside(picture: Pixels, rect: PixelRect)
    requires
        picture.holds(rect),
    ensures
        picture.holds(snapped_to_edges(picture, rect)),
{
    let rx = edge_radius_x(picture);
    let ry = edge_radius_y(picture);
    lemma_moved_edge_stays_inside(
        picture,
        Axis::Vertical,
        rect.x as int,
        rx,
        rect.y as int,
        rect.bottom_edge(),
        6,
    );
    lemma_moved_edge_stays_inside(
        picture,
        Axis::Vertical,
        rect.right_edge(),
        rx,
        rect.y as int,
        rect.bottom_edge(),
        6,
    );
    assert forall|left: int, right: int| true implies 0 <= moved_edge(
        picture,
        Axis::Horizontal,
        rect.y as int,
        ry,
        left,
        right,
        4,
    ) <= picture.height && 0 <= #[trigger] moved_edge(
        picture,
        Axis::Horizontal,
        rect.bottom_edge(),
        ry,
        left,
        right,
        4,
    ) <= picture.height by {
        lemma_moved_edge_stays_inside(
            picture,
            Axis::Horizontal,
            rect.y as int,
            ry,
            left,
            right,
            4,
        );
        lemma_moved_edge_stays_inside(
            picture,
            Axis::Horizontal,
            rect.bottom_edge(),
            ry,
            left,
            right,
            4,
        );
    }
}

proof fn lemma_moved_edge_stays_inside(
    picture: Pixels,
    axis: Axis,
    edge: int,
    radius: int,
    start: int,
    end: int,
    minimum: nat,
)
    requires
        0 <= edge <= line_count(picture, axis),
    ensures
        0 <= moved_edge(picture, axis, edge, radius, start, end, minimum) <= line_count(
            picture,
            axis,
        ),
{
    let first = max_int(edge - radius, 1);
    let last = min_int(min_int(edge + radius, u32::MAX as int), line_count(picture, axis) - 1);
    if first <= last {
        lemma_strongest_lies_inside(picture, axis, first, (last - first + 1) as nat, start, end);
    }
}

/// The largest boundary strength of `count` rows from `first` on.
pub open spec fn largest_strength(
    picture: Pixels,
    first: int,
    count: nat,
    left: int,
    right: int,
) -> Single
    decreases count,
{
    if count == 0 {
        zero()
    } else {
        largest_strength(picture, first, (count - 1) as nat, left, right).larger(
            boundary_strength(picture, Axis::Horizontal, first + count - 1, left, right),
        )
    }
}

/// The lowest part of a rectangle, where a taskbar would be.
pub open spec fn taskbar_band(rect: PixelRect) -> PixelRect {
    let height = min_int(clamp_int(rect.height as int / 18, 20, 64), rect.height as int / 4);
    PixelRect {
        x: rect.x,
        y: (rect.bottom_edge() - height) as u32,
        width: rect.width,
        height: height as u32,
    }
}

/// The lowest part of a rectangle looks like a desktop's taskbar: some of it stands out,
/// and a boundary separates it from the rest.
pub open spec fn has_taskbar(picture: Pixels, rect: PixelRect) -> bool {
    let band = taskbar_band(rect);
    let step_x = step_for(band.width as int, 512);
    let step_y = step_for(band.height as int, 24);
    let columns = sampled_columns(picture, band, step_x);
    let rows = sampled_rows(picture, band, step_y);
    let hits = area_hits(
        picture,
        band.x as int,
        band.y as int,
        step_x,
        step_y,
        columns,
        rows,
        PixelTest::Distinctive(area_mode(picture, band)),
    );
    let share = fraction(hits, columns * rows);
    let padding = max_int(band.height as int / 2, 4);
    let first = max_int(max_int(band.y - padding, 0), min_int(rect.y + 1, u32::MAX as int));
    let last = min_int(
        min_int(band.bottom_edge(), rect.bottom_edge()),
        max_int(picture.height - 1, 0),
    );
    let strength = if first <= last {
        largest_strength(
            picture,
            first,
            (last - first + 1) as nat,
            band.x as int,
            band.right_edge(),
        )
    } else {
        zero()
    };
    &&& rect.width >= 240
    &&& rect.height >= 160
    &&& columns * rows > 0
    &&& share.at_least(fraction(3, 1000))
    &&& fraction(40, 100).at_least(share)
    &&& strength.at_least(whole(4))
}

pub fn looks_like_desktop_taskbar(picture: &Picture, rect: PixelRect) -> (result: bool)
    requires
        picture.well_formed(),
        picture@.holds(rect),
    ensures
        result == has_taskbar(picture@, rect),
{
    if rect.width < 240 || rect.height < 160 {
        return false;
    }
    let band_height: u32 = min_u32(clamp_u32(rect.height / 18, 20, 64), rect.height / 4);
    let band = PixelRect {
        x: rect.x,
        y: rect.bottom() - band_height,
        width: rect.width,
        height: band_height,
    };
    let base = estimate_region_mode(picture, band);
    let step_x: u32 = max_u32(band.width / 512, 1);
    let step_y: u32 = max_u32(band.height / 24, 1);
    let (samples, distinctive) = count_area(
        picture,
        band,
        step_x,
        step_y,
        PixelTest::Distinctive(base),
    );
    if samples == 0 {
        return false;
    }
    let share = ratio(distinctive, samples);
    let padding: u32 = max_u32(band.height / 2, 4);
    let first: u32 = max_u32(band.y.saturating_sub(padding), rect.y.saturating_add(1));
    let last: u32 = min_u32(
        min_u32(band.bottom(), rect.bottom()),
        picture.height.saturating_sub(1),
    );
    let mut strength = from_int(0);
    if first <= last {
        let count: u32 = last - first + 1;
        let mut done: u32 = 0;
        while done < count
            invariant
                picture.well_formed(),
                done <= count,
                first + count <= u32::MAX,
                strength == largest_strength(
                    picture@,
                    first as int,
                    done as nat,
                    band.x as int,
                    band.right_edge(),
                ),
                strength.is_canonical(),
            decreases count - done,
        {
            strength = strength.max(
                measure_boundary(picture, Axis::Horizontal, first + done, band.x, band.right()),
            );
            proof {
                assert((done + 1 - 1) as nat == done as nat);
            }
            done += 1;
        }
    }
    share.ge(ratio(3, 1000)) && ratio(40, 100).ge(share) && strength.ge(from_int(4))
}

/// Where a line differs from the one before it by the same amount everywhere, the boundary is
/// as strong as that; without a difference there is none.
pub proof fn law_boundaries_are_as_strong_as_the_difference(
    picture: Pixels,
    axis: Axis,
    position: int,
    start: int,
    end: int,
    difference: nat,
)
    requires
        0 < position < line_count(picture, axis),
        0 <= start < end <= line_length(picture, axis),
        end - start < 0x1_0000,
        difference <= 255,
        forall|along: int|
            start <= along < end ==> (#[trigger] picture.on_line(axis, position - 1, along)).gap(
                picture.on_line(axis, position, along),
            ) == 3 * difference,
    ensures
        boundary_strength(picture, axis, position, start, end) == whole(difference),
{
    let length = end - start;
    let step = step_for(length, 256);
    let samples = sample_count(length, step);
    law_samples_cover_the_stretch(length, step);
    assert(samples <= length) by {
        assert(samples - 1 <= (samples - 1) * step) by (nonlinear_arith)
            requires
                samples >= 1,
                step >= 1,
        ;
    }
    assert(samples * difference < 0x100_0000) by (nonlinear_arith)
        requires
            0 <= samples < 0x1_0000,
            0 <= difference <= 255,
    ;
    lemma_equal_steps(picture, axis, position, start, length, step, samples, difference);
    assert(difference * samples == samples * difference) by (nonlinear_arith);
    law_small_integers_divide(difference, samples);
}

proof fn lemma_equal_steps(
    picture: Pixels,
    axis: Axis,
    position: int,
    start: int,
    length: int,
    step: int,
    taken: nat,
    difference: nat,
)
    requires
        0 < length,
        0 < step,
        taken <= sample_count(length, step),
        taken * difference < 0x100_0000,
        difference <= 255,
        forall|along: int|
            start <= along < start + length ==> (#[trigger] picture.on_line(
                axis,
                position - 1,
                along,
            )).gap(picture.on_line(axis, position, along)) == 3 * difference,
    ensures
        boundary_sum(picture, axis, position, start, step, taken) == whole(taken * difference),
    decreases taken,
{
    if taken == 0 {
        assert(0 * difference == 0);
        law_small_integers_are_kept(0);
    } else {
        let before = (taken - 1) as nat;
        assert(taken * difference == before * difference + difference) by (nonlinear_arith)
            requires
                before == taken - 1,
        ;
        assert(before * difference >= 0) by (nonlinear_arith);
        lemma_equal_steps(picture, axis, position, start, length, step, before, difference);
        lemma_sample_on_stretch(length, step, taken - 1);
        let along = start + (taken - 1) * step;
        let here = picture.on_line(axis, position - 1, along);
        assert(here.gap(picture.on_line(axis, position, along)) == 3 * difference);
        law_small_integers_divide(difference, 3);
        assert(difference * 3 == 3 * difference);
        law_small_integers_are_kept((before * difference) as int);
        law_small_integers_are_kept(difference as int);
        law_small_integers_are_kept((taken * difference) as int);
        law_small_integers_add((before * difference) as int, difference as int);
    }
}

/// There is no boundary at the edges of a picture, nor along nothing.
pub proof fn law_edges_of_the_picture_are_no_boundaries(
    picture: Pixels,
    axis: Axis,
    position: int,
    start: int,
    end: int,
)
    ensures
        position <= 0 || position >= line_count(picture, axis) || end <= start
            ==> boundary_strength(picture, axis, position, start, end) == zero(),
        line_count(picture, Axis::Horizontal) == picture.height,
        line_count(picture, Axis::Vertical) == picture.width,
        line_length(picture, axis) == line_count(
            picture,
            match axis {
                Axis::Horizontal => Axis::Vertical,
                Axis::Vertical => Axis::Horizontal,
            },
        ),
{
}

/// The strongest boundary is one of those looked at, and none of them is stronger.
pub proof fn law_no_boundary_is_stronger(
    picture: Pixels,
    axis: Axis,
    first: int,
    count: nat,
    start: int,
    end: int,
)
    requires
        count > 0,
    ensures
        ({
            let found = strongest_from(picture, axis, first, count, start, end);
            let best = found->0;
            &&& found is Some
            &&& first <= best.0 < first + count
            &&& best.1 == boundary_strength(picture, axis, best.0, start, end)
            &&& forall|position: int|
                first <= position < first + count ==> best.1.at_least(
                    #[trigger] boundary_strength(picture, axis, position, start, end),
                )
        }),
    decreases count,
{
    let found = strongest_from(picture, axis, first, count, start, end);
    let best = found->0;
    let last = first + count - 1;
    let strength = boundary_strength(picture, axis, last, start, end);
    law_order_is_total(strength, strength);
    if count > 1 {
        law_no_boundary_is_stronger(picture, axis, first, (count - 1) as nat, start, end);
        let earlier = strongest_from(picture, axis, first, (count - 1) as nat, start, end)->0;
        let before = earlier.1;
        law_order_is_total(before, strength);
        assert forall|position: int| first <= position < first + count implies best.1.at_least(
            #[trigger] boundary_strength(picture, axis, position, start, end),
        ) by {
            let other = boundary_strength(picture, axis, position, start, end);
            if position < last && before.less(strength) {
                law_order_is_transitive(strength, before, other);
            }
        }
    } else {
        assert(strongest_from(picture, axis, first, 0, start, end) is None);
    }
}

/// An edge moves to the strongest boundary within the radius if that is strong enough, and
/// stays otherwise; it never moves further.
pub proof fn law_edges_move_to_the_strongest_boundary(
    picture: Pixels,
    axis: Axis,
    edge: int,
    radius: int,
    start: int,
    end: int,
    minimum: nat,
)
    requires
        1 <= edge < line_count(picture, axis),
        0 <= radius,
        edge + radius <= u32::MAX,
        start < end,
    ensures
        ({
            let moved = moved_edge(picture, axis, edge, radius, start, end, minimum);
            let enough = whole(minimum);
            &&& edge - radius <= moved <= edge + radius
            &&& (forall|position: int|
                edge - radius <= position <= edge + radius && 1 <= position < line_count(
                    picture,
                    axis,
                ) ==> !(#[trigger] boundary_strength(picture, axis, position, start, end)).at_least(
                    enough,
                )) ==> moved == edge
            &&& (exists|position: int|
                edge - radius <= position <= edge + radius && 1 <= position < line_count(
                    picture,
                    axis,
                ) && (#[trigger] boundary_strength(picture, axis, position, start, end)).at_least(
                    enough,
                )) ==> forall|position: int|
                edge - radius <= position <= edge + radius && 1 <= position < line_count(
                    picture,
                    axis,
                ) ==> boundary_strength(picture, axis, moved, start, end).at_least(
                    #[trigger] boundary_strength(picture, axis, position, start, end),
                )
        }),
{
    let first = max_int(edge - radius, 1);
    let last = min_int(min_int(edge + radius, u32::MAX as int), line_count(picture, axis) - 1);
    let count = (last - first + 1) as nat;
    law_no_boundary_is_stronger(picture, axis, first, count, start, end);
    let found = strongest_from(picture, axis, first, count, start, end)->0;
    let enough = whole(minimum);
    if exists|position: int|
        edge - radius <= position <= edge + radius && 1 <= position < line_count(picture, axis) && (
        #[trigger] boundary_strength(picture, axis, position, start, end)).at_least(enough) {
        let position = choose|position: int|
            edge - radius <= position <= edge + radius && 1 <= position < line_count(
                picture,
                axis,
            ) && (#[trigger] boundary_strength(picture, axis, position, start, end)).at_least(
                enough,
            );
        law_order_is_transitive(
            found.1,
            boundary_strength(picture, axis, position, start, end),
            enough,
        );
    }
}

/// An edge that is near the edge of the picture is moved there.
pub proof fn law_edges_near_the_picture_go_there(picture: Pixels, rect: PixelRect)
    requires
        picture.holds(rect),
        picture.width >= 2,
        picture.height >= 2,
        rect.width > 0,
        rect.height > 0,
    ensures
        rect.x <= 8 && rect.y <= 6 && rect.x + rect.width + 8 >= picture.width && rect.y
            + rect.height + 6 >= picture.height ==> snapped_to_edges(picture, rect)
            == picture.bounds(),
        8 <= edge_radius_x(picture) <= 40,
        6 <= edge_radius_y(picture) <= 28,
        512 <= picture.width <= 2560 ==> 64 * edge_radius_x(picture) <= picture.width,
{
}

/// The largest strength is that of the strongest row.
pub proof fn law_the_largest_strength_is_the_strongest(
    picture: Pixels,
    first: int,
    count: nat,
    left: int,
    right: int,
)
    ensures
        forall|row: int|
            first <= row < first + count ==> largest_strength(
                picture,
                first,
                count,
                left,
                right,
            ).at_least(
                #[trigger] boundary_strength(picture, Axis::Horizontal, row, left, right),
            ),
        largest_strength(picture, first, count, left, right).at_least(zero()),
    decreases count,
{
    let largest = largest_strength(picture, first, count, left, right);
    law_order_is_total(zero(), zero());
    if count > 0 {
        law_the_largest_strength_is_the_strongest(
            picture,
            first,
            (count - 1) as nat,
            left,
            right,
        );
        let before = largest_strength(picture, first, (count - 1) as nat, left, right);
        let last = boundary_strength(
            picture,
            Axis::Horizontal,
            first + count - 1,
            left,
            right,
        );
        law_the_smaller_is_above_neither(before, last);
        law_order_is_transitive(largest, before, zero());
        assert forall|row: int| first <= row < first + count implies largest.at_least(
            #[trigger] boundary_strength(picture, Axis::Horizontal, row, left, right),
        ) by {
            if row < first + count - 1 {
                law_order_is_transitive(
                    largest,
                    before,
                    boundary_strength(picture, Axis::Horizontal, row, left, right),
                );
            }
        }
    }
}

/// A taskbar is looked for in the lowest part of a rectangle, over its whole width, at most a
/// quarter of its height and 64 pixels; small rectangles have none.
pub proof fn law_taskbars_stand_at_the_bottom(picture: Pixels, rect: PixelRect)
    requires
        rect.y + rect.height <= u32::MAX,
    ensures
        taskbar_band(rect).x == rect.x && taskbar_band(rect).width == rect.width,
        taskbar_band(rect).y + taskbar_band(rect).height == rect.y + rect.height,
        taskbar_band(rect).height <= 64,
        4 * taskbar_band(rect).height <= rect.height,
        rect.height >= 160 ==> taskbar_band(rect).height >= 20,
        has_taskbar(picture, rect) ==> rect.width >= 240 && rect.height >= 160,
{
}

} // verus!
