//! Sampling of lines and areas: every `step`-th pixel, from the first one on.

use vstd::prelude::*;

use crate::detector::color::PixelTest;
use crate::detector::picture::{Axis, Picture, Pixels};
use crate::geometry::PixelRect;
use crate::numeric::{max_int, min_u32};

verus! {

/// Number of samples on a stretch.
pub open spec fn sample_count(length: int, step: int) -> nat {
    if length <= 0 || step <= 0 {
        0
    } else {
        ((length - 1) / step + 1) as nat
    }
}

/// The step that takes about `samples` samples of a stretch.
pub open spec fn step_for(length: int, samples: int) -> int {
    max_int(length / samples, 1)
}

/// A sample lies on its stretch, and the one behind the last does not.
pub proof fn lemma_sample_on_stretch(length: int, step: int, taken: int)
    requires
        0 < length,
        0 < step,
        0 <= taken,
    ensures
        (taken * step < length) == (taken < sample_count(length, step)),
        taken * step >= 0,
{
    let last = (length - 1) / step;
    vstd::arithmetic::div_mod::lemma_fundamental_div_mod(length - 1, step);
    let rest = (length - 1) % step;
    assert(last * step == step * last) by (nonlinear_arith);
    assert(taken * step >= 0) by (nonlinear_arith)
        requires
            taken >= 0,
            step > 0,
    ;
    if taken <= last {
        assert(taken * step <= last * step) by (nonlinear_arith)
            requires
                taken <= last,
                step > 0,
        ;
    } else {
        assert(taken * step >= (last + 1) * step) by (nonlinear_arith)
            requires
                taken >= last + 1,
                step > 0,
        ;
        assert((last + 1) * step == last * step + step) by (nonlinear_arith);
    }
}

/// How many of the first `taken` samples of a line pass a test.
pub open spec fn line_hits(
    picture: Pixels,
    axis: Axis,
    fixed: int,
    start: int,
    step: int,
    taken: nat,
    test: PixelTest,
) -> nat
    decreases taken,
{
    if taken == 0 {
        0
    } else {
        let before = line_hits(picture, axis, fixed, start, step, (taken - 1) as nat, test);
        if test.holds(picture.on_line(axis, fixed, start + (taken - 1) * step)) {
            before + 1
        } else {
            before
        }
    }
}

/// Counts the samples of a line, and those that pass a test.
pub fn count_line(
    picture: &Picture,
    axis: Axis,
    fixed: u32,
    start: u32,
    end: u32,
    step: u32,
    test: PixelTest,
) -> (result: (u32, u32))
    requires
        picture.well_formed(),
        step > 0,
        start < end ==> picture@.has_line(axis, fixed as int, end as int),
    ensures
        result.0 == sample_count(end - start, step as int),
        result.1 == line_hits(
            picture@,
            axis,
            fixed as int,
            start as int,
            step as int,
            result.0 as nat,
            test,
        ),
        result.1 <= result.0,
{
    let mut samples: u32 = 0;
    let mut matches: u32 = 0;
    if start >= end {
        return (0, 0);
    }
    let length: u32 = end - start;
    let mut cursor: u32 = start;
    proof {
        lemma_sample_on_stretch(length as int, step as int, 0);
    }
    while cursor < end
        invariant
            picture.well_formed(),
            step > 0,
            start < end,
            length == end - start,
            picture@.has_line(axis, fixed as int, end as int),
            start <= cursor,
            samples <= sample_count(length as int, step as int),
            cursor < end ==> cursor == start + samples * step,
            cursor < end ==> samples <= cursor - start,
            (cursor < end) == (samples < sample_count(length as int, step as int)),
            matches <= samples,
            sample_count(length as int, step as int) <= length,
            matches == line_hits(
                picture@,
                axis,
                fixed as int,
                start as int,
                step as int,
                samples as nat,
                test,
            ),
        decreases sample_count(length as int, step as int) - samples,
    {
        if test.check(picture.line_pixel(axis, fixed, cursor)) {
            matches += 1;
        }
        proof {
            assert((samples + 1 - 1) as nat == samples as nat);
            lemma_sample_on_stretch(length as int, step as int, samples + 1);
            assert((samples + 1) * step == samples * step + step) by (nonlinear_arith);
        }
        samples += 1;
        cursor = cursor.saturating_add(step);
    }
    (samples, matches)
}

/// How many of the first samples of an area pass a test, over its first `rows` sampled
/// rows.
pub open spec fn area_hits(
    picture: Pixels,
    left: int,
    top: int,
    step_x: int,
    step_y: int,
    columns: nat,
    rows: nat,
    test: PixelTest,
) -> nat
    decreases rows,
{
    if rows == 0 {
        0
    } else {
        area_hits(picture, left, top, step_x, step_y, columns, (rows - 1) as nat, test)
            + line_hits(
            picture,
            Axis::Horizontal,
            top + (rows - 1) * step_y,
            left,
            step_x,
            columns,
            test,
        )
    }
}

/// The part of a rectangle inside a picture, as its end columns and rows.
pub open spec fn cut_right(picture: Pixels, rect: PixelRect) -> int {
    crate::numeric::min_int(rect.right_edge(), picture.width as int)
}

pub open spec fn cut_bottom(picture: Pixels, rect: PixelRect) -> int {
    crate::numeric::min_int(rect.bottom_edge(), picture.height as int)
}

/// Numbers of sampled columns and rows of a rectangle inside a picture.
pub open spec fn sampled_columns(picture: Pixels, rect: PixelRect, step: int) -> nat {
    sample_count(cut_right(picture, rect) - rect.x, step)
}

pub open spec fn sampled_rows(picture: Pixels, rect: PixelRect, step: int) -> nat {
    sample_count(cut_bottom(picture, rect) - rect.y, step)
}

/// Counts the samples of an area, and those that pass a test.
pub fn count_area(
    picture: &Picture,
    rect: PixelRect,
    step_x: u32,
    step_y: u32,
    test: PixelTest,
) -> (result: (u64, u64))
    requires
        picture.well_formed(),
        step_x > 0,
        step_y > 0,
    ensures
        ({
            let columns = sampled_columns(picture@, rect, step_x as int);
            let rows = sampled_rows(picture@, rect, step_y as int);
            &&& result.0 == columns * rows
            &&& result.1 == area_hits(
                picture@,
                rect.x as int,
                rect.y as int,
                step_x as int,
                step_y as int,
                columns,
                rows,
                test,
            )
        }),
{
    let right: u32 = min_u32(rect.right(), picture.width);
    let bottom: u32 = min_u32(rect.bottom(), picture.height);
    let ghost columns = sampled_columns(picture@, rect, step_x as int);
    let ghost rows = sampled_rows(picture@, rect, step_y as int);
    let mut samples: u64 = 0;
    let mut matches: u64 = 0;
    let mut y: u32 = rect.y;
    let mut done: u32 = 0;
    proof {
        assert(columns * 0 == 0);
        if rect.y < bottom {
            lemma_sample_on_stretch(bottom - rect.y, step_y as int, 0);
        }
        lemma_few_samples(right - rect.x, step_x as int);
        lemma_few_samples(bottom - rect.y, step_y as int);
    }
    while y < bottom
        invariant
            picture.well_formed(),
            step_x > 0,
            step_y > 0,
            right == cut_right(picture@, rect),
            bottom == cut_bottom(picture@, rect),
            columns == sampled_columns(picture@, rect, step_x as int),
            rows == sampled_rows(picture@, rect, step_y as int),
            columns <= u32::MAX,
            rows <= u32::MAX,
            rect.y <= y,
            done <= rows,
            (y < bottom) == (done < rows),
            y < bottom ==> y == rect.y + done * step_y,
            samples == columns * done,
            matches <= samples,
            matches == area_hits(
                picture@,
                rect.x as int,
                rect.y as int,
                step_x as int,
                step_y as int,
                columns,
                done as nat,
                test,
            ),
        decreases rows - done,
    {
        let (line_samples, line_matches) = count_line(
            picture,
            Axis::Horizontal,
            y,
            rect.x,
            right,
            step_x,
            test,
        );
        proof {
            assert(columns * (done + 1) == columns * done + columns) by (nonlinear_arith);
            assert(columns * (done + 1) <= u32::MAX * u32::MAX) by (nonlinear_arith)
                requires
                    0 <= columns <= u32::MAX,
                    0 <= done + 1 <= u32::MAX,
            ;
            lemma_sample_on_stretch(bottom - rect.y, step_y as int, done + 1);
            assert((done + 1) * step_y == done * step_y + step_y) by (nonlinear_arith);
            assert((done + 1 - 1) as nat == done as nat);
        }
        samples += line_samples as u64;
        matches += line_matches as u64;
        done += 1;
        y = y.saturating_add(step_y);
    }
    (samples, matches)
}

pub proof fn lemma_few_samples(length: int, step: int)
    requires
        step > 0,
    ensures
        length > 0 ==> sample_count(length, step) <= length,
        length <= 0 ==> sample_count(length, step) == 0,
{
    if length > 0 {
        vstd::arithmetic::div_mod::lemma_fundamental_div_mod(length - 1, step);
        let last = (length - 1) / step;
        assert(last <= step * last) by (nonlinear_arith)
            requires
                step >= 1,
                last >= 0,
        ;
    }
}

/// Samples reach to the end of their stretch and not beyond: the last one lies on it, and one
/// more would not.
pub proof fn law_samples_cover_the_stretch(length: int, step: int)
    requires
        length > 0,
        step > 0,
    ensures
        sample_count(length, step) >= 1,
        (sample_count(length, step) - 1) * step < length <= sample_count(length, step) * step,
        sample_count(0, step) == 0,
        sample_count(length, 1) == length,
{
    let count = sample_count(length, step) as int;
    lemma_sample_on_stretch(length, step, count);
    vstd::arithmetic::div_mod::lemma_div_pos_is_pos(length - 1, step);
    lemma_sample_on_stretch(length, step, count - 1);
    assert((length - 1) / 1 == length - 1);
}

/// The step is never nothing, and takes at least as many samples as were asked for where
/// there are as many.
pub proof fn law_steps_take_enough_samples(length: int, samples: int)
    requires
        0 <= length,
        0 < samples,
    ensures
        step_for(length, samples) >= 1,
        length < 2 * samples ==> step_for(length, samples) == 1,
        length >= samples ==> step_for(length, samples) * samples <= length,
        length >= samples ==> length < (step_for(length, samples) + 1) * samples,
{
    vstd::arithmetic::div_mod::lemma_fundamental_div_mod(length, samples);
    let q = length / samples;
    assert(samples * q == q * samples) by (nonlinear_arith);
    assert((q + 1) * samples == q * samples + samples) by (nonlinear_arith);
    if length >= samples {
        assert(q >= 1) by (nonlinear_arith)
            requires
                length == samples * q + length % samples,
                0 <= length % samples < samples,
                length >= samples,
                samples > 0,
        ;
    }
    if length < 2 * samples {
        assert(q <= 1) by (nonlinear_arith)
            requires
                length == samples * q + length % samples,
                0 <= length % samples,
                length < 2 * samples,
                samples > 0,
        ;
    }
}

/// As many samples of a line pass as there are pixels at the sampled places that do: none
/// where none does, all where all do, one more for each one more that does.
pub proof fn law_lines_count_what_passes(
    picture: Pixels,
    axis: Axis,
    fixed: int,
    start: int,
    step: int,
    taken: nat,
    test: PixelTest,
)
    ensures
        line_hits(picture, axis, fixed, start, step, taken, test) <= taken,
        (forall|k: int|
            0 <= k < taken ==> test.holds(
                #[trigger] picture.on_line(axis, fixed, start + k * step),
            )) ==> line_hits(picture, axis, fixed, start, step, taken, test) == taken,
        (forall|k: int|
            0 <= k < taken ==> !test.holds(
                #[trigger] picture.on_line(axis, fixed, start + k * step),
            )) ==> line_hits(picture, axis, fixed, start, step, taken, test) == 0,
        line_hits(picture, axis, fixed, start, step, taken + 1, test) == line_hits(
            picture,
            axis,
            fixed,
            start,
            step,
            taken,
            test,
        ) + if test.holds(picture.on_line(axis, fixed, start + taken * step)) {
            1int
        } else {
            0
        },
    decreases taken,
{
    if taken > 0 {
        law_lines_count_what_passes(picture, axis, fixed, start, step, (taken - 1) as nat, test);
        let last = picture.on_line(axis, fixed, start + (taken - 1) * step);
        if forall|k: int|
            0 <= k < taken ==> test.holds(
                #[trigger] picture.on_line(axis, fixed, start + k * step),
            ) {
            assert(test.holds(last));
        }
        if forall|k: int|
            0 <= k < taken ==> !test.holds(
                #[trigger] picture.on_line(axis, fixed, start + k * step),
            ) {
            assert(!test.holds(last));
        }
    }
}

/// An area counts the samples of each of its sampled rows.
pub proof fn law_areas_count_their_rows(
    picture: Pixels,
    left: int,
    top: int,
    step_x: int,
    step_y: int,
    columns: nat,
    rows: nat,
    test: PixelTest,
)
    ensures
        area_hits(picture, left, top, step_x, step_y, columns, rows, test) <= columns * rows,
        area_hits(picture, left, top, step_x, step_y, columns, 0, test) == 0,
        area_hits(picture, left, top, step_x, step_y, columns, rows + 1, test) == area_hits(
            picture,
            left,
            top,
            step_x,
            step_y,
            columns,
            rows,
            test,
        ) + line_hits(
            picture,
            Axis::Horizontal,
            top + rows * step_y,
            left,
            step_x,
            columns,
            test,
        ),
    decreases rows,
{
    assert(columns * 0 == 0);
    if rows > 0 {
        law_areas_count_their_rows(
            picture,
            left,
            top,
            step_x,
            step_y,
            columns,
            (rows - 1) as nat,
            test,
        );
        law_lines_count_what_passes(
            picture,
            Axis::Horizontal,
            top + (rows - 1) * step_y,
            left,
            step_x,
            columns,
            test,
        );
        let r = rows as int;
        let c = columns as int;
        assert(c * (r - 1) + c == c * r) by (nonlinear_arith);
    }
}

/// The part of a rectangle that is sampled lies in the rectangle and in the picture, and a
/// rectangle inside the picture is sampled whole.
pub proof fn law_rectangles_are_cut_at_the_picture(picture: Pixels, rect: PixelRect)
    ensures
        cut_right(picture, rect) <= picture.width,
        cut_bottom(picture, rect) <= picture.height,
        cut_right(picture, rect) <= rect.x + rect.width,
        cut_bottom(picture, rect) <= rect.y + rect.height,
        picture.holds(rect) ==> cut_right(picture, rect) == rect.x + rect.width
            && cut_bottom(picture, rect) == rect.y + rect.height,
        picture.holds(rect) ==> sampled_columns(picture, rect, 1) == rect.width
            && sampled_rows(picture, rect, 1) == rect.height,
{
    if rect.width > 0 {
        assert((rect.width - 1) / 1 == rect.width - 1);
    }
    if rect.height > 0 {
        assert((rect.height - 1) / 1 == rect.height - 1);
    }
}

} // verus!
