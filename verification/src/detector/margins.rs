//! Margins of one colour around content, and how they are cut away.

use vstd::prelude::*;

use crate::detector::analysis::{analysis_of, lemma_analysis_size, AnalysisFrame};
use crate::detector::background::{edge_background, estimate_background_from_perimeter};
use crate::detector::color::{Color, PixelTest};
use crate::detector::edges::{has_taskbar, looks_like_desktop_taskbar};
use crate::detector::picture::{Axis, Picture, Pixels};
use crate::detector::projection::{
    between, detect_projection_candidate, is_between, law_projected_content_lies_inside,
    projected_content, ContentCandidate,
};
use crate::detector::sampling::{
    count_line, law_lines_count_what_passes, law_samples_cover_the_stretch,
    lemma_sample_on_stretch, line_hits, sample_count, step_for,
};
use crate::geometry::PixelRect;
use crate::numeric::{abs_diff_u32, abs_int, max_int, max_u32, max_u64, min_int, min_u32};
use crate::single::{
    fraction, law_larger_shares_reach_smaller_ones, law_shares_are_compared_by_their_parts,
    law_whole_share_is_one, lemma_fraction_of_nothing, ratio,
};

verus! {

/// What makes a line part of the margin.
#[derive(Clone, Copy, Debug, PartialEq, Eq, Structural)]
pub enum Margin {
    /// Nearly all of it is close to the colour.
    Uniform(Color),
    /// Most of it is gray and very close to the colour.
    Stage(Color),
}

impl Margin {
    pub open spec fn test(self) -> PixelTest {
        match self {
            Margin::Uniform(color) => PixelTest::Near(color),
            Margin::Stage(color) => PixelTest::GrayNear(color),
        }
    }

    pub open spec fn enough(self, hits: nat, samples: nat) -> bool {
        match self {
            Margin::Uniform(_) => fraction(hits, samples).at_least(fraction(92, 100)),
            Margin::Stage(_) => hits * 100 >= samples * 91,
        }
    }
}

/// Where the lines of a rectangle begin.
pub open spec fn along_start(rect: PixelRect, axis: Axis) -> int {
    match axis {
        Axis::Horizontal => rect.x as int,
        Axis::Vertical => rect.y as int,
    }
}

/// Length of the lines of a rectangle.
pub open spec fn along_length(rect: PixelRect, axis: Axis) -> int {
    match axis {
        Axis::Horizontal => rect.width as int,
        Axis::Vertical => rect.height as int,
    }
}

/// Number of lines of a rectangle.
pub open spec fn depth(rect: PixelRect, axis: Axis) -> int {
    match axis {
        Axis::Horizontal => rect.height as int,
        Axis::Vertical => rect.width as int,
    }
}

/// A line of a rectangle, counted from its first or its last one.
pub open spec fn line_place(rect: PixelRect, axis: Axis, from_start: bool, offset: int) -> int {
    let first = match axis {
        Axis::Horizontal => rect.y as int,
        Axis::Vertical => rect.x as int,
    };
    if from_start {
        first + offset
    } else {
        first + depth(rect, axis) - 1 - offset
    }
}

/// A line belongs to the margin.
pub open spec fn is_margin_line(
    picture: Pixels,
    rect: PixelRect,
    axis: Axis,
    fixed: int,
    margin: Margin,
) -> bool {
    let length = along_length(rect, axis);
    let step = step_for(length, 256);
    let samples = sample_count(length, step);
    &&& length > 0
    &&& margin.enough(
        line_hits(picture, axis, fixed, along_start(rect, axis), step, samples, margin.test()),
        samples,
    )
}

/// Tells whether a line belongs to the margin.
pub fn line_matches_background(
    picture: &Picture,
    rect: PixelRect,
    axis: Axis,
    fixed: u32,
    margin: Margin,
) -> (result: bool)
    requires
        picture.well_formed(),
        picture@.holds(rect),
        picture@.has_line(axis, fixed as int, 0),
    ensures
        result == is_margin_line(picture@, rect, axis, fixed as int, margin),
{
    let (start, length): (u32, u32) = match axis {
        Axis::Horizontal => (rect.x, rect.width),
        Axis::Vertical => (rect.y, rect.height),
    };
    if length == 0 {
        return false;
    }
    let step: u32 = max_u32(length / 256, 1);
    let test = match margin {
        Margin::Uniform(color) => PixelTest::Near(color),
        Margin::Stage(color) => PixelTest::GrayNear(color),
    };
    let (samples, hits): (u32, u32) = count_line(
        picture,
        axis,
        fixed,
        start,
        start + length,
        step,
        test,
    );
    match margin {
        Margin::Uniform(_) => ratio(hits as u64, samples as u64).ge(ratio(92, 100)),
        Margin::Stage(_) => hits as u64 * 100 >= samples as u64 * 91,
    }
}

/// Number of lines of the margin from one side on, up to a limit, where `offset` lines are
/// known to belong to it.
pub open spec fn margin_run(
    picture: Pixels,
    rect: PixelRect,
    axis: Axis,
    from_start: bool,
    margin: Margin,
    offset: int,
    limit: int,
) -> int
    decreases limit - offset,
{
    if offset >= limit || !is_margin_line(
        picture,
        rect,
        axis,
        line_place(rect, axis, from_start, offset),
        margin,
    ) {
        offset
    } else {
        margin_run(picture, rect, axis, from_start, margin, offset + 1, limit)
    }
}

/// Counts the lines of the margin from one side on.
pub fn background_run(
    picture: &Picture,
    rect: PixelRect,
    axis: Axis,
    from_start: bool,
    margin: Margin,
    limit: u32,
) -> (result: u32)
    requires
        picture.well_formed(),
        picture@.holds(rect),
        limit <= depth(rect, axis),
    ensures
        result == margin_run(picture@, rect, axis, from_start, margin, 0, limit as int),
        result <= limit,
{
    let mut run: u32 = 0;
    let mut more = true;
    while more && run < limit
        invariant
            picture.well_formed(),
            picture@.holds(rect),
            run <= limit <= depth(rect, axis),
            more ==> margin_run(picture@, rect, axis, from_start, margin, 0, limit as int)
                == margin_run(
                picture@,
                rect,
                axis,
                from_start,
                margin,
                run as int,
                limit as int,
            ),
            !more ==> run == margin_run(
                picture@,
                rect,
                axis,
                from_start,
                margin,
                0,
                limit as int,
            ),
        decreases limit - run + if more {
            1int
        } else {
            0int
        },
    {
        let (first, lines): (u32, u32) = match axis {
            Axis::Horizontal => (rect.y, rect.height),
            Axis::Vertical => (rect.x, rect.width),
        };
        let fixed: u32 = if from_start { first + run } else { first + (lines - 1 - run) };
        if line_matches_background(picture, rect, axis, fixed, margin) {
            run += 1;
        } else {
            more = false;
        }
    }
    run
}

/// Number of lines to cut from one side: a run that ends before the limit and is no accident.
pub open spec fn uniform_trim(
    picture: Pixels,
    rect: PixelRect,
    axis: Axis,
    from_start: bool,
    color: Color,
    limit: int,
) -> int {
    let run = margin_run(picture, rect, axis, from_start, Margin::Uniform(color), 0, limit);
    if limit < 2 || depth(rect, axis) <= limit + 2 || run < 2 || run >= limit {
        0
    } else {
        run
    }
}

fn find_uniform_trim(
    picture: &Picture,
    rect: PixelRect,
    axis: Axis,
    from_start: bool,
    color: Color,
    limit: u32,
) -> (result: u32)
    requires
        picture.well_formed(),
        picture@.holds(rect),
        limit <= 80,
    ensures
        result == uniform_trim(picture@, rect, axis, from_start, color, limit as int),
        result <= limit,
{
    let lines: u32 = match axis {
        Axis::Horizontal => rect.height,
        Axis::Vertical => rect.width,
    };
    if limit < 2 || lines <= limit + 2 {
        return 0;
    }
    let run: u32 = background_run(picture, rect, axis, from_start, Margin::Uniform(color), limit);
    if run < 2 || run >= limit {
        0
    } else {
        run
    }
}

/// A rectangle without lines of its top and bottom.
pub open spec fn cut_rows(rect: PixelRect, top: int, bottom: int) -> PixelRect {
    PixelRect {
        x: rect.x,
        y: (rect.y + top) as u32,
        width: rect.width,
        height: (rect.height - top - bottom) as u32,
    }
}

/// A rectangle without columns of its left and right.
pub open spec fn cut_columns(rect: PixelRect, left: int, right: int) -> PixelRect {
    PixelRect {
        x: (rect.x + left) as u32,
        y: rect.y,
        width: (rect.width - left - right) as u32,
        height: rect.height,
    }
}

/// Most lines that are cut from one side.
pub open spec fn trim_limit(lines: int) -> int {
    min_int(lines / 8, 80)
}

/// A rectangle without its top and bottom margin. A taskbar at the bottom stays.
pub open spec fn without_row_margins(picture: Pixels, rect: PixelRect) -> PixelRect {
    let color = edge_background(picture);
    let limit = trim_limit(rect.height as int);
    cut_rows(
        rect,
        uniform_trim(picture, rect, Axis::Horizontal, true, color, limit),
        if has_taskbar(picture, rect) {
            0
        } else {
            uniform_trim(picture, rect, Axis::Horizontal, false, color, limit)
        },
    )
}

/// A rectangle without its margins, unless less than half of it would be left.
pub open spec fn without_margins(picture: Pixels, rect: PixelRect) -> PixelRect {
    let color = edge_background(picture);
    let rows = without_row_margins(picture, rect);
    let limit = trim_limit(rect.width as int);
    let cut = cut_columns(
        rows,
        uniform_trim(picture, rows, Axis::Vertical, true, color, limit),
        uniform_trim(picture, rows, Axis::Vertical, false, color, limit),
    );
    if cut.pixel_count() * 2 >= rect.pixel_count() {
        cut
    } else {
        rect
    }
}

/// The surface that the projections show is a good part of the rectangle, and its edges or
/// its shape say that the rest are bands beside it.
pub open spec fn is_surface_of(surface: ContentCandidate, rect: PixelRect) -> bool {
    let inner = surface.rect;
    let common = rect.common_part(inner);
    let tolerance_x = max_int(rect.width as int / 30, 6);
    let tolerance_y = max_int(rect.height as int / 30, 6);
    &&& surface.confidence.at_least(fraction(86, 100))
    &&& common is Some
    &&& common->0.pixel_count() * 100 >= inner.pixel_count() * 96
    &&& between(
        fraction(inner.pixel_count() as nat, max_int(rect.pixel_count(), 1) as nat),
        20,
        97,
    )
    &&& {
        ||| abs_int(inner.x - rect.x) <= tolerance_x && abs_int(
            inner.right_edge() - rect.right_edge(),
        ) <= tolerance_x
        ||| abs_int(inner.y - rect.y) <= tolerance_y && abs_int(
            inner.bottom_edge() - rect.bottom_edge(),
        ) <= tolerance_y
        ||| inner.width * 100 <= rect.width * 94 && inner.height * 100 >= rect.height * 72
        ||| inner.height * 100 <= rect.height * 94 && inner.width * 100 >= rect.width * 72
    }
}

/// A rectangle, or the surface inside it that the projections show.
pub open spec fn snapped_to_surface(picture: Pixels, rect: PixelRect) -> PixelRect {
    match analysis_of(picture) {
        Some(analysis) => match projected_content(picture, analysis) {
            Some(surface) => if is_surface_of(surface, rect) {
                surface.rect
            } else {
                rect
            },
            None => rect,
        },
        None => rect,
    }
}

/// A rectangle without its margins, or the surface inside it.
pub open spec fn uniform_margins(picture: Pixels, rect: PixelRect) -> PixelRect {
    snapped_to_surface(picture, without_margins(picture, rect))
}

/// Tells whether the surface can take the place of a rectangle around it.
pub fn accepts_surface(surface: ContentCandidate, rect: PixelRect) -> (result: bool)
    ensures
        result == is_surface_of(surface, rect),
{
    let inner = surface.rect;
    if surface.confidence.lt(ratio(86, 100)) {
        return false;
    }
    let common = match rect.intersection(inner) {
        Some(common) => common,
        None => return false,
    };
    if (common.area() as u128 * 100) < inner.area() as u128 * 96 {
        return false;
    }
    let share = ratio(inner.area(), max_u64(rect.area(), 1));
    if !is_between(share, 20, 97) {
        return false;
    }
    let tolerance_x: u32 = max_u32(rect.width / 30, 6);
    let tolerance_y: u32 = max_u32(rect.height / 30, 6);
    let left_aligned = abs_diff_u32(inner.x, rect.x) <= tolerance_x;
    let right_aligned = abs_diff_u32(inner.right(), rect.right()) <= tolerance_x;
    let top_aligned = abs_diff_u32(inner.y, rect.y) <= tolerance_y;
    let bottom_aligned = abs_diff_u32(inner.bottom(), rect.bottom()) <= tolerance_y;
    let opposite_edges_aligned = (left_aligned && right_aligned) || (top_aligned
        && bottom_aligned);
    let removes_side_band = inner.width as u64 * 100 <= rect.width as u64 * 94
        && inner.height as u64 * 100 >= rect.height as u64 * 72;
    let removes_top_band = inner.height as u64 * 100 <= rect.height as u64 * 94
        && inner.width as u64 * 100 >= rect.width as u64 * 72;
    opposite_edges_aligned || removes_side_band || removes_top_band
}

/// Puts the surface that the projections show in the place of a rectangle around it.
pub fn snap_to_projected_surface(picture: &Picture, rect: PixelRect) -> (result: PixelRect)
    requires
        picture.well_formed(),
    ensures
        result == snapped_to_surface(picture@, rect),
{
    let frame = match AnalysisFrame::new(picture) {
        Some(frame) => frame,
        None => return rect,
    };
    match detect_projection_candidate(picture, &frame) {
        Some(surface) => if accepts_surface(surface, rect) {
            surface.rect
        } else {
            rect
        },
        None => rect,
    }
}

/// Cuts the margins of one colour off a rectangle.
pub fn refine_uniform_margins(picture: &Picture, rect: PixelRect) -> (result: PixelRect)
    requires
        picture.well_formed(),
        picture@.holds(rect),
    ensures
        result == uniform_margins(picture@, rect),
        picture@.holds(result),
{
    let color = estimate_background_from_perimeter(picture);
    let row_limit: u32 = min_u32(rect.height / 8, 80);
    let column_limit: u32 = min_u32(rect.width / 8, 80);
    let top: u32 = find_uniform_trim(picture, rect, Axis::Horizontal, true, color, row_limit);
    let bottom: u32 = if looks_like_desktop_taskbar(picture, rect) {
        0
    } else {
        find_uniform_trim(picture, rect, Axis::Horizontal, false, color, row_limit)
    };
    let rows = PixelRect::new(rect.x, rect.y + top, rect.width, rect.height - top - bottom);
    let left: u32 = find_uniform_trim(picture, rows, Axis::Vertical, true, color, column_limit);
    let right: u32 = find_uniform_trim(picture, rows, Axis::Vertical, false, color, column_limit);
    let cut = PixelRect::new(rows.x + left, rows.y, rows.width - left - right, rows.height);
    proof {
        law_margins_stay_inside(picture@, rect);
    }
    let refined = if cut.area() as u128 * 2 >= rect.area() as u128 { cut } else { rect };
    snap_to_projected_surface(picture, refined)
}

/// A run does not go past its limit.
pub proof fn lemma_margin_run(
    picture: Pixels,
    rect: PixelRect,
    axis: Axis,
    from_start: bool,
    margin: Margin,
    offset: int,
    limit: int,
)
    requires
        0 <= offset <= limit,
    ensures
        offset <= margin_run(picture, rect, axis, from_start, margin, offset, limit) <= limit,
    decreases limit - offset,
{
    if offset < limit {
        lemma_margin_run(picture, rect, axis, from_start, margin, offset + 1, limit);
    }
}

proof fn lemma_uniform_trim(
    picture: Pixels,
    rect: PixelRect,
    axis: Axis,
    from_start: bool,
    color: Color,
    lines: int,
)
    requires
        lines >= 0,
    ensures
        0 <= uniform_trim(picture, rect, axis, from_start, color, trim_limit(lines)) <= lines / 8,
{
    lemma_margin_run(
        picture,
        rect,
        axis,
        from_start,
        Margin::Uniform(color),
        0,
        trim_limit(lines),
    );
}

/// A rectangle of a picture stays inside the picture when its margins are cut off.
pub proof fn law_margins_stay_inside(picture: Pixels, rect: PixelRect)
    requires
        picture.holds(rect),
    ensures
        picture.holds(uniform_margins(picture, rect)),
{
    let color = edge_background(picture);
    let rows = without_row_margins(picture, rect);
    let height = rect.height as int;
    let width = rect.width as int;
    lemma_uniform_trim(picture, rect, Axis::Horizontal, true, color, height);
    lemma_uniform_trim(picture, rect, Axis::Horizontal, false, color, height);
    lemma_uniform_trim(picture, rows, Axis::Vertical, true, color, width);
    lemma_uniform_trim(picture, rows, Axis::Vertical, false, color, width);
    assert(picture.holds(without_margins(picture, rect)));
    if analysis_of(picture) is Some {
        lemma_analysis_size(picture);
        let analysis = analysis_of(picture)->0;
        if projected_content(picture, analysis) is Some {
            law_projected_content_lies_inside(picture, analysis);
        }
    }
}

/// A line whose samples all have the colour of the margin is part of it, and one that has none
/// is not.
pub proof fn law_lines_of_one_colour_are_margin(
    picture: Pixels,
    rect: PixelRect,
    axis: Axis,
    fixed: int,
    margin: Margin,
)
    requires
        0 < along_length(rect, axis) < 0x100_0000,
    ensures
        (forall|along: int|
            along_start(rect, axis) <= along < along_start(rect, axis) + along_length(rect, axis)
                ==> margin.test().holds(#[trigger] picture.on_line(axis, fixed, along)))
            ==> is_margin_line(picture, rect, axis, fixed, margin),
        (forall|along: int|
            along_start(rect, axis) <= along < along_start(rect, axis) + along_length(rect, axis)
                ==> !margin.test().holds(#[trigger] picture.on_line(axis, fixed, along)))
            ==> !is_margin_line(picture, rect, axis, fixed, margin),
{
    let length = along_length(rect, axis);
    let start = along_start(rect, axis);
    let step = step_for(length, 256);
    let samples = sample_count(length, step);
    law_samples_cover_the_stretch(length, step);
    law_lines_count_what_passes(picture, axis, fixed, start, step, samples, margin.test());
    if forall|along: int|
        start <= along < start + length ==> margin.test().holds(
            #[trigger] picture.on_line(axis, fixed, along),
        ) {
        assert forall|k: int| 0 <= k < samples implies margin.test().holds(
            #[trigger] picture.on_line(axis, fixed, start + k * step),
        ) by {
            lemma_sample_on_stretch(length, step, k);
            let along = start + k * step;
            assert(start <= along < start + length);
        }
    }
    if forall|along: int|
        start <= along < start + length ==> !margin.test().holds(
            #[trigger] picture.on_line(axis, fixed, along),
        ) {
        assert forall|k: int| 0 <= k < samples implies !margin.test().holds(
            #[trigger] picture.on_line(axis, fixed, start + k * step),
        ) by {
            lemma_sample_on_stretch(length, step, k);
            let along = start + k * step;
            assert(start <= along < start + length);
        }
    }
    assert(samples <= length) by {
        assert((samples - 1) * step < length);
        assert(samples - 1 <= (samples - 1) * step) by (nonlinear_arith)
            requires
                samples >= 1,
                step >= 1,
        ;
    }
    law_whole_share_is_one(samples);
    law_whole_share_is_one(100);
    law_shares_are_compared_by_their_parts(100, 92, 100);
    law_shares_are_compared_by_their_parts(0, 92, 100);
    lemma_fraction_of_nothing(samples);
    lemma_fraction_of_nothing(100);
}

/// The margin of a side is its first lines, as far as they are margin: every line before the
/// end of the run is, and the one there is not, unless the limit is reached.
pub proof fn law_margins_end_at_the_first_other_line(
    picture: Pixels,
    rect: PixelRect,
    axis: Axis,
    from_start: bool,
    margin: Margin,
    offset: int,
    limit: int,
)
    requires
        offset <= limit,
    ensures
        ({
            let run = margin_run(picture, rect, axis, from_start, margin, offset, limit);
            &&& offset <= run <= limit
            &&& forall|k: int|
                offset <= k < run ==> is_margin_line(
                    picture,
                    rect,
                    axis,
                    #[trigger] line_place(rect, axis, from_start, k),
                    margin,
                )
            &&& run < limit ==> !is_margin_line(
                picture,
                rect,
                axis,
                line_place(rect, axis, from_start, run),
                margin,
            )
        }),
    decreases limit - offset,
{
    if offset < limit && is_margin_line(
        picture,
        rect,
        axis,
        line_place(rect, axis, from_start, offset),
        margin,
    ) {
        law_margins_end_at_the_first_other_line(
            picture,
            rect,
            axis,
            from_start,
            margin,
            offset + 1,
            limit,
        );
    }
}

/// Lines are counted from the side: the first of the start is the first of the rectangle, the
/// first of the end its last, and each further one lies further inside.
pub proof fn law_lines_are_counted_from_the_side(rect: PixelRect, axis: Axis, offset: int)
    ensures
        line_place(rect, Axis::Horizontal, true, 0) == rect.y,
        line_place(rect, Axis::Vertical, true, 0) == rect.x,
        line_place(rect, Axis::Horizontal, false, 0) == rect.y + rect.height - 1,
        line_place(rect, Axis::Vertical, false, 0) == rect.x + rect.width - 1,
        line_place(rect, axis, true, offset + 1) == line_place(rect, axis, true, offset) + 1,
        line_place(rect, axis, false, offset + 1) == line_place(rect, axis, false, offset) - 1,
        depth(rect, Axis::Horizontal) == rect.height && depth(rect, Axis::Vertical) == rect.width,
        along_length(rect, Axis::Horizontal) == rect.width,
        along_length(rect, Axis::Vertical) == rect.height,
        along_start(rect, Axis::Horizontal) == rect.x,
        along_start(rect, Axis::Vertical) == rect.y,
{
}

/// What is cut from a side is a margin of two lines or more that ends before the limit; a
/// side whose first or second line is no margin keeps all of it.
pub proof fn law_only_whole_margins_are_cut(
    picture: Pixels,
    rect: PixelRect,
    axis: Axis,
    from_start: bool,
    color: Color,
    limit: int,
)
    ensures
        ({
            let cut = uniform_trim(picture, rect, axis, from_start, color, limit);
            &&& cut == 0 || 2 <= cut < limit
            &&& cut > 0 ==> cut + 2 < depth(rect, axis)
            &&& cut > 0 ==> forall|k: int|
                0 <= k < cut ==> is_margin_line(
                    picture,
                    rect,
                    axis,
                    #[trigger] line_place(rect, axis, from_start, k),
                    Margin::Uniform(color),
                )
            &&& cut > 0 ==> !is_margin_line(
                picture,
                rect,
                axis,
                line_place(rect, axis, from_start, cut),
                Margin::Uniform(color),
            )
            &&& !is_margin_line(
                picture,
                rect,
                axis,
                line_place(rect, axis, from_start, 0),
                Margin::Uniform(color),
            ) ==> cut == 0
        }),
{
    if limit >= 0 {
        law_margins_end_at_the_first_other_line(
            picture,
            rect,
            axis,
            from_start,
            Margin::Uniform(color),
            0,
            limit,
        );
        let run = margin_run(picture, rect, axis, from_start, Margin::Uniform(color), 0, limit);
        if run > 0 {
            assert(is_margin_line(
                picture,
                rect,
                axis,
                line_place(rect, axis, from_start, 0),
                Margin::Uniform(color),
            ));
        }
    }
}

/// Cutting lines moves the edges by so many lines, and no others; at most an eighth of the
/// lines, and never more than 80, are cut from a side.
pub proof fn law_cuts_move_the_edges(rect: PixelRect, first: int, last: int, lines: int)
    requires
        0 <= first,
        0 <= last,
        rect.x + rect.width <= u32::MAX,
        rect.y + rect.height <= u32::MAX,
        lines >= 0,
    ensures
        first + last <= rect.height ==> {
            let cut = cut_rows(rect, first, last);
            &&& cut.x == rect.x && cut.width == rect.width
            &&& cut.y == rect.y + first
            &&& cut.y + cut.height == rect.y + rect.height - last
        },
        first + last <= rect.width ==> {
            let cut = cut_columns(rect, first, last);
            &&& cut.y == rect.y && cut.height == rect.height
            &&& cut.x == rect.x + first
            &&& cut.x + cut.width == rect.x + rect.width - last
        },
        trim_limit(lines) <= 80,
        8 * trim_limit(lines) <= lines,
        lines >= 640 ==> trim_limit(lines) == 80,
        lines < 640 ==> 8 * trim_limit(lines) + 8 > lines,
{
}

/// A rectangle whose outermost lines are no margin is kept as it is.
pub proof fn law_content_at_the_edges_is_kept(picture: Pixels, rect: PixelRect)
    requires
        rect.x + rect.width <= u32::MAX,
        rect.y + rect.height <= u32::MAX,
        ({
            let margin = Margin::Uniform(edge_background(picture));
            &&& !is_margin_line(picture, rect, Axis::Horizontal, rect.y as int, margin)
            &&& !is_margin_line(
                picture,
                rect,
                Axis::Horizontal,
                rect.y + rect.height - 1,
                margin,
            )
            &&& !is_margin_line(picture, rect, Axis::Vertical, rect.x as int, margin)
            &&& !is_margin_line(picture, rect, Axis::Vertical, rect.x + rect.width - 1, margin)
        }),
    ensures
        without_margins(picture, rect) == rect,
{
    let color = edge_background(picture);
    let rows = trim_limit(rect.height as int);
    let columns = trim_limit(rect.width as int);
    law_only_whole_margins_are_cut(picture, rect, Axis::Horizontal, true, color, rows);
    law_only_whole_margins_are_cut(picture, rect, Axis::Horizontal, false, color, rows);
    assert(without_row_margins(picture, rect) == rect);
    law_only_whole_margins_are_cut(picture, rect, Axis::Vertical, true, color, columns);
    law_only_whole_margins_are_cut(picture, rect, Axis::Vertical, false, color, columns);
    assert(rect.pixel_count() >= 0) by (nonlinear_arith)
        requires
            rect.pixel_count() == rect.width * rect.height,
    ;
}

/// A surface takes the place of a rectangle only where it is sure, overlaps it with nearly all
/// of itself and is not the whole of it; the result is always one of the two.
pub proof fn law_surfaces_are_sure_parts(
    picture: Pixels,
    surface: ContentCandidate,
    rect: PixelRect,
)
    ensures
        is_surface_of(surface, rect) ==> surface.confidence.at_least(fraction(86, 100)),
        is_surface_of(surface, rect) ==> rect.common_part(surface.rect) is Some,
        is_surface_of(surface, rect) ==> 25 * rect.common_part(surface.rect)->0.pixel_count() >= 24
            * surface.rect.pixel_count(),
        surface.rect == rect && 0 < rect.pixel_count() < 0x100_0000 ==> !is_surface_of(
            surface,
            rect,
        ),
        snapped_to_surface(picture, rect) == rect || (analysis_of(picture) is Some
            && projected_content(picture, analysis_of(picture)->0) is Some && is_surface_of(
            projected_content(picture, analysis_of(picture)->0)->0,
            rect,
        ) && snapped_to_surface(picture, rect) == projected_content(
            picture,
            analysis_of(picture)->0,
        )->0.rect),
        analysis_of(picture) is Some && projected_content(picture, analysis_of(picture)->0)
            == Some(surface) && is_surface_of(surface, rect) ==> snapped_to_surface(picture, rect)
            == surface.rect,
{
    let area = rect.pixel_count();
    if surface.rect == rect && 0 < area < 0x100_0000 {
        law_whole_share_is_one(area as nat);
        law_whole_share_is_one(100);
        law_shares_are_compared_by_their_parts(97, 100, 100);
    }
}

/// A sure part of a rectangle that is as wide or as high as it, or clearly lower or narrower
/// than it but nearly as long, is a surface.
pub proof fn law_sure_parts_are_surfaces(surface: ContentCandidate, rect: PixelRect)
    requires
        rect.x + rect.width <= u32::MAX,
        rect.y + rect.height <= u32::MAX,
        surface.rect.lies_in(rect),
        surface.rect.width > 0,
        surface.rect.height > 0,
        0 < rect.pixel_count() < 0x100_0000,
        surface.rect.pixel_count() < 0x100_0000,
        surface.confidence.at_least(fraction(86, 100)),
        surface.rect.pixel_count() * 5 >= rect.pixel_count(),
        surface.rect.pixel_count() * 100 <= rect.pixel_count() * 97,
        surface.rect.width == rect.width || surface.rect.height == rect.height,
    ensures
        is_surface_of(surface, rect),
{
    let inner = surface.rect;
    let part = inner.pixel_count() as nat;
    let all = rect.pixel_count() as nat;
    assert(inner.pixel_count() > 0) by (nonlinear_arith)
        requires
            inner.pixel_count() == inner.width * inner.height,
            inner.width > 0,
            inner.height > 0,
    ;
    law_larger_shares_reach_smaller_ones(20, 100, part, all);
    law_larger_shares_reach_smaller_ones(part, all, 97, 100);
    assert(rect.common_part(inner) == Some(inner));
}

} // verus!
