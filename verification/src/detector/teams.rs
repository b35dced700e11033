//! Content inside the stage of a Teams window: what is left of a rectangle without the
//! participants and the background.

use vstd::prelude::*;

use crate::detector::color::Color;
use crate::detector::margins::{
    background_run, cut_columns, cut_rows, depth, lemma_margin_run, margin_run, Margin,
};
use crate::detector::picture::{Axis, Picture, Pixels};
use crate::detector::projection::ContentCandidate;
use crate::detector::separator::{
    detect_separator, lemma_separator_lies_inside, separator, Separator, SeparatorSide,
};
use crate::detector::theme::{estimate_theme_background, theme_background, ThemeBackground};
use crate::geometry::PixelRect;
use crate::numeric::{max_int, max_u64, min_int, min_u32};
use crate::single::{
    fraction, from_int, is_modest, law_adding_keeps_the_order, law_fractions_are_not_negative,
    law_held_numbers_are_in_range, law_holding_keeps_the_order,
    law_larger_shares_reach_smaller_ones, law_multiplying_keeps_the_order, law_numbers_cancel,
    law_operations_commute, law_order_is_total, law_order_is_transitive,
    law_shares_are_compared_by_their_parts, law_the_smaller_is_above_neither,
    lemma_canonical_is_kept, lemma_fractions_are_modest, lemma_naturals_are_modest,
    lemma_results_are_modest, lemma_sums_are_modest, lemma_zero_is_modest, ratio, whole, zero,
    Single,
};

verus! {

/// A part of a rectangle, and how sure it is.
#[derive(Clone, Copy, Debug, PartialEq, Eq, Structural)]
pub struct RefinedRect {
    pub rect: PixelRect,
    pub confidence: Single,
}

/// A rectangle of which nothing is cut off.
pub open spec fn untouched(rect: PixelRect) -> RefinedRect {
    RefinedRect { rect, confidence: zero() }
}

/// The part is at least so many hundredths of the rectangle wide and high.
pub open spec fn is_part(part: PixelRect, rect: PixelRect, hundredths: int) -> bool {
    &&& part.width * 100 >= rect.width * hundredths
    &&& part.height * 100 >= rect.height * hundredths
}

/// What the separators leave of a rectangle.
pub open spec fn beside_separators(
    rect: PixelRect,
    vertical: Option<Separator>,
    horizontal: Option<Separator>,
) -> RefinedRect {
    let left = match vertical {
        Some(line) if line.side == SeparatorSide::Left => line.end as int,
        _ => rect.x as int,
    };
    let right = match vertical {
        Some(line) if line.side == SeparatorSide::Right => line.start as int,
        _ => rect.right_edge(),
    };
    let top = match horizontal {
        Some(line) if line.side == SeparatorSide::Top => line.end as int,
        _ => rect.y as int,
    };
    let across = match vertical {
        Some(line) => zero().larger(line.score),
        None => zero(),
    };
    let confidence = match horizontal {
        Some(line) if line.side == SeparatorSide::Top => across.larger(line.score),
        _ => across,
    };
    let part = PixelRect {
        x: left as u32,
        y: top as u32,
        width: (right - left) as u32,
        height: (rect.bottom_edge() - top) as u32,
    };
    if right <= left || rect.bottom_edge() <= top || !is_part(part, rect, 42) || part.pixel_count()
        * 100 < rect.pixel_count() * 28 {
        untouched(rect)
    } else {
        RefinedRect { rect: part, confidence }
    }
}

/// The stage of a rectangle: the part that the separators leave.
#[verifier::opaque]
pub open spec fn stage_of(picture: Pixels, rect: PixelRect) -> RefinedRect {
    beside_separators(
        rect,
        separator(picture, rect, Axis::Vertical),
        separator(picture, rect, Axis::Horizontal),
    )
}

/// Takes off a rectangle what the separators part from it.
pub fn crop_beside_separators(
    rect: PixelRect,
    vertical: Option<Separator>,
    horizontal: Option<Separator>,
) -> (result: RefinedRect)
    ensures
        result == beside_separators(rect, vertical, horizontal),
{
    let mut left: u32 = rect.x;
    let mut right: u32 = rect.right();
    let mut top: u32 = rect.y;
    let bottom: u32 = rect.bottom();
    let mut confidence = from_int(0);
    if let Some(line) = vertical {
        match line.side {
            SeparatorSide::Left => {
                left = line.end;
            },
            SeparatorSide::Right => {
                right = line.start;
            },
            SeparatorSide::Top => {},
        }
        confidence = confidence.max(line.score);
    }
    if let Some(line) = horizontal {
        if line.side == SeparatorSide::Top {
            top = line.end;
            confidence = confidence.max(line.score);
        }
    }
    if right <= left || bottom <= top {
        return RefinedRect { rect, confidence: from_int(0) };
    }
    let part = PixelRect::new(left, top, right - left, bottom - top);
    if has_share(part, rect, 42) && part.area() as u128 * 100 >= rect.area() as u128 * 28 {
        RefinedRect { rect: part, confidence }
    } else {
        RefinedRect { rect, confidence: from_int(0) }
    }
}

fn has_share(part: PixelRect, rect: PixelRect, hundredths: u64) -> (result: bool)
    requires
        hundredths <= 100,
    ensures
        result == is_part(part, rect, hundredths as int),
{
    proof {
        assert(rect.width * hundredths <= u32::MAX * 100) by (nonlinear_arith)
            requires
                rect.width <= u32::MAX,
                hundredths <= 100,
        ;
        assert(rect.height * hundredths <= u32::MAX * 100) by (nonlinear_arith)
            requires
                rect.height <= u32::MAX,
                hundredths <= 100,
        ;
    }
    part.width as u64 * 100 >= rect.width as u64 * hundredths && part.height as u64 * 100
        >= rect.height as u64 * hundredths
}

/// Looks for the stage of a rectangle.
pub fn crop_by_triple_separator(picture: &Picture, rect: PixelRect) -> (result: RefinedRect)
    requires
        picture.well_formed(),
        picture@.holds(rect),
    ensures
        result == stage_of(picture@, rect),
        result.rect.lies_in(rect),
        rect.width > 0 && rect.height > 0 ==> result.rect.width > 0 && result.rect.height > 0,
{
    reveal(stage_of);
    let vertical = detect_separator(picture, rect, Axis::Vertical);
    let horizontal = detect_separator(picture, rect, Axis::Horizontal);
    proof {
        law_stage_lies_inside(picture@, rect);
    }
    crop_beside_separators(rect, vertical, horizontal)
}

/// Most lines that the background takes on one side.
pub open spec fn stage_limit(lines: int) -> int {
    min_int(lines * 46 / 100, max_int(lines - 1, 0))
}

/// Number of lines of background on one side.
pub open spec fn stage_run(
    picture: Pixels,
    rect: PixelRect,
    axis: Axis,
    from_start: bool,
    color: Color,
) -> int {
    margin_run(
        picture,
        rect,
        axis,
        from_start,
        Margin::Stage(color),
        0,
        stage_limit(depth(rect, axis)),
    )
}

/// What is left without so many rows and columns, if enough is left.
pub open spec fn without_background(
    picture: Pixels,
    rect: PixelRect,
    background: ThemeBackground,
) -> RefinedRect {
    let color = Color { red: background.gray, green: background.gray, blue: background.gray };
    let top = stage_run(picture, rect, Axis::Horizontal, true, color);
    let bottom = stage_run(picture, rect, Axis::Horizontal, false, color);
    let rows = cut_rows(rect, top, bottom);
    let left = stage_run(picture, rows, Axis::Vertical, true, color);
    let right = stage_run(picture, rows, Axis::Vertical, false, color);
    let part = cut_columns(rows, left, right);
    if rows.height * 100 < rect.height * 34 || !is_part(part, rect, 34) || part.pixel_count()
        * 100 < rect.pixel_count() * 18 || top + bottom + left + right < 2 {
        untouched(rect)
    } else {
        RefinedRect {
            rect: part,
            confidence: background.confidence.times(fraction(72, 100)).plus(
                whole(1).minus(
                    fraction(
                        part.pixel_count() as nat,
                        max_int(rect.pixel_count(), 1) as nat,
                    ),
                ).smaller(fraction(50, 100)).times(fraction(56, 100)),
            ).smaller(whole(1)),
        }
    }
}

/// The part of a stage that its background leaves. An unsure background is left alone.
#[verifier::opaque]
pub open spec fn surface_of(picture: Pixels, rect: PixelRect) -> RefinedRect {
    match theme_background(picture, rect) {
        Some(background) => if background.confidence.less(fraction(52, 100)) {
            untouched(rect)
        } else {
            without_background(picture, rect, background)
        },
        None => untouched(rect),
    }
}

fn find_stage_run(
    picture: &Picture,
    rect: PixelRect,
    axis: Axis,
    from_start: bool,
    color: Color,
) -> (result: u32)
    requires
        picture.well_formed(),
        picture@.holds(rect),
    ensures
        result == stage_run(picture@, rect, axis, from_start, color),
        result <= stage_limit(depth(rect, axis)),
{
    let lines: u32 = match axis {
        Axis::Horizontal => rect.height,
        Axis::Vertical => rect.width,
    };
    let limit: u32 = min_u32((lines as u64 * 46 / 100) as u32, lines.saturating_sub(1));
    background_run(picture, rect, axis, from_start, Margin::Stage(color), limit)
}

fn trim_background(picture: &Picture, rect: PixelRect, background: ThemeBackground) -> (result:
    RefinedRect)
    requires
        picture.well_formed(),
        picture@.holds(rect),
    ensures
        result == without_background(picture@, rect, background),
{
    let color = Color::new(background.gray, background.gray, background.gray);
    let top: u32 = find_stage_run(picture, rect, Axis::Horizontal, true, color);
    let bottom: u32 = find_stage_run(picture, rect, Axis::Horizontal, false, color);
    let rows = PixelRect::new(rect.x, rect.y + top, rect.width, rect.height - top - bottom);
    if (rows.height as u64 * 100) < rect.height as u64 * 34 {
        return RefinedRect { rect, confidence: from_int(0) };
    }
    let left: u32 = find_stage_run(picture, rows, Axis::Vertical, true, color);
    let right: u32 = find_stage_run(picture, rows, Axis::Vertical, false, color);
    let part = PixelRect::new(rows.x + left, rows.y, rows.width - left - right, rows.height);
    if !has_share(part, rect, 34) || (part.area() as u128 * 100) < rect.area() as u128 * 18 {
        return RefinedRect { rect, confidence: from_int(0) };
    }
    if top as u64 + bottom as u64 + left as u64 + (right as u64) < 2 {
        return RefinedRect { rect, confidence: from_int(0) };
    }
    let trimmed = from_int(1).sub(ratio(part.area(), max_u64(rect.area(), 1)));
    let confidence = background.confidence.mul(ratio(72, 100)).add(
        trimmed.min(ratio(50, 100)).mul(ratio(56, 100)),
    ).min(from_int(1));
    RefinedRect { rect: part, confidence }
}

/// Cuts the background of Teams off a stage.
pub fn trim_known_teams_background(picture: &Picture, rect: PixelRect) -> (result: RefinedRect)
    requires
        picture.well_formed(),
        picture@.holds(rect),
        rect.width > 0,
        rect.height > 0,
    ensures
        result == surface_of(picture@, rect),
        result.rect.lies_in(rect),
{
    reveal(surface_of);
    proof {
        law_surface_lies_inside(picture@, rect);
    }
    match estimate_theme_background(picture, rect) {
        Some(background) => {
            if background.confidence.lt(ratio(52, 100)) {
                RefinedRect { rect, confidence: from_int(0) }
            } else {
                trim_background(picture, rect, background)
            }
        },
        None => RefinedRect { rect, confidence: from_int(0) },
    }
}

/// The background is cut off where a separator was found or the stage is most of the
/// picture.
pub open spec fn cuts_background(picture: Pixels, stage: RefinedRect) -> bool {
    stage.confidence.at_least(fraction(62, 100)) || stage.rect.pixel_count() * 100
        >= picture.width * picture.height * 68
}

/// What the evidence in the pixels leaves of a rectangle.
pub open spec fn evidence(picture: Pixels, rect: PixelRect) -> Option<RefinedRect> {
    let stage = stage_of(picture, rect);
    let surface = if cuts_background(picture, stage) {
        surface_of(picture, stage.rect)
    } else {
        untouched(stage.rect)
    };
    let kept = fraction(
        surface.rect.pixel_count() as nat,
        max_int(rect.pixel_count(), 1) as nat,
    );
    if rect.width < 160 || rect.height < 90 || !picture.holds(rect) || surface.rect == rect
        || kept.less(
        fraction(18, 100),
    ) || !is_part(surface.rect, rect, 34) {
        None
    } else {
        Some(
            RefinedRect {
                rect: surface.rect,
                confidence: fraction(72, 100).plus(
                    stage.confidence.times(fraction(17, 100)),
                ).plus(surface.confidence.times(fraction(11, 100))).held(
                    zero(),
                    fraction(99, 100),
                ),
            },
        )
    }
}

/// Looks for the part of a rectangle that holds shared content.
pub fn refine_with_evidence(picture: &Picture, rect: PixelRect) -> (result: Option<RefinedRect>)
    requires
        picture.well_formed(),
    ensures
        result == evidence(picture@, rect),
        result is Some ==> result->0.rect.lies_in(rect) && picture@.holds(result->0.rect),
{
    if rect.width < 160 || rect.height < 90 || rect.x as u64 + rect.width as u64
        > picture.width as u64 || rect.y as u64 + rect.height as u64 > picture.height as u64 {
        return None;
    }
    let stage = crop_by_triple_separator(picture, rect);
    let picture_area: u64 = PixelRect::new(0, 0, picture.width, picture.height).area();
    let is_broad = stage.rect.area() as u128 * 100 >= picture_area as u128 * 68;
    let surface = if stage.confidence.ge(ratio(62, 100)) || is_broad {
        trim_known_teams_background(picture, stage.rect)
    } else {
        RefinedRect { rect: stage.rect, confidence: from_int(0) }
    };
    if surface.rect == rect {
        return None;
    }
    let kept = ratio(surface.rect.area(), max_u64(rect.area(), 1));
    if kept.lt(ratio(18, 100)) || !has_share(surface.rect, rect, 34) {
        return None;
    }
    let confidence = ratio(72, 100).add(stage.confidence.mul(ratio(17, 100))).add(
        surface.confidence.mul(ratio(11, 100)),
    ).clamp(from_int(0), ratio(99, 100));
    Some(RefinedRect { rect: surface.rect, confidence })
}

/// The candidate that the evidence gives.
pub open spec fn teams_candidate(picture: Pixels, rect: PixelRect) -> Option<ContentCandidate> {
    match evidence(picture, rect) {
        Some(refined) => Some(ContentCandidate::held(refined.rect, refined.confidence)),
        None => None,
    }
}

/// The part of a rectangle that holds shared content, or all of it.
pub open spec fn teams_rect(picture: Pixels, rect: PixelRect) -> PixelRect {
    match evidence(picture, rect) {
        Some(refined) => refined.rect,
        None => rect,
    }
}

pub fn detect_teams_candidate(picture: &Picture, rect: PixelRect) -> (result: Option<
    ContentCandidate,
>)
    requires
        picture.well_formed(),
    ensures
        result == teams_candidate(picture@, rect),
        result is Some ==> result->0.rect.lies_in(rect) && picture@.holds(result->0.rect),
{
    match refine_with_evidence(picture, rect) {
        Some(refined) => Some(ContentCandidate::new(refined.rect, refined.confidence)),
        None => None,
    }
}

pub fn refine_teams_rect(picture: &Picture, rect: PixelRect) -> (result: PixelRect)
    requires
        picture.well_formed(),
    ensures
        result == teams_rect(picture@, rect),
        result.lies_in(rect),
{
    match refine_with_evidence(picture, rect) {
        Some(refined) => refined.rect,
        None => rect,
    }
}

/// The stage of a rectangle lies inside it, and has an interior where the rectangle has one.
pub proof fn law_stage_lies_inside(picture: Pixels, rect: PixelRect)
    requires
        picture.holds(rect),
    ensures
        stage_of(picture, rect).rect.lies_in(rect),
        rect.width > 0 && rect.height > 0 ==> stage_of(picture, rect).rect.width > 0 && stage_of(
            picture,
            rect,
        ).rect.height > 0,
{
    reveal(stage_of);
    lemma_separator_lies_inside(picture, rect, Axis::Vertical);
    lemma_separator_lies_inside(picture, rect, Axis::Horizontal);
}

/// What the background leaves of a rectangle lies inside it.
pub proof fn law_surface_lies_inside(picture: Pixels, rect: PixelRect)
    requires
        picture.holds(rect),
    ensures
        surface_of(picture, rect).rect.lies_in(rect),
{
    reveal(surface_of);
    if let Some(background) = theme_background(picture, rect) {
        let color = Color {
            red: background.gray,
            green: background.gray,
            blue: background.gray,
        };
        let top = stage_run(picture, rect, Axis::Horizontal, true, color);
        let bottom = stage_run(picture, rect, Axis::Horizontal, false, color);
        let rows = cut_rows(rect, top, bottom);
        lemma_stage_run(picture, rect, Axis::Horizontal, true, color);
        lemma_stage_run(picture, rect, Axis::Horizontal, false, color);
        lemma_stage_run(picture, rows, Axis::Vertical, true, color);
        lemma_stage_run(picture, rows, Axis::Vertical, false, color);
    }
}

proof fn lemma_stage_run(
    picture: Pixels,
    rect: PixelRect,
    axis: Axis,
    from_start: bool,
    color: Color,
)
    ensures
        0 <= stage_run(picture, rect, axis, from_start, color) <= depth(rect, axis) * 46 / 100,
{
    lemma_margin_run(
        picture,
        rect,
        axis,
        from_start,
        Margin::Stage(color),
        0,
        stage_limit(depth(rect, axis)),
    );
}

/// Without separators a rectangle is kept; a separator takes off what lies beyond it, where
/// enough is left: the left one everything up to its end, the right one everything from its
/// start on, the top one everything above its end.
pub proof fn law_separators_take_off_what_is_beyond(
    rect: PixelRect,
    vertical: Option<Separator>,
    horizontal: Option<Separator>,
)
    requires
        rect.x + rect.width <= u32::MAX,
        rect.y + rect.height <= u32::MAX,
    ensures
        ({
            let left = beside_separators(rect, None, None);
            left.rect == rect && left.confidence == zero()
        }),
        ({
            let result = beside_separators(rect, vertical, horizontal).rect;
            ||| result == rect
            ||| {
                &&& result.x == if vertical is Some && vertical->0.side is Left {
                    vertical->0.end
                } else {
                    rect.x
                }
                &&& result.x + result.width == if vertical is Some && vertical->0.side is Right {
                    vertical->0.start as int
                } else {
                    rect.x + rect.width
                }
                &&& result.y == if horizontal is Some && horizontal->0.side is Top {
                    horizontal->0.end
                } else {
                    rect.y
                }
                &&& result.y + result.height == rect.y + rect.height
                &&& 100 * result.width >= 42 * rect.width && 100 * result.height >= 42
                    * rect.height
                &&& 100 * result.pixel_count() >= 28 * rect.pixel_count()
            }
        }),
        vertical is Some && vertical->0.side is Left && horizontal is None && rect.x
            <= vertical->0.end && 100 * (rect.x + rect.width - vertical->0.end) >= 42 * rect.width
            && vertical->0.end < rect.x + rect.width && rect.height > 0 ==> beside_separators(
            rect,
            vertical,
            horizontal,
        ).rect.x == vertical->0.end,
        vertical is Some && vertical->0.side is Right && horizontal is None && rect.x
            < vertical->0.start <= rect.x + rect.width && 100 * (vertical->0.start - rect.x) >= 42
            * rect.width && rect.height > 0 ==> beside_separators(rect, vertical, horizontal).rect.x
            + beside_separators(rect, vertical, horizontal).rect.width == vertical->0.start,
{
    assert(rect.pixel_count() == rect.width * rect.height);
    let w = rect.width as int;
    let h = rect.height as int;
    if vertical is Some && horizontal is None {
        let end = vertical->0.end as int;
        let start = vertical->0.start as int;
        let left = rect.x + w - end;
        let right = start - rect.x;
        assert(left * h * 100 >= w * h * 28 || 100 * left < 42 * w) by (nonlinear_arith)
            requires
                h >= 0,
                w >= 0,
        ;
        assert(right * h * 100 >= w * h * 28 || 100 * right < 42 * w) by (nonlinear_arith)
            requires
                h >= 0,
                w >= 0,
        ;
    }
    assert(beside_separators(rect, None, None).rect == rect) by {
        assert(w * h * 100 >= w * h * 28) by (nonlinear_arith)
            requires
                w >= 0,
                h >= 0,
        ;
    }
    assert(beside_separators(rect, None, None).confidence == zero());
}

/// A part of a rectangle is at least so many hundredths of it, each way.
pub proof fn law_wholes_are_parts(part: PixelRect, rect: PixelRect, hundredths: int)
    ensures
        0 <= hundredths <= 100 ==> is_part(rect, rect, hundredths),
        is_part(part, rect, 50) <==> 2 * part.width >= rect.width && 2 * part.height
            >= rect.height,
{
    if 0 <= hundredths <= 100 {
        assert(rect.width * 100 >= rect.width * hundredths && rect.height * 100 >= rect.height
            * hundredths) by (nonlinear_arith)
            requires
                0 <= hundredths <= 100,
                0 <= rect.width,
                0 <= rect.height,
        ;
    }
}

/// Evidence always leaves less than the whole rectangle, but a third of it each way; it is
/// never sought in small rectangles or beyond the picture, nor is it quite sure.
pub proof fn law_evidence_leaves_a_good_part(picture: Pixels, rect: PixelRect)
    ensures
        evidence(picture, rect) is Some ==> {
            let found = evidence(picture, rect)->0;
            &&& found.rect != rect
            &&& rect.width >= 160 && rect.height >= 90
            &&& rect.x + rect.width <= picture.width && rect.y + rect.height <= picture.height
            &&& 100 * found.rect.width >= 34 * rect.width
            &&& 100 * found.rect.height >= 34 * rect.height
            &&& fraction(99, 100).at_least(found.confidence)
            &&& found.confidence.at_least(zero())
        },
        evidence(picture, rect) is None ==> teams_rect(picture, rect) == rect && teams_candidate(
            picture,
            rect,
        ) is None,
        evidence(picture, rect) is Some ==> teams_candidate(picture, rect) is Some
            && teams_candidate(picture, rect)->0.rect == teams_rect(picture, rect) && teams_rect(
            picture,
            rect,
        ) == evidence(picture, rect)->0.rect,
{
    let stage = stage_of(picture, rect);
    let surface = if cuts_background(picture, stage) {
        surface_of(picture, stage.rect)
    } else {
        untouched(stage.rect)
    };
    let sum = fraction(72, 100).plus(stage.confidence.times(fraction(17, 100))).plus(
        surface.confidence.times(fraction(11, 100)),
    );
    law_fractions_are_not_negative(99, 100);
    law_held_numbers_are_in_range(sum, zero(), fraction(99, 100));
}

/// The background of a stage is cut off where a separator is sure or the stage is two thirds of
/// the picture; an unsure background is left, and so is a stage without one.
pub proof fn law_sure_backgrounds_are_cut_off(
    picture: Pixels,
    stage: RefinedRect,
    rect: PixelRect,
    lines: int,
)
    requires
        lines >= 0,
    ensures
        stage.confidence.at_least(fraction(62, 100)) ==> cuts_background(picture, stage),
        stage.rect.pixel_count() * 25 >= picture.width * picture.height * 17 ==> cuts_background(
            picture,
            stage,
        ),
        stage.confidence.less(fraction(62, 100)) && stage.rect.pixel_count() * 25 < picture.width
            * picture.height * 17 ==> !cuts_background(picture, stage),
        theme_background(picture, rect) is None ==> surface_of(picture, rect).rect == rect
            && surface_of(picture, rect).confidence == zero(),
        theme_background(picture, rect) is Some && theme_background(
            picture,
            rect,
        )->0.confidence.less(fraction(52, 100)) ==> surface_of(picture, rect).rect == rect,
        100 * stage_limit(lines) <= 46 * lines,
        lines > 0 ==> stage_limit(lines) < lines,
{
    reveal(surface_of);
}

/// What is found is told: where the separators, and then the background, leave less than the
/// whole rectangle but a fifth of it and a third each way, that part is the evidence.
pub proof fn law_found_parts_are_evidence(picture: Pixels, rect: PixelRect)
    requires
        rect.width >= 160,
        rect.height >= 90,
        picture.holds(rect),
        rect.pixel_count() < 0x100_0000,
    ensures
        ({
            let stage = stage_of(picture, rect);
            let surface = surface_of(picture, stage.rect);
            let left = if stage.confidence.at_least(fraction(62, 100)) || stage.rect.pixel_count()
                * 100 >= picture.width * picture.height * 68 {
                surface.rect
            } else {
                stage.rect
            };
            left != rect && 5 * left.pixel_count() >= rect.pixel_count() && left.pixel_count()
                <= rect.pixel_count() && 100 * left.width >= 34 * rect.width && 100 * left.height
                >= 34 * rect.height ==> evidence(picture, rect) is Some && evidence(
                picture,
                rect,
            )->0.rect == left && teams_rect(picture, rect) == left
        }),
{
    let stage = stage_of(picture, rect);
    let left = if cuts_background(picture, stage) {
        surface_of(picture, stage.rect).rect
    } else {
        stage.rect
    };
    assert(rect.pixel_count() > 0) by (nonlinear_arith)
        requires
            rect.pixel_count() == rect.width * rect.height,
            rect.width > 0,
            rect.height > 0,
    ;
    if 5 * left.pixel_count() >= rect.pixel_count() && left.pixel_count() <= rect.pixel_count() {
        law_larger_shares_reach_smaller_ones(
            18,
            100,
            left.pixel_count() as nat,
            rect.pixel_count() as nat,
        );
    }
}

/// Evidence is at least 72 hundredths sure, and the surer the separators and the background
/// are, the surer it is.
pub proof fn law_sure_signs_are_sure_evidence(
    picture: Pixels,
    rect: PixelRect,
    other: Pixels,
    place: PixelRect,
)
    requires
        evidence(picture, rect) is Some,
        evidence(other, place) is Some,
        cuts_background(picture, stage_of(picture, rect)),
        cuts_background(other, stage_of(other, place)),
        is_modest(stage_of(picture, rect).confidence, 0x100),
        is_modest(stage_of(other, place).confidence, 0x100),
        is_modest(surface_of(picture, stage_of(picture, rect).rect).confidence, 0x100),
        is_modest(surface_of(other, stage_of(other, place).rect).confidence, 0x100),
        stage_of(picture, rect).confidence.at_least(stage_of(other, place).confidence),
        surface_of(picture, stage_of(picture, rect).rect).confidence.at_least(
            surface_of(other, stage_of(other, place).rect).confidence,
        ),
    ensures
        evidence(picture, rect)->0.confidence.at_least(evidence(other, place)->0.confidence),
        stage_of(picture, rect).confidence.at_least(zero()) && surface_of(
            picture,
            stage_of(picture, rect).rect,
        ).confidence.at_least(zero()) ==> evidence(picture, rect)->0.confidence.at_least(
            fraction(72, 100),
        ),
{
    let a = stage_of(picture, rect).confidence;
    let b = stage_of(other, place).confidence;
    let c = surface_of(picture, stage_of(picture, rect).rect).confidence;
    let d = surface_of(other, stage_of(other, place).rect).confidence;
    let base = fraction(72, 100);
    let first = fraction(17, 100);
    let second = fraction(11, 100);
    lemma_fractions_are_modest(72, 100);
    lemma_fractions_are_modest(17, 100);
    lemma_fractions_are_modest(11, 100);
    lemma_fractions_are_modest(99, 100);
    lemma_zero_is_modest();
    law_fractions_are_not_negative(17, 100);
    law_fractions_are_not_negative(11, 100);
    law_multiplying_keeps_the_order(a, b, first);
    law_multiplying_keeps_the_order(c, d, second);
    lemma_results_are_modest(a, first, 0x100);
    lemma_results_are_modest(b, first, 0x100);
    lemma_results_are_modest(c, second, 0x100);
    lemma_results_are_modest(d, second, 0x100);
    law_adding_keeps_the_order(a.times(first), b.times(first), base);
    lemma_sums_are_modest(base, a.times(first), 0x400);
    lemma_sums_are_modest(base, b.times(first), 0x400);
    let x = base.plus(a.times(first));
    let y = base.plus(b.times(first));
    law_adding_keeps_the_order(x, y, c.times(second));
    law_adding_keeps_the_order(c.times(second), d.times(second), y);
    let p = x.plus(c.times(second));
    let q = y.plus(c.times(second));
    let r = y.plus(d.times(second));
    law_order_is_transitive(p, q, r);
    lemma_sums_are_modest(x, c.times(second), 0x800);
    lemma_sums_are_modest(y, d.times(second), 0x800);
    law_holding_keeps_the_order(p, r, zero(), fraction(99, 100));
    if a.at_least(zero()) && c.at_least(zero()) {
        law_multiplying_keeps_the_order(a, zero(), first);
        law_multiplying_keeps_the_order(c, zero(), second);
        law_numbers_cancel(first);
        law_numbers_cancel(second);
        law_operations_commute(zero(), first);
        law_operations_commute(zero(), second);
        law_adding_keeps_the_order(a.times(first), zero(), base);
        law_adding_keeps_the_order(c.times(second), zero(), x);
        law_numbers_cancel(base);
        law_numbers_cancel(x);
        law_order_is_transitive(p, x, base);
        law_fractions_are_not_negative(72, 100);
        law_fractions_are_not_negative(99, 100);
        law_shares_are_compared_by_their_parts(99, 72, 100);
        lemma_canonical_is_kept(base);
        law_held_numbers_are_in_range(base, zero(), fraction(99, 100));
        law_holding_keeps_the_order(p, base, zero(), fraction(99, 100));
    }
}

/// A part that separators leave is as sure as the surest of those that are used; one that is
/// kept whole for want of room is not sure at all.
pub proof fn law_separators_tell_how_sure_they_are(
    rect: PixelRect,
    vertical: Option<Separator>,
    horizontal: Option<Separator>,
)
    requires
        vertical is Some ==> vertical->0.score.is_canonical() && vertical->0.score.at_least(zero()),
        horizontal is Some ==> horizontal->0.score.is_canonical() && horizontal->0.score.at_least(
            zero(),
        ),
    ensures
        ({
            let found = beside_separators(rect, vertical, horizontal);
            &&& found.confidence.at_least(zero())
            &&& found.rect != rect && vertical is Some ==> found.confidence.at_least(
                vertical->0.score,
            )
            &&& found.rect != rect && horizontal is Some && horizontal->0.side is Top
                ==> found.confidence.at_least(horizontal->0.score)
            &&& found.confidence == zero() || (vertical is Some && found.confidence
                == vertical->0.score) || (horizontal is Some && horizontal->0.side
                is Top && found.confidence == horizontal->0.score)
        }),
{
    law_order_is_total(zero(), zero());
    lemma_zero_is_modest();
    lemma_canonical_is_kept(zero());
    let across = match vertical {
        Some(line) => zero().larger(line.score),
        None => zero(),
    };
    if vertical is Some {
        law_the_smaller_is_above_neither(zero(), vertical->0.score);
        lemma_canonical_is_kept(vertical->0.score);
    }
    lemma_canonical_is_kept(across);
    if horizontal is Some {
        lemma_canonical_is_kept(horizontal->0.score);
        law_the_smaller_is_above_neither(across, horizontal->0.score);
        let sum = across.larger(horizontal->0.score);
        law_order_is_transitive(sum, across, zero());
        if vertical is Some {
            law_order_is_transitive(sum, across, vertical->0.score);
        }
    }
}

/// The background is cut off line by line: the rows above and below first, then the columns
/// beside what is left of them. What would leave too little, or fewer than two lines, leaves
/// the rectangle as it is; a surer background leaves a surer part.
pub proof fn law_backgrounds_are_cut_line_by_line(
    picture: Pixels,
    rect: PixelRect,
    background: ThemeBackground,
    other: ThemeBackground,
)
    requires
        picture.holds(rect),
        rect.x + rect.width <= u32::MAX,
        rect.y + rect.height <= u32::MAX,
    ensures
        ({
            let gray = Color { red: background.gray, green: background.gray, blue: background.gray };
            let found = without_background(picture, rect, background);
            let top = stage_run(picture, rect, Axis::Horizontal, true, gray);
            let bottom = stage_run(picture, rect, Axis::Horizontal, false, gray);
            let rows = cut_rows(rect, top, bottom);
            let left = stage_run(picture, rows, Axis::Vertical, true, gray);
            let right = stage_run(picture, rows, Axis::Vertical, false, gray);
            &&& found.rect != rect ==> {
                &&& found.rect == cut_columns(rows, left, right)
                &&& 100 * found.rect.width >= 34 * rect.width
                &&& 100 * found.rect.height >= 34 * rect.height
                &&& 100 * found.rect.pixel_count() >= 18 * rect.pixel_count()
                &&& top + bottom + left + right >= 2
            }
            &&& found.rect == rect ==> top + bottom + left + right < 2 || found.confidence == zero()
                || cut_columns(rows, left, right) == rect
            &&& top + bottom + left + right >= 2 && 100 * cut_columns(rows, left, right).width >= 34
                * rect.width && 100 * cut_columns(rows, left, right).height >= 34 * rect.height
                && 100 * rows.height >= 34 * rect.height && 100 * cut_columns(
                rows,
                left,
                right,
            ).pixel_count() >= 18 * rect.pixel_count() ==> found.rect == cut_columns(
                rows,
                left,
                right,
            )
        }),
        background.gray == other.gray && is_modest(background.confidence, 0x100) && is_modest(
            other.confidence,
            0x100,
        ) && background.confidence.at_least(other.confidence) && rect.pixel_count() < 0x100_0000
            ==> without_background(picture, rect, background).rect == without_background(
            picture,
            rect,
            other,
        ).rect && (without_background(picture, rect, background).rect != rect
            && without_background(picture, rect, background).rect.pixel_count()
            <= rect.pixel_count() ==> without_background(
            picture,
            rect,
            background,
        ).confidence.at_least(without_background(picture, rect, other).confidence)),
{
    let found = without_background(picture, rect, background);
    if background.gray == other.gray && is_modest(background.confidence, 0x100) && is_modest(
        other.confidence,
        0x100,
    ) && background.confidence.at_least(other.confidence) && rect.pixel_count() < 0x100_0000
        && found.rect != rect && found.rect.pixel_count() <= rect.pixel_count() {
        let a = background.confidence;
        let b = other.confidence;
        let weight = fraction(72, 100);
        lemma_fractions_are_modest(72, 100);
        lemma_fractions_are_modest(50, 100);
        lemma_fractions_are_modest(56, 100);
        lemma_naturals_are_modest(1);
        law_fractions_are_not_negative(72, 100);
        law_multiplying_keeps_the_order(a, b, weight);
        lemma_results_are_modest(a, weight, 0x100);
        lemma_results_are_modest(b, weight, 0x100);
        let kept = fraction(
            found.rect.pixel_count() as nat,
            max_int(rect.pixel_count(), 1) as nat,
        );
        lemma_fractions_are_modest(
            found.rect.pixel_count() as nat,
            max_int(rect.pixel_count(), 1) as nat,
        );
        lemma_sums_are_modest(whole(1), kept, 128);
        let rest = whole(1).minus(kept);
        lemma_results_are_modest(rest, fraction(50, 100), 0x100);
        lemma_results_are_modest(rest.smaller(fraction(50, 100)), fraction(56, 100), 0x100);
        let gain = rest.smaller(fraction(50, 100)).times(fraction(56, 100));
        law_adding_keeps_the_order(a.times(weight), b.times(weight), gain);
        lemma_sums_are_modest(a.times(weight), gain, 0x400);
        lemma_sums_are_modest(b.times(weight), gain, 0x400);
        law_holding_keeps_the_order(
            a.times(weight).plus(gain),
            b.times(weight).plus(gain),
            zero(),
            whole(1),
        );
    }
}

} // verus!
