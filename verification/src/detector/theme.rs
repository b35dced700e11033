//! The background that Teams shows around shared content.

use vstd::prelude::*;

use crate::detector::color::{
    is_known_gray, Color, PixelTest, DARK_TEAMS_BACKGROUND, LIGHT_TEAMS_BACKGROUND,
};
use crate::detector::margins::{along_length, along_start, depth};
use crate::detector::picture::{Axis, Picture, Pixels};
use crate::detector::projection::{weigh, weighted};
use crate::detector::sampling::{
    lemma_few_samples, lemma_sample_on_stretch, line_hits, sample_count, step_for,
};
use crate::detector::separator::first_line;
use crate::geometry::PixelRect;
use crate::numeric::{
    abs_diff_u8, abs_int, clamp_int, clamp_u32, max_int, max_u32, min_int, min_u32,
};
use crate::single::{
    fraction, from_int, law_the_smaller_is_above_neither, ratio, whole, zero, Single,
};

verus! {

/// Number of grays.
pub const GRAYS: usize = 256;

/// How far a sample may be from a background of Teams.
pub const GRAY_TOLERANCE: u8 = 28;

/// A gray background, and how sure it is.
#[derive(Clone, Copy, Debug, PartialEq, Eq, Structural)]
pub struct ThemeBackground {
    pub gray: u8,
    pub confidence: Single,
}

/// A pixel is gray and has just this value.
pub open spec fn has_gray(gray: int) -> PixelTest {
    PixelTest::Gray { target: gray as u8, tolerance: 0 }
}

/// Number of samples of this gray on the first lines of a band.
pub open spec fn band_grays(
    picture: Pixels,
    rect: PixelRect,
    axis: Axis,
    first: int,
    lines: nat,
    step: int,
    gray: int,
) -> nat
    decreases lines,
{
    if lines == 0 {
        0
    } else {
        band_grays(picture, rect, axis, first, (lines - 1) as nat, step, gray) + line_hits(
            picture,
            axis,
            first + lines - 1,
            along_start(rect, axis),
            step,
            sample_count(along_length(rect, axis), step),
            has_gray(gray),
        )
    }
}

/// Number of lines that are sampled on each side.
pub open spec fn theme_band(rect: PixelRect) -> int {
    clamp_int(min_int(rect.width as int, rect.height as int) / 36, 1, 8)
}

/// Distance between the samples of a line.
pub open spec fn theme_step(rect: PixelRect) -> int {
    step_for(max_int(rect.width as int, rect.height as int), 768)
}

/// Number of samples of this gray on the first and last lines along an axis.
pub open spec fn side_grays(picture: Pixels, rect: PixelRect, axis: Axis, gray: int) -> nat {
    let band = theme_band(rect);
    let first = first_line(rect, axis);
    band_grays(picture, rect, axis, first, band as nat, theme_step(rect), gray) + band_grays(
        picture,
        rect,
        axis,
        first + depth(rect, axis) - band,
        band as nat,
        theme_step(rect),
        gray,
    )
}

/// Number of samples of this gray along the edges of a rectangle.
pub open spec fn theme_grays(picture: Pixels, rect: PixelRect, gray: int) -> nat {
    side_grays(picture, rect, Axis::Horizontal, gray) + side_grays(
        picture,
        rect,
        Axis::Vertical,
        gray,
    )
}

/// Number of samples along the edges of a rectangle.
pub open spec fn theme_samples(rect: PixelRect) -> nat {
    let step = theme_step(rect);
    (2 * theme_band(rect) * (sample_count(rect.width as int, step) + sample_count(
        rect.height as int,
        step,
    ))) as nat
}

/// Number of samples of the grays from `low` to before `high`.
pub open spec fn grays_between(picture: Pixels, rect: PixelRect, low: int, high: int) -> nat
    decreases high - low,
{
    if high <= low {
        0
    } else {
        grays_between(picture, rect, low, high - 1) + theme_grays(picture, rect, high - 1)
    }
}

/// Number of samples that are near a background of Teams.
pub open spec fn grays_near(picture: Pixels, rect: PixelRect, anchor: u8) -> nat {
    grays_between(picture, rect, anchor - GRAY_TOLERANCE, anchor + GRAY_TOLERANCE + 1)
}

/// The gray of the sample with this number, in the order of their grays from `gray` on.
pub open spec fn nth_gray(picture: Pixels, rect: PixelRect, gray: int, number: int) -> int
    decreases GRAYS - gray,
{
    if gray >= GRAYS - 1 {
        GRAYS - 1
    } else if number < theme_grays(picture, rect, gray) {
        gray
    } else {
        nth_gray(picture, rect, gray + 1, number - theme_grays(picture, rect, gray))
    }
}

/// The background of Teams that has most samples along the edges.
pub open spec fn theme_anchor(picture: Pixels, rect: PixelRect) -> u8 {
    if grays_near(picture, rect, DARK_TEAMS_BACKGROUND) >= grays_near(
        picture,
        rect,
        LIGHT_TEAMS_BACKGROUND,
    ) {
        DARK_TEAMS_BACKGROUND
    } else {
        LIGHT_TEAMS_BACKGROUND
    }
}

/// How sure a background is, by the number of its samples and its gray.
pub open spec fn theme_confidence(samples: nat, total: nat, gray: int, anchor: int) -> Single {
    weighted(fraction(samples, total).over(fraction(28, 100)), 64).plus(
        whole(1).minus(fraction(abs_int(gray - anchor) as nat, 30)).held(zero(), whole(1)).times(
            fraction(36, 100),
        ),
    ).smaller(whole(1))
}

/// The background along the edges of a rectangle: the median of the samples that are near
/// the more frequent background of Teams.
pub open spec fn theme_background(picture: Pixels, rect: PixelRect) -> Option<ThemeBackground> {
    let anchor = theme_anchor(picture, rect);
    let samples = grays_near(picture, rect, anchor);
    let gray = nth_gray(picture, rect, anchor - GRAY_TOLERANCE, samples as int / 2);
    if samples < 8 {
        None
    } else {
        Some(
            ThemeBackground {
                gray: gray as u8,
                confidence: theme_confidence(
                    samples,
                    theme_samples(rect),
                    gray,
                    anchor as int,
                ),
            },
        )
    }
}

/// No gray has more than `most` samples.
pub open spec fn counts_hold(counts: Seq<u64>, most: int) -> bool {
    &&& counts.len() == GRAYS
    &&& forall|g: int| 0 <= g < counts.len() ==> #[trigger] counts[g] <= most
}

fn gather_theme_line(
    picture: &Picture,
    rect: PixelRect,
    axis: Axis,
    fixed: u32,
    step: u32,
    counts: &mut Vec<u64>,
    Ghost(most): Ghost<int>,
)
    requires
        picture.well_formed(),
        picture@.holds(rect),
        rect.width > 0,
        rect.height > 0,
        picture@.has_line(axis, fixed as int, 0),
        step > 0,
        counts_hold(old(counts)@, most),
        0 <= most <= 64 * u32::MAX,
    ensures
        counts_hold(final(counts)@, most + u32::MAX),
        forall|g: int|
            0 <= g < GRAYS ==> #[trigger] final(counts)@[g] == old(counts)@[g] + line_hits(
                picture@,
                axis,
                fixed as int,
                along_start(rect, axis),
                step as int,
                sample_count(along_length(rect, axis), step as int),
                has_gray(g),
            ),
{
    let (start, length): (u32, u32) = match axis {
        Axis::Horizontal => (rect.x, rect.width),
        Axis::Vertical => (rect.y, rect.height),
    };
    let end: u32 = start + length;
    let mut cursor: u32 = start;
    let ghost mut taken: nat = 0;
    let ghost total = sample_count(length as int, step as int);
    proof {
        lemma_sample_on_stretch(length as int, step as int, 0);
        lemma_few_samples(length as int, step as int);
    }
    while cursor < end
        invariant
            picture.well_formed(),
            picture@.has_line(axis, fixed as int, end as int),
            step > 0,
            length > 0,
            start + length == end,
            total == sample_count(length as int, step as int),
            total <= u32::MAX,
            start <= cursor,
            taken <= total,
            cursor < end ==> cursor == start + taken * step,
            (cursor < end) == (taken < total),
            0 <= most <= 64 * u32::MAX,
            counts_hold(counts@, most + taken),
            forall|g: int|
                0 <= g < GRAYS ==> #[trigger] counts@[g] == old(counts)@[g] + line_hits(
                    picture@,
                    axis,
                    fixed as int,
                    start as int,
                    step as int,
                    taken,
                    has_gray(g),
                ),
        decreases total - taken,
    {
        let color = picture.line_pixel(axis, fixed, cursor);
        if color.is_neutral_gray() {
            let gray: usize = color.gray_value() as usize;
            let count: u64 = counts[gray];
            counts.set(gray, count + 1);
        }
        proof {
            lemma_sample_on_stretch(length as int, step as int, (taken + 1) as int);
            assert((taken + 1) * step == taken * step + step) by (nonlinear_arith);
            assert((taken + 1 - 1) as nat == taken);
            taken = taken + 1;
        }
        cursor = cursor.saturating_add(step);
    }
}

fn gather_theme_band(
    picture: &Picture,
    rect: PixelRect,
    axis: Axis,
    first: u32,
    lines: u32,
    step: u32,
    counts: &mut Vec<u64>,
    Ghost(most): Ghost<int>,
)
    requires
        picture.well_formed(),
        picture@.holds(rect),
        rect.width > 0,
        rect.height > 0,
        first_line(rect, axis) <= first,
        first + lines <= first_line(rect, axis) + depth(rect, axis),
        lines <= 8,
        step > 0,
        counts_hold(old(counts)@, most),
        0 <= most <= 32 * u32::MAX,
    ensures
        counts_hold(final(counts)@, most + 8 * u32::MAX),
        forall|g: int|
            0 <= g < GRAYS ==> #[trigger] final(counts)@[g] == old(counts)@[g] + band_grays(
                picture@,
                rect,
                axis,
                first as int,
                lines as nat,
                step as int,
                g,
            ),
{
    let mut line: u32 = 0;
    while line < lines
        invariant
            picture.well_formed(),
            picture@.holds(rect),
            rect.width > 0,
            rect.height > 0,
            first_line(rect, axis) <= first,
            first + lines <= first_line(rect, axis) + depth(rect, axis),
            line <= lines <= 8,
            step > 0,
            0 <= most <= 32 * u32::MAX,
            counts_hold(counts@, most + line * u32::MAX),
            forall|g: int|
                0 <= g < GRAYS ==> #[trigger] counts@[g] == old(counts)@[g] + band_grays(
                    picture@,
                    rect,
                    axis,
                    first as int,
                    line as nat,
                    step as int,
                    g,
                ),
        decreases lines - line,
    {
        gather_theme_line(
            picture,
            rect,
            axis,
            first + line,
            step,
            counts,
            Ghost(most + line * u32::MAX),
        );
        proof {
            assert((line + 1 - 1) as nat == line as nat);
        }
        line += 1;
    }
}

/// Counts the grays along the edges of a rectangle.
fn gather_theme(picture: &Picture, rect: PixelRect) -> (result: Vec<u64>)
    requires
        picture.well_formed(),
        picture@.holds(rect),
        rect.width > 0,
        rect.height > 0,
    ensures
        counts_hold(result@, 32 * u32::MAX),
        forall|g: int|
            0 <= g < GRAYS ==> #[trigger] result@[g] == theme_grays(picture@, rect, g),
{
    let band: u32 = clamp_u32(min_u32(rect.width, rect.height) / 36, 1, 8);
    let step: u32 = max_u32(max_u32(rect.width, rect.height) / 768, 1);
    let mut counts: Vec<u64> = Vec::new();
    counts.resize(GRAYS, 0);
    gather_theme_band(
        picture,
        rect,
        Axis::Horizontal,
        rect.y,
        band,
        step,
        &mut counts,
        Ghost(0),
    );
    gather_theme_band(
        picture,
        rect,
        Axis::Horizontal,
        rect.y + (rect.height - band),
        band,
        step,
        &mut counts,
        Ghost(8 * u32::MAX),
    );
    gather_theme_band(
        picture,
        rect,
        Axis::Vertical,
        rect.x,
        band,
        step,
        &mut counts,
        Ghost(16 * u32::MAX),
    );
    gather_theme_band(
        picture,
        rect,
        Axis::Vertical,
        rect.x + (rect.width - band),
        band,
        step,
        &mut counts,
        Ghost(24 * u32::MAX),
    );
    counts
}

fn count_near(
    counts: &Vec<u64>,
    anchor: u8,
    Ghost(picture): Ghost<Pixels>,
    rect: PixelRect,
) -> (result: u64)
    requires
        counts_hold(counts@, 32 * u32::MAX),
        forall|g: int| 0 <= g < GRAYS ==> #[trigger] counts@[g] == theme_grays(picture, rect, g),
        GRAY_TOLERANCE <= anchor <= 200,
    ensures
        result == grays_near(picture, rect, anchor),
{
    let low: usize = (anchor - GRAY_TOLERANCE) as usize;
    let high: usize = anchor as usize + GRAY_TOLERANCE as usize + 1;
    let mut sum: u64 = 0;
    let mut gray: usize = low;
    while gray < high
        invariant
            counts_hold(counts@, 32 * u32::MAX),
            forall|g: int|
                0 <= g < GRAYS ==> #[trigger] counts@[g] == theme_grays(picture, rect, g),
            low <= gray <= high < GRAYS,
            sum <= (gray - low) * (32 * u32::MAX),
            sum == grays_between(picture, rect, low as int, gray as int),
        decreases high - gray,
    {
        sum += counts[gray];
        gray += 1;
    }
    sum
}

fn find_nth_gray(
    counts: &Vec<u64>,
    low: u8,
    number: u64,
    Ghost(picture): Ghost<Pixels>,
    rect: PixelRect,
) -> (result: u8)
    requires
        counts_hold(counts@, 32 * u32::MAX),
        forall|g: int| 0 <= g < GRAYS ==> #[trigger] counts@[g] == theme_grays(picture, rect, g),
    ensures
        result == nth_gray(picture, rect, low as int, number as int),
{
    let mut gray: u8 = low;
    let mut left: u64 = number;
    while gray < 255 && left >= counts[gray as usize]
        invariant
            counts_hold(counts@, 32 * u32::MAX),
            forall|g: int|
                0 <= g < GRAYS ==> #[trigger] counts@[g] == theme_grays(picture, rect, g),
            nth_gray(picture, rect, low as int, number as int) == nth_gray(
                picture,
                rect,
                gray as int,
                left as int,
            ),
        decreases 255 - gray,
    {
        left -= counts[gray as usize];
        gray += 1;
    }
    gray
}

/// Counts the samples along the edges of a rectangle.
fn count_samples(rect: PixelRect) -> (result: u64)
    requires
        rect.width > 0,
        rect.height > 0,
    ensures
        result == theme_samples(rect),
{
    let band: u32 = clamp_u32(min_u32(rect.width, rect.height) / 36, 1, 8);
    let step: u32 = max_u32(max_u32(rect.width, rect.height) / 768, 1);
    let columns: u64 = ((rect.width - 1) / step) as u64 + 1;
    let rows: u64 = ((rect.height - 1) / step) as u64 + 1;
    proof {
        assert(2 * band * (columns + rows) <= 16 * (columns + rows)) by (nonlinear_arith)
            requires
                band <= 8,
                columns + rows >= 0,
        ;
    }
    2 * band as u64 * (columns + rows)
}

/// Looks for the background of Teams along the edges of a rectangle.
pub fn estimate_theme_background(picture: &Picture, rect: PixelRect) -> (result: Option<
    ThemeBackground,
>)
    requires
        picture.well_formed(),
        picture@.holds(rect),
        rect.width > 0,
        rect.height > 0,
    ensures
        result == theme_background(picture@, rect),
{
    let pixels: Ghost<Pixels> = Ghost(picture@);
    let counts = gather_theme(picture, rect);
    let dark: u64 = count_near(&counts, DARK_TEAMS_BACKGROUND, pixels, rect);
    let light: u64 = count_near(&counts, LIGHT_TEAMS_BACKGROUND, pixels, rect);
    let anchor: u8 = if dark >= light { DARK_TEAMS_BACKGROUND } else { LIGHT_TEAMS_BACKGROUND };
    let samples: u64 = if dark >= light { dark } else { light };
    if samples < 8 {
        return None;
    }
    let gray: u8 = find_nth_gray(&counts, anchor - GRAY_TOLERANCE, samples / 2, pixels, rect);
    let frequency = ratio(samples, count_samples(rect));
    let anchor_score = from_int(1).sub(ratio(abs_diff_u8(gray, anchor) as u64, 30)).clamp(
        from_int(0),
        from_int(1),
    );
    let confidence = weigh(frequency.div(ratio(28, 100)), 64).add(
        anchor_score.mul(ratio(36, 100)),
    ).min(from_int(1));
    Some(ThemeBackground { gray, confidence })
}

proof fn lemma_lowest_gray(picture: Pixels, rect: PixelRect, low: int, high: int)
    requires
        low < high,
    ensures
        grays_between(picture, rect, low, high) == theme_grays(picture, rect, low) + grays_between(
            picture,
            rect,
            low + 1,
            high,
        ),
    decreases high - low,
{
    if low + 1 < high {
        lemma_lowest_gray(picture, rect, low, high - 1);
    } else {
        assert(grays_between(picture, rect, low, low) == 0);
        assert(grays_between(picture, rect, low + 1, high) == 0);
    }
}

proof fn lemma_nth_gray(picture: Pixels, rect: PixelRect, low: int, high: int, number: int)
    requires
        low < high < GRAYS,
        0 <= number < grays_between(picture, rect, low, high),
    ensures
        low <= nth_gray(picture, rect, low, number) < high,
        theme_grays(picture, rect, nth_gray(picture, rect, low, number)) > 0,
    decreases high - low,
{
    lemma_lowest_gray(picture, rect, low, high);
    let here = theme_grays(picture, rect, low);
    if number >= here {
        if low + 1 >= high {
            assert(grays_between(picture, rect, low + 1, high) == 0);
        }
        lemma_nth_gray(picture, rect, low + 1, high, number - here);
    }
}

/// The background that is found was seen along the edges, and is near one of Teams'.
pub proof fn law_background_is_known(picture: Pixels, rect: PixelRect)
    requires
        theme_background(picture, rect) is Some,
    ensures
        ({
            let gray = theme_background(picture, rect)->0.gray;
            &&& theme_grays(picture, rect, gray as int) > 0
            &&& is_known_gray(gray as int, GRAY_TOLERANCE as int)
        }),
{
    let anchor = theme_anchor(picture, rect);
    let samples = grays_near(picture, rect, anchor);
    lemma_nth_gray(
        picture,
        rect,
        anchor - GRAY_TOLERANCE,
        anchor + GRAY_TOLERANCE + 1,
        samples as int / 2,
    );
}

/// A pixel has a gray where its channels are close to each other and their mean is that gray.
pub proof fn law_pixels_have_one_gray(color: Color, gray: int, other: int)
    requires
        0 <= gray <= 255,
        0 <= other <= 255,
    ensures
        has_gray(gray).holds(color) <==> color.is_gray() && color.gray() == gray,
        has_gray(gray).holds(color) && has_gray(other).holds(color) ==> gray == other,
{
}

/// The grays of two ranges side by side are those of both.
proof fn lemma_grays_split(picture: Pixels, rect: PixelRect, low: int, middle: int, high: int)
    requires
        low <= middle <= high,
    ensures
        grays_between(picture, rect, low, high) == grays_between(picture, rect, low, middle)
            + grays_between(picture, rect, middle, high),
    decreases high - middle,
{
    if middle < high {
        lemma_grays_split(picture, rect, low, middle, high - 1);
    }
}

/// The sample with a number is found at the gray below which there are not more samples than
/// that, and up to which there are more: half of the number gives the median.
pub proof fn law_samples_are_found_by_their_number(
    picture: Pixels,
    rect: PixelRect,
    gray: int,
    number: int,
)
    requires
        gray <= 255,
        0 <= number < grays_between(picture, rect, gray, 256),
    ensures
        ({
            let found = nth_gray(picture, rect, gray, number);
            &&& gray <= found <= 255
            &&& grays_between(picture, rect, gray, found) <= number
            &&& number < grays_between(picture, rect, gray, found + 1)
        }),
    decreases 256 - gray,
{
    let found = nth_gray(picture, rect, gray, number);
    assert(grays_between(picture, rect, gray, gray) == 0);
    assert(grays_between(picture, rect, gray, gray + 1) == theme_grays(picture, rect, gray)) by {
        reveal_with_fuel(grays_between, 2);
    }
    if gray < 255 && number >= theme_grays(picture, rect, gray) {
        lemma_grays_split(picture, rect, gray, gray + 1, 256);
        let rest = number - theme_grays(picture, rect, gray);
        law_samples_are_found_by_their_number(picture, rect, gray + 1, rest);
        lemma_grays_split(picture, rect, gray, gray + 1, found);
        lemma_grays_split(picture, rect, gray, gray + 1, found + 1);
    }
}

/// The background is looked for about the more frequent of the two, and there is one exactly
/// where eight samples are near it.
pub proof fn law_the_more_frequent_background_counts(picture: Pixels, rect: PixelRect)
    ensures
        theme_anchor(picture, rect) == 0x47 || theme_anchor(picture, rect) == 0xb2,
        grays_near(picture, rect, theme_anchor(picture, rect)) >= grays_near(picture, rect, 0x47),
        grays_near(picture, rect, theme_anchor(picture, rect)) >= grays_near(picture, rect, 0xb2),
        theme_background(picture, rect) is Some <==> grays_near(picture, rect, 0x47) >= 8
            || grays_near(picture, rect, 0xb2) >= 8,
        grays_near(picture, rect, 0x47) == grays_between(picture, rect, 43, 100),
        grays_near(picture, rect, 0xb2) == grays_between(picture, rect, 150, 207),
{
}

/// The background is the median of the samples near the more frequent background of Teams: as
/// many of them are darker as not.
pub proof fn law_the_background_is_the_median(picture: Pixels, rect: PixelRect)
    requires
        theme_background(picture, rect) is Some,
    ensures
        ({
            let gray = theme_background(picture, rect)->0.gray as int;
            let anchor = theme_anchor(picture, rect) as int;
            let samples = grays_near(picture, rect, theme_anchor(picture, rect));
            &&& anchor - 28 <= gray <= anchor + 28
            &&& 2 * grays_between(picture, rect, anchor - 28, gray) <= samples
            &&& 2 * grays_between(picture, rect, anchor - 28, gray + 1) > samples - 1
        }),
{
    let anchor = theme_anchor(picture, rect) as int;
    let samples = grays_near(picture, rect, theme_anchor(picture, rect));
    let number = samples as int / 2;
    lemma_grays_split(picture, rect, anchor - 28, anchor + 29, 256);
    law_samples_are_found_by_their_number(picture, rect, anchor - 28, number);
    let found = nth_gray(picture, rect, anchor - 28, number);
    if found >= anchor + 29 {
        lemma_grays_split(picture, rect, anchor - 28, anchor + 29, found);
    }
}

/// The sampled bands are one to eight lines deep, and the samples on all four sides are
/// counted.
pub proof fn law_bands_are_thin(rect: PixelRect)
    ensures
        1 <= theme_band(rect) <= 8,
        rect.width < 72 || rect.height < 72 ==> theme_band(rect) == 1,
        rect.width >= 288 && rect.height >= 288 ==> theme_band(rect) == 8,
        theme_step(rect) >= 1,
        rect.width < 1536 && rect.height < 1536 ==> theme_step(rect) == 1,
        0 < rect.width < 1536 && 0 < rect.height < 1536 ==> theme_samples(rect) == 2 * theme_band(
            rect,
        ) * (rect.width + rect.height),
{
    if 0 < rect.width < 1536 && 0 < rect.height < 1536 {
        assert((rect.width - 1) / 1 == rect.width - 1);
        assert((rect.height - 1) / 1 == rect.height - 1);
        let band = theme_band(rect);
        let sum = rect.width + rect.height;
        assert(2 * band * sum >= 0) by (nonlinear_arith)
            requires
                band >= 1,
                sum >= 0,
        ;
    }
}

/// No background is surer than sure.
pub proof fn law_backgrounds_are_at_most_sure(samples: nat, total: nat, gray: int, anchor: int)
    ensures
        whole(1).at_least(theme_confidence(samples, total, gray, anchor)),
{
    let sum = weighted(fraction(samples, total).over(fraction(28, 100)), 64).plus(
        whole(1).minus(fraction(abs_int(gray - anchor) as nat, 30)).held(zero(), whole(1)).times(
            fraction(36, 100),
        ),
    );
    law_the_smaller_is_above_neither(sum, whole(1));
}

} // verus!
