//! The small copy of a picture in which content is looked for: which of its cells stand
//! out from the background, and by how much.

use vstd::prelude::*;

use crate::detector::background::{edge_background, estimate_background_from_perimeter};
use crate::detector::color::Color;
use crate::detector::mask::{Grid, Mask};
use crate::detector::picture::{Picture, Pixels, MOST_SMALL_ROWS};
use crate::numeric::{max_int, max_u32, min_int};
use crate::single::{
    fraction, from_int, law_at_least_both_ways_is_equal, law_fractions_are_not_negative,
    law_multiplying_keeps_the_order, law_numbers_cancel,
    law_operations_commute, law_order_is_transitive, law_shares_are_compared_by_their_parts,
    law_small_integers_are_in_order, law_small_integers_are_kept, law_small_integers_divide,
    law_the_smaller_is_above_neither, law_whole_share_is_one, lemma_canonical_is_kept,
    lemma_fraction_is_positive, lemma_fraction_of_nothing, lemma_fractions_are_modest,
    lemma_naturals_are_modest, lemma_scaled_length, lemma_smaller_exponent, lemma_zero_is_modest,
    ratio, whole, zero, Single,
};

verus! {

/// Width of the small copy.
pub const VISUAL_MAX_WIDTH: u32 = 320;

/// Height of the small copy.
pub const VISUAL_MAX_HEIGHT: u32 = 180;

/// The pixels that `image::imageops::resize` gives for an RGBA picture with the triangle
/// filter.
pub uninterp spec fn resized(
    width: u32,
    height: u32,
    pixels: Seq<u8>,
    new_width: u32,
    new_height: u32,
) -> Seq<u8>;

/// `image::imageops::resize` with the triangle filter: the picture in its new size. A
/// picture that has the size already is copied.
#[verifier::external_body]
fn resample(picture: &Picture, width: u32, height: u32) -> (result: Picture)
    requires
        picture.well_formed(),
        picture.width > 0,
        picture.height > 0,
        0 < width <= MOST_SMALL_ROWS,
        0 < height <= MOST_SMALL_ROWS,
    ensures
        result.well_formed(),
        result.width == width,
        result.height == height,
        result.pixels@ == resized(picture.width, picture.height, picture.pixels@, width, height),
        width == picture.width && height == picture.height ==> result.pixels@ == picture.pixels@,
{
    let view = image::ImageBuffer::<image::Rgba<u8>, &[u8]>::from_raw(
        picture.width,
        picture.height,
        picture.pixels.as_slice(),
    ).unwrap();
    let small = image::imageops::resize(
        &view,
        width,
        height,
        image::imageops::FilterType::Triangle,
    );
    Picture { width, height, pixels: small.into_raw() }
}

/// How much a picture is made smaller.
pub open spec fn analysis_scale(width: u32, height: u32) -> Single {
    fraction(VISUAL_MAX_WIDTH as nat, width as nat).smaller(
        fraction(VISUAL_MAX_HEIGHT as nat, height as nat),
    ).smaller(whole(1))
}

/// A side of the small copy.
pub open spec fn small_side(length: u32, scale: Single) -> u32 {
    max_int(whole(length as nat).times(scale).nearest_natural() as int, 1) as u32
}

/// The small copy of a picture.
pub open spec fn small_copy(picture: Pixels) -> Pixels {
    let scale = analysis_scale(picture.width, picture.height);
    let width = small_side(picture.width, scale);
    let height = small_side(picture.height, scale);
    Pixels {
        width,
        height,
        bytes: resized(picture.width, picture.height, picture.bytes, width, height),
    }
}

proof fn lemma_small_sides(width: u32, height: u32)
    requires
        width > 0,
        height > 0,
    ensures
        whole(width as nat).times(analysis_scale(width, height)).nearest_natural() <= 4096,
        whole(height as nat).times(analysis_scale(width, height)).nearest_natural() <= 4096,
{
    let across = fraction(320, width as nat);
    let down = fraction(180, height as nat);
    lemma_fraction_is_positive(320, width as nat);
    lemma_fraction_is_positive(180, height as nat);
    lemma_fraction_is_positive(1, 1);
    lemma_smaller_exponent(across, down);
    lemma_smaller_exponent(across.smaller(down), whole(1));
    lemma_scaled_length(width as nat, 320, analysis_scale(width, height));
    lemma_scaled_length(height as nat, 180, analysis_scale(width, height));
}

/// How far a colour has to be from a light background to stand out.
pub const LIGHT_THRESHOLD: u32 = 12;

/// How far a colour has to be from the background to stand out, by how light the
/// background is.
pub open spec fn color_threshold(background: Color) -> nat {
    if background.luminance_units() >= 43520 {
        LIGHT_THRESHOLD as nat
    } else if background.luminance_units() >= 32000 {
        18
    } else {
        24
    }
}

fn threshold_for(background: Color) -> (result: u32)
    ensures
        result == color_threshold(background),
{
    let luminance: u32 = background.luminance();
    if luminance >= 43520 {
        LIGHT_THRESHOLD
    } else if luminance >= 32000 {
        18
    } else {
        24
    }
}

/// How strong an edge has to be for a weaker colour to stand out.
pub open spec fn edge_threshold(background: Color) -> nat {
    if background.luminance_units() >= 43520 {
        10
    } else if background.luminance_units() >= 32000 {
        15
    } else {
        20
    }
}

fn edge_threshold_for(background: Color) -> (result: u32)
    ensures
        result == edge_threshold(background),
{
    let luminance: u32 = background.luminance();
    if luminance >= 43520 {
        10
    } else if luminance >= 32000 {
        15
    } else {
        20
    }
}

/// Largest distance of a pixel from its four neighbours.
pub open spec fn edge_strength(picture: Pixels, x: int, y: int) -> Single {
    let here = picture.at(x, y);
    zero().larger(here.distance(picture.at(x - 1, y))).larger(
        here.distance(picture.at(x + 1, y)),
    ).larger(here.distance(picture.at(x, y - 1))).larger(here.distance(picture.at(x, y + 1)))
}

fn local_edge_strength(picture: &Picture, x: u32, y: u32) -> (result: Single)
    requires
        picture.well_formed(),
        0 < x < picture.width - 1,
        0 < y < picture.height - 1,
    ensures
        result == edge_strength(picture@, x as int, y as int),
{
    let here = picture.pixel(x, y);
    from_int(0).max(here.color_distance(picture.pixel(x - 1, y))).max(
        here.color_distance(picture.pixel(x + 1, y)),
    ).max(here.color_distance(picture.pixel(x, y - 1))).max(
        here.color_distance(picture.pixel(x, y + 1)),
    )
}

/// The place does not lie on the edge of the picture.
pub open spec fn is_inner(picture: Pixels, x: int, y: int) -> bool {
    0 < x < picture.width - 1 && 0 < y < picture.height - 1
}

/// A pixel inside the picture stands out from the background by its colour, or by a weaker
/// colour together with an edge.
pub open spec fn stands_out(picture: Pixels, background: Color, x: int, y: int) -> bool {
    let distance = picture.at(x, y).distance(background);
    let threshold = whole(color_threshold(background));
    is_inner(picture, x, y) && (distance.at_least(threshold) || (distance.at_least(
        threshold.times(fraction(35, 100)),
    ) && edge_strength(picture, x, y).at_least(whole(edge_threshold(background)))))
}

/// Distance of a pixel inside the picture from the background, rounded; zero on the edge.
pub open spec fn distance_level(picture: Pixels, background: Color, x: int, y: int) -> u8 {
    if is_inner(picture, x, y) {
        min_int(
            picture.at(x, y).distance(background).nearest_natural() as int,
            255,
        ) as u8
    } else {
        0
    }
}

/// The place and its eight neighbours stand out.
pub open spec fn is_solid(picture: Pixels, background: Color, x: int, y: int) -> bool {
    &&& stands_out(picture, background, x - 1, y - 1)
    &&& stands_out(picture, background, x, y - 1)
    &&& stands_out(picture, background, x + 1, y - 1)
    &&& stands_out(picture, background, x - 1, y)
    &&& stands_out(picture, background, x, y)
    &&& stands_out(picture, background, x + 1, y)
    &&& stands_out(picture, background, x - 1, y + 1)
    &&& stands_out(picture, background, x, y + 1)
    &&& stands_out(picture, background, x + 1, y + 1)
}

/// The place belongs to something at least three pixels thick that stands out.
pub open spec fn is_structured(picture: Pixels, background: Color, x: int, y: int) -> bool {
    ||| is_solid(picture, background, x - 1, y - 1)
    ||| is_solid(picture, background, x, y - 1)
    ||| is_solid(picture, background, x + 1, y - 1)
    ||| is_solid(picture, background, x - 1, y)
    ||| is_solid(picture, background, x, y)
    ||| is_solid(picture, background, x + 1, y)
    ||| is_solid(picture, background, x - 1, y + 1)
    ||| is_solid(picture, background, x, y + 1)
    ||| is_solid(picture, background, x + 1, y + 1)
}

/// What an analysis knows of its cells, row by row.
pub struct Analysis {
    pub width: int,
    pub height: int,
    pub threshold: nat,
    pub active: Grid,
    pub distance: Seq<u8>,
}

impl Analysis {
    pub open spec fn on(self, x: int, y: int) -> bool {
        self.active.cells[y * self.width + x]
    }

    pub open spec fn level(self, x: int, y: int) -> u8 {
        self.distance[y * self.width + x]
    }
}

/// The analysis of a small picture.
pub open spec fn analyzed(small: Pixels) -> Analysis {
    let background = edge_background(small);
    let width = small.width as int;
    let height = small.height as int;
    Analysis {
        width,
        height,
        threshold: color_threshold(background),
        active: Grid {
            width,
            height,
            cells: Seq::new(
                (width * height) as nat,
                |i: int| is_structured(small, background, i % width, i / width),
            ),
        },
        distance: Seq::new(
            (width * height) as nat,
            |i: int| distance_level(small, background, i % width, i / width),
        ),
    }
}

/// The analysis of a picture; `None` where it is too small.
pub open spec fn analysis_of(picture: Pixels) -> Option<Analysis> {
    if picture.width < 160 || picture.height < 90 {
        None
    } else {
        Some(analyzed(small_copy(picture)))
    }
}

/// The small copy of a picture, with the cells that stand out.
#[derive(Debug)]
pub struct AnalysisFrame {
    pub width: u32,
    pub height: u32,
    pub threshold: u32,
    pub active: Mask,
    pub distance: Vec<u8>,
}

impl View for AnalysisFrame {
    type V = Analysis;

    open spec fn view(&self) -> Analysis {
        Analysis {
            width: self.width as int,
            height: self.height as int,
            threshold: self.threshold as nat,
            active: self.active@,
            distance: self.distance@,
        }
    }
}

impl AnalysisFrame {
    pub open spec fn well_formed(&self) -> bool {
        &&& self.active.well_formed()
        &&& self.active.width == self.width
        &&& self.active.height == self.height
        &&& 0 < self.width <= MOST_SMALL_ROWS
        &&& 0 < self.height <= MOST_SMALL_ROWS
        &&& self.distance@.len() == self.width * self.height
    }

    fn measure(small: &Picture, background: Color) -> (result: (Mask, Vec<u8>))
        requires
            small.well_formed(),
            0 < small.width <= MOST_SMALL_ROWS,
            0 < small.height <= MOST_SMALL_ROWS,
        ensures
            result.0.well_formed(),
            result.0.width == small.width,
            result.0.height == small.height,
            result.1@.len() == small.width * small.height,
            forall|x: int, y: int| #[trigger]
                result.0.on(x, y) == stands_out(small@, background, x, y),
            forall|x: int, y: int|
                0 <= x < small.width && 0 <= y < small.height ==> #[trigger] result.1@[y
                    * small.width + x] == distance_level(small@, background, x, y),
    {
        let width: u32 = small.width;
        let height: u32 = small.height;
        let threshold = from_int(threshold_for(background) as u64);
        let weak_threshold = threshold.mul(ratio(35, 100));
        let edge_minimum = from_int(edge_threshold_for(background) as u64);
        let mut cells: Vec<bool> = Vec::new();
        let mut distances: Vec<u8> = Vec::new();
        let mut y: u32 = 0;
        assert(0 * width == 0) by (nonlinear_arith);
        while y < height
            invariant
                small.well_formed(),
                width == small.width,
                height == small.height,
                y <= height,
                width <= MOST_SMALL_ROWS,
                height <= MOST_SMALL_ROWS,
                threshold == whole(color_threshold(background)),
                weak_threshold == threshold.times(fraction(35, 100)),
                edge_minimum == whole(edge_threshold(background)),
                cells@.len() == y * width,
                distances@.len() == y * width,
                forall|a: int, b: int|
                    0 <= a < width && 0 <= b < y ==> #[trigger] cells@[b * width + a]
                        == stands_out(small@, background, a, b),
                forall|a: int, b: int|
                    0 <= a < width && 0 <= b < y ==> #[trigger] distances@[b * width + a]
                        == distance_level(small@, background, a, b),
            decreases height - y,
        {
            let mut x: u32 = 0;
            while x < width
                invariant
                    small.well_formed(),
                    width == small.width,
                    height == small.height,
                    x <= width,
                    y < height,
                    threshold == whole(color_threshold(background)),
                    weak_threshold == threshold.times(fraction(35, 100)),
                    edge_minimum == whole(edge_threshold(background)),
                    cells@.len() == y * width + x,
                    distances@.len() == y * width + x,
                    forall|a: int, b: int|
                        0 <= a < width && 0 <= b && (b < y || (b == y && a < x))
                            ==> #[trigger] cells@[b * width + a] == stands_out(
                            small@,
                            background,
                            a,
                            b,
                        ),
                    forall|a: int, b: int|
                        0 <= a < width && 0 <= b && (b < y || (b == y && a < x))
                            ==> #[trigger] distances@[b * width + a] == distance_level(
                            small@,
                            background,
                            a,
                            b,
                        ),
                decreases width - x,
            {
                let (active, level): (bool, u8) = if x == 0 || y == 0 || x + 1 >= width || y + 1
                    >= height {
                    (false, 0)
                } else {
                    let distance = small.pixel(x, y).color_distance(background);
                    let active = distance.ge(threshold) || (distance.ge(weak_threshold)
                        && local_edge_strength(small, x, y).ge(edge_minimum));
                    let nearest: u32 = distance.to_nearest();
                    (active, if nearest > 255 { 255 } else { nearest as u8 })
                };
                let ghost (old_cells, old_distances) = (cells@, distances@);
                cells.push(active);
                distances.push(level);
                proof {
                    assert forall|a: int, b: int|
                        0 <= a < width && 0 <= b && (b < y || (b == y && a < x + 1)) implies #[trigger] cells@[b
                        * width + a] == stands_out(small@, background, a, b) by {
                        if b < y || a < x {
                            lemma_place_before(a, b, x as int, y as int, width as int);
                            assert(cells@[b * width + a] == old_cells[b * width + a]);
                        }
                    }
                    assert forall|a: int, b: int|
                        0 <= a < width && 0 <= b && (b < y || (b == y && a < x + 1)) implies #[trigger] distances@[b
                        * width + a] == distance_level(small@, background, a, b) by {
                        if b < y || a < x {
                            lemma_place_before(a, b, x as int, y as int, width as int);
                            assert(distances@[b * width + a] == old_distances[b * width + a]);
                        }
                    }
                }
                x += 1;
            }
            assert((y + 1) * width == y * width + width) by (nonlinear_arith);
            y += 1;
        }
        proof {
            assert(width * height == height * width) by (nonlinear_arith);
            assert(width * height <= MOST_SMALL_ROWS * MOST_SMALL_ROWS) by (nonlinear_arith)
                requires
                    0 <= width <= MOST_SMALL_ROWS,
                    0 <= height <= MOST_SMALL_ROWS,
            ;
        }
        let mask = Mask { width, height, cells };
        (mask, distances)
    }

    /// Analyzes the small copy of a picture.
    pub fn from_small(small: &Picture) -> (result: AnalysisFrame)
        requires
            small.well_formed(),
            0 < small.width <= MOST_SMALL_ROWS,
            0 < small.height <= MOST_SMALL_ROWS,
        ensures
            result.well_formed(),
            result@ == analyzed(small@),
    {
        let width: u32 = small.width;
        let height: u32 = small.height;
        let background = estimate_background_from_perimeter(small);
        let (raw, distance) = Self::measure(small, background);
        let active = raw.open();
        proof {
            let w = width as int;
            let h = height as int;
            let model = analyzed(small@);
            assert forall|x: int, y: int| #[trigger] active.on(x, y) implies is_structured(
                small@,
                background,
                x,
                y,
            ) by {
                assert(active.on(x, y) == raw.opened(x, y));
                lemma_opened(raw, small@, background, x, y);
            }
            assert forall|x: int, y: int|
                0 <= x < w && 0 <= y < h && is_structured(
                    small@,
                    background,
                    x,
                    y,
                ) implies #[trigger] active.on(x, y) by {
                assert(active.on(x, y) == raw.opened(x, y));
                lemma_opened(raw, small@, background, x, y);
            }
            assert(w * h == h * w) by (nonlinear_arith);
            assert forall|i: int| 0 <= i < w * h implies #[trigger] active.cells@[i]
                == model.active.cells[i] by {
                lemma_place_of(i, w, h);
                let x = i % w;
                let y = i / w;
                assert(active.on(x, y) == active.cells@[y * w + x]);
            }
            assert forall|i: int| 0 <= i < w * h implies #[trigger] distance@[i]
                == model.distance[i] by {
                lemma_place_of(i, w, h);
                let x = i % w;
                let y = i / w;
                assert(distance@[y * w + x] == distance_level(small@, background, x, y));
            }
            assert(active.cells@ =~= model.active.cells);
            assert(distance@ =~= model.distance);
        }
        let threshold: u32 = threshold_for(background);
        AnalysisFrame { width, height, threshold, active, distance }
    }

    /// Analyzes a picture. `None` where it is too small.
    pub fn new(picture: &Picture) -> (result: Option<AnalysisFrame>)
        requires
            picture.well_formed(),
        ensures
            result is Some == (analysis_of(picture@) is Some),
            result is Some ==> result->0.well_formed() && result->0@ == analysis_of(picture@)->0,
    {
        if picture.width < 160 || picture.height < 90 {
            return None;
        }
        proof {
            lemma_small_sides(picture.width, picture.height);
        }
        let scale = ratio(VISUAL_MAX_WIDTH as u64, picture.width as u64).min(
            ratio(VISUAL_MAX_HEIGHT as u64, picture.height as u64),
        ).min(from_int(1));
        let width: u32 = max_u32(from_int(picture.width as u64).mul(scale).to_nearest(), 1);
        let height: u32 = max_u32(from_int(picture.height as u64).mul(scale).to_nearest(), 1);
        let small = resample(picture, width, height);
        assert(small@ == small_copy(picture@));
        Some(Self::from_small(&small))
    }
}

/// Opening the mask of cells that stand out leaves those of structures.
proof fn lemma_opened(raw: Mask, small: Pixels, background: Color, x: int, y: int)
    requires
        raw.width == small.width,
        raw.height == small.height,
        forall|a: int, b: int| #[trigger] raw.on(a, b) == stands_out(small, background, a, b),
    ensures
        raw.opened(x, y) ==> is_structured(small, background, x, y),
        0 <= x < small.width && 0 <= y < small.height && is_structured(small, background, x, y)
            ==> raw.opened(x, y),
{
    lemma_surrounded(raw, small, background, x - 1, y - 1);
    lemma_surrounded(raw, small, background, x, y - 1);
    lemma_surrounded(raw, small, background, x + 1, y - 1);
    lemma_surrounded(raw, small, background, x - 1, y);
    lemma_surrounded(raw, small, background, x, y);
    lemma_surrounded(raw, small, background, x + 1, y);
    lemma_surrounded(raw, small, background, x - 1, y + 1);
    lemma_surrounded(raw, small, background, x, y + 1);
    lemma_surrounded(raw, small, background, x + 1, y + 1);
}

proof fn lemma_surrounded(raw: Mask, small: Pixels, background: Color, x: int, y: int)
    requires
        forall|a: int, b: int| #[trigger] raw.on(a, b) == stands_out(small, background, a, b),
    ensures
        raw.surrounded(x, y) == is_solid(small, background, x, y),
{
}

proof fn lemma_place_before(x: int, y: int, later_x: int, later_y: int, width: int)
    requires
        0 <= x < width,
        0 <= y,
        0 <= later_x,
        y < later_y || (y == later_y && x < later_x),
    ensures
        0 <= y * width + x < later_y * width + later_x,
{
    assert(0 <= y * width) by (nonlinear_arith)
        requires
            0 <= y,
            0 <= width,
    ;
    if y < later_y {
        assert(y * width + width <= later_y * width) by (nonlinear_arith)
            requires
                y + 1 <= later_y,
                0 <= width,
        ;
    }
}

proof fn lemma_place_of(index: int, width: int, height: int)
    requires
        width > 0,
        0 <= index < width * height,
    ensures
        0 <= index % width < width,
        0 <= index / width < height,
        index == (index / width) * width + index % width,
{
    vstd::arithmetic::div_mod::lemma_fundamental_div_mod(index, width);
    let q = index / width;
    assert(width * q == q * width) by (nonlinear_arith);
    vstd::arithmetic::div_mod::lemma_div_pos_is_pos(index, width);
    assert(q < height) by (nonlinear_arith)
        requires
            width * q <= index,
            index < width * height,
            width > 0,
    ;
}

/// The small copy of a picture is small and not empty.
pub proof fn lemma_analysis_size(picture: Pixels)
    requires
        analysis_of(picture) is Some,
    ensures
        0 < analysis_of(picture)->0.width <= MOST_SMALL_ROWS,
        0 < analysis_of(picture)->0.height <= MOST_SMALL_ROWS,
{
    lemma_small_sides(picture.width, picture.height);
}

/// The lighter the background, the less a colour has to differ from it; the limits are those
/// of a light and of a medium gray.
pub proof fn law_light_backgrounds_ask_for_less(background: Color, lighter: Color)
    requires
        background.luminance_units() <= lighter.luminance_units(),
    ensures
        color_threshold(lighter) <= color_threshold(background),
        edge_threshold(lighter) <= edge_threshold(background),
        color_threshold(background) == 12 <==> background.luminance_units() >= 170 * 256,
        color_threshold(background) == 24 <==> background.luminance_units() < 125 * 256,
        color_threshold(background) == 12 || color_threshold(background) == 18
            || color_threshold(background) == 24,
        edge_threshold(background) < color_threshold(background),
        6 * edge_threshold(background) == 5 * color_threshold(background),
{
}

/// An edge is at least as strong as the difference to each of the four neighbours.
pub proof fn law_edges_are_as_strong_as_each_difference(picture: Pixels, x: int, y: int)
    ensures
        edge_strength(picture, x, y).at_least(
            picture.at(x, y).distance(picture.at(x - 1, y)),
        ),
        edge_strength(picture, x, y).at_least(
            picture.at(x, y).distance(picture.at(x + 1, y)),
        ),
        edge_strength(picture, x, y).at_least(
            picture.at(x, y).distance(picture.at(x, y - 1)),
        ),
        edge_strength(picture, x, y).at_least(
            picture.at(x, y).distance(picture.at(x, y + 1)),
        ),
{
    let here = picture.at(x, y);
    let a = zero().larger(here.distance(picture.at(x - 1, y)));
    let b = a.larger(here.distance(picture.at(x + 1, y)));
    let c = b.larger(here.distance(picture.at(x, y - 1)));
    let d = c.larger(here.distance(picture.at(x, y + 1)));
    law_the_smaller_is_above_neither(zero(), here.distance(picture.at(x - 1, y)));
    law_the_smaller_is_above_neither(a, here.distance(picture.at(x + 1, y)));
    law_the_smaller_is_above_neither(b, here.distance(picture.at(x, y - 1)));
    law_the_smaller_is_above_neither(c, here.distance(picture.at(x, y + 1)));
    law_order_is_transitive(d, c, b);
    law_order_is_transitive(d, b, a);
    law_order_is_transitive(d, c, here.distance(picture.at(x, y - 1)));
    law_order_is_transitive(d, b, here.distance(picture.at(x + 1, y)));
    law_order_is_transitive(d, a, here.distance(picture.at(x - 1, y)));
}

/// A pixel stands out wherever its channels differ from the background by the threshold on
/// average; one that has the background's colour, or lies on the edge, does not.
pub proof fn law_other_colours_stand_out(picture: Pixels, background: Color, x: int, y: int)
    ensures
        is_inner(picture, x, y) && picture.at(x, y).gap(background) >= 3 * color_threshold(
            background,
        ) ==> stands_out(picture, background, x, y),
        picture.at(x, y) == background ==> !stands_out(picture, background, x, y),
        x <= 0 || y <= 0 || x >= picture.width - 1 || y >= picture.height - 1 ==> !stands_out(
            picture,
            background,
            x,
            y,
        ),
        x <= 0 || y <= 0 || x >= picture.width - 1 || y >= picture.height - 1 ==> distance_level(
            picture,
            background,
            x,
            y,
        ) == 0,
        is_inner(picture, x, y) <==> 0 < x && x + 1 < picture.width && 0 < y && y + 1
            < picture.height,
{
    let threshold = color_threshold(background);
    let gap = picture.at(x, y).gap(background) as nat;
    law_small_integers_divide(threshold, 3);
    law_shares_are_compared_by_their_parts(gap, threshold * 3, 3);
    if picture.at(x, y) == background {
        lemma_fraction_of_nothing(3);
        assert(gap == 0);
        let part = fraction(35, 100);
        lemma_fractions_are_modest(35, 100);
        lemma_naturals_are_modest(threshold);
        lemma_zero_is_modest();
        law_fractions_are_not_negative(35, 100);
        law_small_integers_are_kept(threshold as int);
        law_small_integers_are_kept(1);
        law_small_integers_are_in_order(threshold as int, 1);
        law_multiplying_keeps_the_order(whole(threshold), whole(1), part);
        law_numbers_cancel(part);
        law_operations_commute(whole(1), part);
        law_shares_are_compared_by_their_parts(0, 35, 100);
        lemma_fraction_of_nothing(100);
        let least = whole(threshold).times(part);
        if zero().at_least(least) {
            law_order_is_transitive(zero(), least, part);
        }
    }
}

/// The level of an inner pixel is its mean difference from the background.
pub proof fn law_levels_are_differences(
    picture: Pixels,
    background: Color,
    x: int,
    y: int,
    difference: nat,
)
    requires
        is_inner(picture, x, y),
        picture.at(x, y).gap(background) == 3 * difference,
    ensures
        distance_level(picture, background, x, y) == difference,
{
    assert(difference <= 255);
    law_small_integers_divide(difference, 3);
    assert(difference * 3 == 3 * difference);
    law_small_integers_are_kept(difference as int);
}

/// Something is solid at a place where all nine pixels about it stand out, and a place belongs
/// to it where such a place is no further than one away.
pub proof fn law_solid_places_are_surrounded(picture: Pixels, background: Color, x: int, y: int)
    ensures
        is_solid(picture, background, x, y) <==> forall|i: int, j: int|
            x - 1 <= i <= x + 1 && y - 1 <= j <= y + 1 ==> #[trigger] stands_out(
                picture,
                background,
                i,
                j,
            ),
        is_structured(picture, background, x, y) <==> exists|i: int, j: int|
            x - 1 <= i <= x + 1 && y - 1 <= j <= y + 1 && #[trigger] is_solid(
                picture,
                background,
                i,
                j,
            ),
        is_structured(picture, background, x, y) ==> stands_out(picture, background, x, y),
{
    if is_solid(picture, background, x, y) {
        assert forall|i: int, j: int|
            x - 1 <= i <= x + 1 && y - 1 <= j <= y + 1 implies #[trigger] stands_out(
            picture,
            background,
            i,
            j,
        ) by {
            assert(i == x - 1 || i == x || i == x + 1);
            assert(j == y - 1 || j == y || j == y + 1);
        }
    }
    if exists|i: int, j: int|
        x - 1 <= i <= x + 1 && y - 1 <= j <= y + 1 && #[trigger] is_solid(
            picture,
            background,
            i,
            j,
        ) {
        let (i, j) = choose|i: int, j: int|
            x - 1 <= i <= x + 1 && y - 1 <= j <= y + 1 && #[trigger] is_solid(
                picture,
                background,
                i,
                j,
            );
        assert(i == x - 1 || i == x || i == x + 1);
        assert(j == y - 1 || j == y || j == y + 1);
    }
}

/// Cell by cell, an analysis says which pixels of the small copy belong to something that
/// stands out, and by how much they differ.
pub proof fn law_analyses_tell_of_each_cell(small: Pixels, x: int, y: int)
    requires
        0 <= x < small.width,
        0 <= y < small.height,
    ensures
        analyzed(small).on(x, y) == is_structured(small, edge_background(small), x, y),
        analyzed(small).level(x, y) == distance_level(small, edge_background(small), x, y),
        analyzed(small).width == small.width && analyzed(small).height == small.height,
        analyzed(small).threshold == color_threshold(edge_background(small)),
{
    let w = small.width as int;
    let h = small.height as int;
    let at = y * w + x;
    vstd::arithmetic::div_mod::lemma_fundamental_div_mod_converse(at, w, y, x);
    assert(0 <= at < w * h) by (nonlinear_arith)
        requires
            at == y * w + x,
            0 <= x < w,
            0 <= y < h,
    ;
}

/// Pictures of less than 160 by 90 are not looked at; one of up to 320 by 180 is looked at in
/// its own size, and a larger one in a smaller size.
pub proof fn law_small_pictures_keep_their_size(picture: Pixels)
    ensures
        analysis_of(picture) is None <==> picture.width < 160 || picture.height < 90,
        0 < picture.width <= 320 && 0 < picture.height <= 180 ==> small_copy(picture).width
            == picture.width && small_copy(picture).height == picture.height,
        picture.width > 0 && picture.height > 0 ==> whole(1).at_least(
            analysis_scale(picture.width, picture.height),
        ),
{
    let across = fraction(320, picture.width as nat);
    let down = fraction(180, picture.height as nat);
    law_the_smaller_is_above_neither(across.smaller(down), whole(1));
    if 0 < picture.width <= 320 && 0 < picture.height <= 180 {
        let w = picture.width as nat;
        let h = picture.height as nat;
        law_whole_share_is_one(w);
        law_whole_share_is_one(h);
        law_shares_are_compared_by_their_parts(320, w, w);
        law_shares_are_compared_by_their_parts(180, h, h);
        law_the_smaller_is_above_neither(across, down);
        lemma_fractions_are_modest(320, w);
        lemma_fractions_are_modest(180, h);
        lemma_canonical_is_kept(across);
        lemma_canonical_is_kept(down);
        law_small_integers_are_kept(1);
        law_small_integers_are_kept(w as int);
        law_small_integers_are_kept(h as int);
        let least = across.smaller(down);
        assert(least.at_least(whole(1)));
        lemma_canonical_is_kept(least);
        if !whole(1).less(least) {
            law_at_least_both_ways_is_equal(least, whole(1));
        }
        assert(analysis_scale(picture.width, picture.height) == whole(1));
        law_numbers_cancel(whole(w));
        law_numbers_cancel(whole(h));
    }
}

} // verus!
