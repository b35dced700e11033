//! Estimates of background colours: samples are gathered in buckets of similar colours.

use vstd::prelude::*;

use crate::detector::color::Color;
use crate::detector::picture::{Axis, Picture, Pixels};
use crate::detector::sampling::{
    cut_bottom, cut_right, law_rectangles_are_cut_at_the_picture, law_samples_cover_the_stretch,
    law_steps_take_enough_samples, lemma_few_samples, lemma_sample_on_stretch, sample_count,
    sampled_rows, step_for,
};
use crate::geometry::PixelRect;
use crate::numeric::{clamp_int, clamp_u32, max_int, max_u32, min_int, min_u32};
use crate::single::{
    fraction, from_int, is_modest, law_adding_keeps_the_order, law_fractions_are_not_negative,
    law_larger_shares_reach_smaller_ones, law_multiplying_keeps_the_order, law_order_is_total,
    law_order_is_transitive, law_shares_are_compared_by_their_parts,
    law_small_integers_are_in_order, law_small_integers_are_kept, lemma_fraction_of_nothing,
    lemma_fractions_are_modest, lemma_naturals_are_modest, lemma_results_are_modest,
    lemma_sums_are_modest, lemma_zero_is_modest, ratio, whole, zero, Single,
};

verus! {

/// Number of buckets.
pub const BUCKETS: usize = 32_768;

/// Most samples that are ever gathered.
pub const MOST_SAMPLES: u64 = 0x100_0000_0000_0000;

/// Where a sample was taken.
#[derive(Clone, Copy, Debug, PartialEq, Eq, Structural)]
pub enum Side {
    Top,
    Bottom,
    Left,
    Right,
    Inside,
}

/// Samples of similar colours.
#[derive(Clone, Copy, Debug, PartialEq, Eq, Structural)]
pub struct ColorBucket {
    pub count: u64,
    pub red: u64,
    pub green: u64,
    pub blue: u64,
    /// Some sample was taken at this side.
    pub top: bool,
    pub bottom: bool,
    pub left: bool,
    pub right: bool,
}

impl ColorBucket {
    pub open spec fn nothing() -> ColorBucket {
        ColorBucket {
            count: 0,
            red: 0,
            green: 0,
            blue: 0,
            top: false,
            bottom: false,
            left: false,
            right: false,
        }
    }

    pub fn empty() -> (result: Self)
        ensures
            result == ColorBucket::nothing(),
    {
        ColorBucket {
            count: 0,
            red: 0,
            green: 0,
            blue: 0,
            top: false,
            bottom: false,
            left: false,
            right: false,
        }
    }

    /// The sums belong to colours, and there are no more than `most` of them.
    pub open spec fn holds_up_to(self, most: int) -> bool {
        &&& self.count <= most
        &&& self.red <= self.count * 255
        &&& self.green <= self.count * 255
        &&& self.blue <= self.count * 255
    }

    pub open spec fn with_sample(self, color: Color, side: Side) -> ColorBucket {
        ColorBucket {
            count: (self.count + 1) as u64,
            red: (self.red + color.red) as u64,
            green: (self.green + color.green) as u64,
            blue: (self.blue + color.blue) as u64,
            top: self.top || side == Side::Top,
            bottom: self.bottom || side == Side::Bottom,
            left: self.left || side == Side::Left,
            right: self.right || side == Side::Right,
        }
    }

    fn add(&mut self, color: Color, side: Side)
        requires
            old(self).holds_up_to(MOST_SAMPLES as int),
        ensures
            *final(self) == old(self).with_sample(color, side),
            forall|most: int| old(self).holds_up_to(most) ==> final(self).holds_up_to(most + 1),
    {
        self.count = self.count + 1;
        self.red = self.red + color.red as u64;
        self.green = self.green + color.green as u64;
        self.blue = self.blue + color.blue as u64;
        self.top = self.top || side == Side::Top;
        self.bottom = self.bottom || side == Side::Bottom;
        self.left = self.left || side == Side::Left;
        self.right = self.right || side == Side::Right;
    }

    /// Mean colour of the samples, rounded down; black where there are none.
    pub open spec fn mean(self) -> Color {
        if self.count == 0 {
            Color { red: 0, green: 0, blue: 0 }
        } else {
            Color {
                red: (self.red as int / self.count as int) as u8,
                green: (self.green as int / self.count as int) as u8,
                blue: (self.blue as int / self.count as int) as u8,
            }
        }
    }

    pub fn color(&self) -> (result: Color)
        requires
            self.holds_up_to(MOST_SAMPLES as int),
        ensures
            result == self.mean(),
    {
        if self.count == 0 {
            return Color { red: 0, green: 0, blue: 0 };
        }
        proof {
            lemma_mean_fits(self.red as int, self.count as int);
            lemma_mean_fits(self.green as int, self.count as int);
            lemma_mean_fits(self.blue as int, self.count as int);
        }
        Color {
            red: (self.red / self.count) as u8,
            green: (self.green / self.count) as u8,
            blue: (self.blue / self.count) as u8,
        }
    }

    /// Number of sides at which samples were taken.
    pub open spec fn side_count(self) -> nat {
        (if self.top {
            1nat
        } else {
            0
        }) + (if self.bottom {
            1nat
        } else {
            0
        }) + (if self.left {
            1nat
        } else {
            0
        }) + (if self.right {
            1nat
        } else {
            0
        })
    }

    fn sides(&self) -> (result: u64)
        ensures
            result == self.side_count(),
    {
        let mut count: u64 = 0;
        if self.top {
            count += 1;
        }
        if self.bottom {
            count += 1;
        }
        if self.left {
            count += 1;
        }
        if self.right {
            count += 1;
        }
        count
    }

    /// Share of all samples.
    pub open spec fn frequency(self, total: nat) -> Single {
        fraction(self.count as nat, total)
    }

    /// The bucket may be the background: it is frequent, or was met at two sides.
    pub open spec fn has_evidence(self, total: nat) -> bool {
        self.frequency(total).at_least(fraction(12, 1000)) || self.side_count() >= 2
    }

    /// What opposite sides add to the score.
    pub open spec fn pair_bonus(self) -> Single {
        if self.top && self.bottom && self.left && self.right {
            fraction(48, 100)
        } else if (self.top && self.bottom) || (self.left && self.right) {
            fraction(30, 100)
        } else {
            zero()
        }
    }

    /// How far the colour is from being colourful.
    pub open spec fn neutrality(self) -> Single {
        whole(1).minus(fraction(self.mean().colorfulness() as nat, 255))
    }

    /// How dark or light the colour is.
    pub open spec fn extremity(self) -> Single {
        fraction(self.mean().luminance_units() as nat, 256).minus(fraction(255, 2)).absolute().over(
            fraction(255, 2),
        ).smaller(whole(1))
    }

    /// How much speaks for the bucket to be the background.
    pub open spec fn score(self, total: nat) -> Single {
        self.frequency(total).times(fraction(220, 100)).plus(
            whole(self.side_count()).times(fraction(22, 100)),
        ).plus(self.pair_bonus()).plus(self.neutrality().times(fraction(18, 100))).plus(
            self.extremity().times(fraction(8, 100)),
        )
    }

    fn rate(&self, total: u64) -> (result: Option<Single>)
        requires
            self.holds_up_to(MOST_SAMPLES as int),
        ensures
            result == if self.has_evidence(total as nat) {
                Some(self.score(total as nat))
            } else {
                None
            },
    {
        let color = self.color();
        let sides: u64 = self.sides();
        let frequency = ratio(self.count, total);
        if !frequency.ge(ratio(12, 1000)) && sides < 2 {
            return None;
        }
        let horizontal = self.top && self.bottom;
        let vertical = self.left && self.right;
        let pair_bonus = if horizontal && vertical {
            ratio(48, 100)
        } else if horizontal || vertical {
            ratio(30, 100)
        } else {
            Single { negative: false, mantissa: 0, exponent: 0 }
        };
        let neutrality = from_int(1).sub(ratio(color.chroma() as u64, 255));
        let middle = ratio(255, 2);
        let extremity = ratio(color.luminance() as u64, 256).sub(middle).abs().div(middle).min(
            from_int(1),
        );
        Some(
            frequency.mul(ratio(220, 100)).add(from_int(sides).mul(ratio(22, 100))).add(
                pair_bonus,
            ).add(neutrality.mul(ratio(18, 100))).add(extremity.mul(ratio(8, 100))),
        )
    }
}

proof fn lemma_mean_fits(sum: int, count: int)
    requires
        count > 0,
        0 <= sum <= count * 255,
    ensures
        0 <= sum / count <= 255,
{
    vstd::arithmetic::div_mod::lemma_fundamental_div_mod(sum, count);
    let q = sum / count;
    assert(q <= 255) by (nonlinear_arith)
        requires
            count * q <= sum,
            sum <= count * 255,
            count > 0,
    ;
    vstd::arithmetic::div_mod::lemma_div_pos_is_pos(sum, count);
}

/// The bucket of a colour: its channels without their last three bits.
pub open spec fn bucket_key(color: Color) -> int {
    color.red as int / 8 * 1024 + color.green as int / 8 * 32 + color.blue as int / 8
}

pub fn color_bucket_key(color: Color) -> (result: usize)
    ensures
        result == bucket_key(color),
        result < BUCKETS,
{
    color.red as usize / 8 * 1024 + color.green as usize / 8 * 32 + color.blue as usize / 8
}

/// No bucket holds more than `most` samples.
pub open spec fn all_hold(buckets: Seq<ColorBucket>, most: int) -> bool {
    &&& buckets.len() == BUCKETS
    &&& forall|k: int| 0 <= k < buckets.len() ==> (#[trigger] buckets[k]).holds_up_to(most)
}

/// The buckets after the first `taken` samples of a line.
pub open spec fn after_line(
    buckets: Seq<ColorBucket>,
    picture: Pixels,
    axis: Axis,
    fixed: int,
    start: int,
    step: int,
    taken: nat,
    side: Side,
) -> Seq<ColorBucket>
    decreases taken,
{
    if taken == 0 {
        buckets
    } else {
        let before = after_line(
            buckets,
            picture,
            axis,
            fixed,
            start,
            step,
            (taken - 1) as nat,
            side,
        );
        let color = picture.on_line(axis, fixed, start + (taken - 1) * step);
        before.update(bucket_key(color), before[bucket_key(color)].with_sample(color, side))
    }
}

/// Gathers the samples of a line.
fn gather_line(
    picture: &Picture,
    axis: Axis,
    fixed: u32,
    start: u32,
    end: u32,
    step: u32,
    side: Side,
    buckets: &mut Vec<ColorBucket>,
    Ghost(most): Ghost<int>,
)
    requires
        picture.well_formed(),
        step > 0,
        start < end ==> picture@.has_line(axis, fixed as int, end as int),
        all_hold(old(buckets)@, most),
        0 <= most <= MOST_SAMPLES - u32::MAX,
    ensures
        final(buckets)@ == after_line(
            old(buckets)@,
            picture@,
            axis,
            fixed as int,
            start as int,
            step as int,
            sample_count(end - start, step as int),
            side,
        ),
        all_hold(final(buckets)@, most + u32::MAX),
{
    if start >= end {
        return ;
    }
    let length: u32 = end - start;
    let mut cursor: u32 = start;
    let ghost mut taken: nat = 0;
    let ghost total = sample_count(length as int, step as int);
    proof {
        lemma_sample_on_stretch(length as int, step as int, 0);
        lemma_few_samples(length as int, step as int);
    }
    while cursor < end
        invariant
            picture.well_formed(),
            step > 0,
            start < end,
            length == end - start,
            total == sample_count(length as int, step as int),
            total <= u32::MAX,
            picture@.has_line(axis, fixed as int, end as int),
            start <= cursor,
            taken <= total,
            cursor < end ==> cursor == start + taken * step,
            (cursor < end) == (taken < total),
            0 <= most <= MOST_SAMPLES - u32::MAX,
            all_hold(buckets@, most + taken),
            buckets@ == after_line(
                old(buckets)@,
                picture@,
                axis,
                fixed as int,
                start as int,
                step as int,
                taken,
                side,
            ),
        decreases total - taken,
    {
        let color = picture.line_pixel(axis, fixed, cursor);
        let key: usize = color_bucket_key(color);
        let mut bucket: ColorBucket = buckets[key];
        let ghost before = buckets@;
        bucket.add(color, side);
        buckets.set(key, bucket);
        proof {
            assert(before[key as int].holds_up_to(most + taken));
            assert(all_hold(buckets@, most + taken + 1));
            lemma_sample_on_stretch(length as int, step as int, (taken + 1) as int);
            assert((taken + 1) * step == taken * step + step) by (nonlinear_arith);
            assert((taken + 1 - 1) as nat == taken);
            taken = taken + 1;
        }
        cursor = cursor.saturating_add(step);
    }
    assert(all_hold(buckets@, most + u32::MAX));
}

/// The buckets after a band of `lines` lines.
pub open spec fn after_band(
    buckets: Seq<ColorBucket>,
    picture: Pixels,
    axis: Axis,
    first: int,
    spacing: int,
    lines: nat,
    start: int,
    end: int,
    step: int,
    side: Side,
) -> Seq<ColorBucket>
    decreases lines,
{
    if lines == 0 {
        buckets
    } else {
        after_line(
            after_band(
                buckets,
                picture,
                axis,
                first,
                spacing,
                (lines - 1) as nat,
                start,
                end,
                step,
                side,
            ),
            picture,
            axis,
            first + (lines - 1) * spacing,
            start,
            step,
            sample_count(end - start, step),
            side,
        )
    }
}

/// Gathers the samples of up to eight lines side by side.
fn gather_band(
    picture: &Picture,
    axis: Axis,
    first: u32,
    lines: u32,
    start: u32,
    end: u32,
    step: u32,
    side: Side,
    buckets: &mut Vec<ColorBucket>,
    Ghost(most): Ghost<int>,
)
    requires
        picture.well_formed(),
        step > 0,
        lines <= 8,
        first + lines <= u32::MAX,
        start < end && lines > 0 ==> picture@.has_line(axis, first + lines - 1, end as int),
        all_hold(old(buckets)@, most),
        0 <= most <= MOST_SAMPLES - 16 * u32::MAX,
    ensures
        final(buckets)@ == after_band(
            old(buckets)@,
            picture@,
            axis,
            first as int,
            1,
            lines as nat,
            start as int,
            end as int,
            step as int,
            side,
        ),
        all_hold(final(buckets)@, most + 8 * u32::MAX),
{
    let mut done: u32 = 0;
    while done < lines
        invariant
            picture.well_formed(),
            step > 0,
            done <= lines <= 8,
            first + lines <= u32::MAX,
            start < end && lines > 0 ==> picture@.has_line(axis, first + lines - 1, end as int),
            0 <= most <= MOST_SAMPLES - 16 * u32::MAX,
            all_hold(buckets@, most + done * u32::MAX),
            buckets@ == after_band(
                old(buckets)@,
                picture@,
                axis,
                first as int,
                1,
                done as nat,
                start as int,
                end as int,
                step as int,
                side,
            ),
        decreases lines - done,
    {
        proof {
            assert((done + 1 - 1) as nat == done as nat);
        }
        gather_line(
            picture,
            axis,
            first + done,
            start,
            end,
            step,
            side,
            buckets,
            Ghost(most + done * u32::MAX),
        );
        done += 1;
    }
}

/// Buckets without samples.
pub open spec fn no_samples() -> Seq<ColorBucket> {
    Seq::new(BUCKETS as nat, |k: int| ColorBucket::nothing())
}

fn new_buckets() -> (result: Vec<ColorBucket>)
    ensures
        result@ == no_samples(),
        all_hold(result@, 0),
{
    let mut buckets: Vec<ColorBucket> = Vec::new();
    let mut k: usize = 0;
    while k < BUCKETS
        invariant
            k <= BUCKETS,
            buckets@.len() == k,
            forall|i: int| 0 <= i < k ==> #[trigger] buckets@[i] == ColorBucket::nothing(),
        decreases BUCKETS - k,
    {
        buckets.push(ColorBucket::empty());
        k += 1;
    }
    assert(buckets@ =~= no_samples());
    buckets
}

/// Number of samples in the first buckets.
pub open spec fn samples_in(buckets: Seq<ColorBucket>, first: nat) -> nat
    decreases first,
{
    if first == 0 {
        0
    } else {
        samples_in(buckets, (first - 1) as nat) + buckets[first - 1].count as nat
    }
}

/// The bucket with the highest score among the first ones, the earliest where several have
/// it. Buckets without evidence are left out.
pub open spec fn best_bucket(buckets: Seq<ColorBucket>, total: nat, first: nat) -> Option<int>
    decreases first,
{
    if first == 0 {
        None
    } else {
        let before = best_bucket(buckets, total, (first - 1) as nat);
        let bucket = buckets[first - 1];
        if bucket.count == 0 || !bucket.has_evidence(total) {
            before
        } else {
            match before {
                Some(best) => if buckets[best].score(total).less(bucket.score(total)) {
                    Some(first - 1)
                } else {
                    before
                },
                None => Some(first - 1),
            }
        }
    }
}

/// The fullest bucket among the first ones, the latest where several are as full.
pub open spec fn fullest_bucket(buckets: Seq<ColorBucket>, first: nat) -> Option<int>
    decreases first,
{
    if first == 0 {
        None
    } else {
        let before = fullest_bucket(buckets, (first - 1) as nat);
        if buckets[first - 1].count == 0 {
            before
        } else {
            match before {
                Some(best) => if buckets[best].count > buckets[first - 1].count {
                    before
                } else {
                    Some(first - 1)
                },
                None => Some(first - 1),
            }
        }
    }
}

/// The mean colour of a chosen bucket; black where none was chosen.
pub open spec fn chosen_color(buckets: Seq<ColorBucket>, choice: Option<int>) -> Color {
    match choice {
        Some(k) => buckets[k].mean(),
        None => Color { red: 0, green: 0, blue: 0 },
    }
}

/// The colour that the buckets show to be the background: that of the best bucket with
/// evidence, or of the fullest one.
pub open spec fn background_of(buckets: Seq<ColorBucket>) -> Color {
    let total = samples_in(buckets, BUCKETS as nat);
    match best_bucket(buckets, total, BUCKETS as nat) {
        Some(best) => buckets[best].mean(),
        None => chosen_color(buckets, fullest_bucket(buckets, BUCKETS as nat)),
    }
}

fn fullest_color(buckets: &Vec<ColorBucket>) -> (result: Color)
    requires
        all_hold(buckets@, MOST_SAMPLES as int),
    ensures
        result == chosen_color(buckets@, fullest_bucket(buckets@, BUCKETS as nat)),
{
    let mut best: Option<usize> = None;
    let mut k: usize = 0;
    while k < BUCKETS
        invariant
            k <= BUCKETS,
            all_hold(buckets@, MOST_SAMPLES as int),
            best is Some ==> best->0 < k,
            fullest_bucket(buckets@, k as nat) == match best {
                Some(at) => Some(at as int),
                None => None,
            },
        decreases BUCKETS - k,
    {
        if buckets[k].count != 0 {
            best = match best {
                Some(at) => if buckets[at].count > buckets[k].count {
                    Some(at)
                } else {
                    Some(k)
                },
                None => Some(k),
            };
        }
        k += 1;
    }
    match best {
        Some(at) => {
            assert(buckets@[at as int].holds_up_to(MOST_SAMPLES as int));
            buckets[at].color()
        },
        None => Color { red: 0, green: 0, blue: 0 },
    }
}

fn choose_background(buckets: &Vec<ColorBucket>) -> (result: Color)
    requires
        all_hold(buckets@, 0x1_0000_0000_0000),
    ensures
        result == background_of(buckets@),
{
    let mut total: u64 = 0;
    let mut k: usize = 0;
    while k < BUCKETS
        invariant
            k <= BUCKETS,
            all_hold(buckets@, 0x1_0000_0000_0000),
            total == samples_in(buckets@, k as nat),
            total <= k * 0x1_0000_0000_0000,
        decreases BUCKETS - k,
    {
        assert(buckets@[k as int].holds_up_to(0x1_0000_0000_0000));
        total += buckets[k].count;
        k += 1;
    }
    let mut best: Option<usize> = None;
    let mut best_score = from_int(0);
    let mut k: usize = 0;
    while k < BUCKETS
        invariant
            k <= BUCKETS,
            all_hold(buckets@, 0x1_0000_0000_0000),
            match best {
                Some(at) => at < k && best_score == buckets@[at as int].score(total as nat),
                None => true,
            },
            best_bucket(buckets@, total as nat, k as nat) == match best {
                Some(at) => Some(at as int),
                None => None,
            },
        decreases BUCKETS - k,
    {
        let bucket: ColorBucket = buckets[k];
        assert(buckets@[k as int].holds_up_to(0x1_0000_0000_0000));
        if bucket.count != 0 {
            if let Some(score) = bucket.rate(total) {
                if best.is_none() || best_score.lt(score) {
                    best = Some(k);
                    best_score = score;
                }
            }
        }
        k += 1;
    }
    match best {
        Some(at) => {
            assert(buckets@[at as int].holds_up_to(0x1_0000_0000_0000));
            buckets[at].color()
        },
        None => {
            assert(all_hold(buckets@, MOST_SAMPLES as int));
            fullest_color(buckets)
        },
    }
}

/// Width of the band along the edges that is sampled.
pub open spec fn edge_band(width: int, height: int) -> int {
    clamp_int(min_int(width, height) / 40, 1, 8)
}

/// The buckets of the samples along the four edges of a picture.
pub open spec fn edge_buckets(picture: Pixels) -> Seq<ColorBucket> {
    let width = picture.width as int;
    let height = picture.height as int;
    let band = edge_band(width, height);
    let step = step_for(max_int(width, height), 1024);
    let top = after_band(
        no_samples(),
        picture,
        Axis::Horizontal,
        0,
        1,
        band as nat,
        0,
        width,
        step,
        Side::Top,
    );
    let bottom = after_band(
        top,
        picture,
        Axis::Horizontal,
        height - band,
        1,
        band as nat,
        0,
        width,
        step,
        Side::Bottom,
    );
    let left = after_band(
        bottom,
        picture,
        Axis::Vertical,
        0,
        1,
        band as nat,
        band,
        height - band,
        step,
        Side::Left,
    );
    after_band(
        left,
        picture,
        Axis::Vertical,
        width - band,
        1,
        band as nat,
        band,
        height - band,
        step,
        Side::Right,
    )
}

/// The background that the edges of a picture show; black where it has no pixels.
pub open spec fn edge_background(picture: Pixels) -> Color {
    if picture.width == 0 || picture.height == 0 {
        Color { red: 0, green: 0, blue: 0 }
    } else {
        background_of(edge_buckets(picture))
    }
}

/// Estimates the background from the edges of a picture. A colour that is met at several
/// sides, is frequent, gray, and dark or light is preferred.
pub fn estimate_background_from_perimeter(picture: &Picture) -> (result: Color)
    requires
        picture.well_formed(),
    ensures
        result == edge_background(picture@),
{
    let width: u32 = picture.width;
    let height: u32 = picture.height;
    if width == 0 || height == 0 {
        return Color { red: 0, green: 0, blue: 0 };
    }
    let band: u32 = clamp_u32(min_u32(width, height) / 40, 1, 8);
    let step: u32 = max_u32(max_u32(width, height) / 1024, 1);
    let ghost line: int = 8 * u32::MAX;
    let mut buckets = new_buckets();
    gather_band(
        picture,
        Axis::Horizontal,
        0,
        band,
        0,
        width,
        step,
        Side::Top,
        &mut buckets,
        Ghost(0),
    );
    gather_band(
        picture,
        Axis::Horizontal,
        height - band,
        band,
        0,
        width,
        step,
        Side::Bottom,
        &mut buckets,
        Ghost(line),
    );
    gather_band(
        picture,
        Axis::Vertical,
        0,
        band,
        band,
        height - band,
        step,
        Side::Left,
        &mut buckets,
        Ghost(2 * line),
    );
    gather_band(
        picture,
        Axis::Vertical,
        width - band,
        band,
        band,
        height - band,
        step,
        Side::Right,
        &mut buckets,
        Ghost(3 * line),
    );
    proof {
        assert forall|k: int| 0 <= k < buckets@.len() implies (
        #[trigger] buckets@[k]).holds_up_to(0x1_0000_0000_0000) by {
            assert(buckets@[k].holds_up_to(4 * line));
        }
    }
    choose_background(&buckets)
}

/// The buckets of the samples of an area.
pub open spec fn area_buckets(picture: Pixels, rect: PixelRect) -> Seq<ColorBucket> {
    let step_x = step_for(rect.width as int, 256);
    let step_y = step_for(rect.height as int, 32);
    after_band(
        no_samples(),
        picture,
        Axis::Horizontal,
        rect.y as int,
        step_y,
        sampled_rows(picture, rect, step_y),
        rect.x as int,
        cut_right(picture, rect),
        step_x,
        Side::Inside,
    )
}

/// The most frequent colour of an area.
pub open spec fn area_mode(picture: Pixels, rect: PixelRect) -> Color {
    let buckets = area_buckets(picture, rect);
    chosen_color(buckets, fullest_bucket(buckets, BUCKETS as nat))
}

/// Estimates the most frequent colour of an area.
pub fn estimate_region_mode(picture: &Picture, rect: PixelRect) -> (result: Color)
    requires
        picture.well_formed(),
    ensures
        result == area_mode(picture@, rect),
{
    let right: u32 = min_u32(rect.right(), picture.width);
    let bottom: u32 = min_u32(rect.bottom(), picture.height);
    let step_x: u32 = max_u32(rect.width / 256, 1);
    let step_y: u32 = max_u32(rect.height / 32, 1);
    let ghost rows = sampled_rows(picture@, rect, step_y as int);
    let mut buckets = new_buckets();
    let mut y: u32 = rect.y;
    let ghost mut done: nat = 0;
    proof {
        if rect.y < bottom {
            lemma_sample_on_stretch(bottom - rect.y, step_y as int, 0);
        }
        lemma_few_samples(bottom - rect.y, step_y as int);
        lemma_few_rows(rect.height as int, bottom - rect.y);
    }
    while y < bottom
        invariant
            picture.well_formed(),
            step_x > 0,
            step_y > 0,
            right == cut_right(picture@, rect),
            bottom == cut_bottom(picture@, rect),
            rows == sampled_rows(picture@, rect, step_y as int),
            rows <= 0x40_0000,
            rect.y <= y,
            done <= rows,
            (y < bottom) == (done < rows),
            y < bottom ==> y == rect.y + done * step_y,
            all_hold(buckets@, done * u32::MAX),
            buckets@ == after_band(
                no_samples(),
                picture@,
                Axis::Horizontal,
                rect.y as int,
                step_y as int,
                done,
                rect.x as int,
                right as int,
                step_x as int,
                Side::Inside,
            ),
        decreases rows - done,
    {
        gather_line(
            picture,
            Axis::Horizontal,
            y,
            rect.x,
            right,
            step_x,
            Side::Inside,
            &mut buckets,
            Ghost(done * u32::MAX),
        );
        proof {
            lemma_sample_on_stretch(bottom - rect.y, step_y as int, (done + 1) as int);
            assert((done + 1) * step_y == done * step_y + step_y) by (nonlinear_arith);
            assert((done + 1) * u32::MAX == done * u32::MAX + u32::MAX) by (nonlinear_arith);
            assert((done + 1 - 1) as nat == done);
            done = done + 1;
        }
        y = y.saturating_add(step_y);
    }
    proof {
        assert forall|k: int| 0 <= k < buckets@.len() implies (
        #[trigger] buckets@[k]).holds_up_to(MOST_SAMPLES as int) by {
            assert(buckets@[k].holds_up_to(done * u32::MAX));
            assert(done * u32::MAX <= 0x40_0000 * u32::MAX) by (nonlinear_arith)
                requires
                    done <= 0x40_0000,
            ;
        }
    }
    fullest_color(&buckets)
}

/// An area is sampled in few rows.
proof fn lemma_few_rows(height: int, shown: int)
    requires
        0 <= height <= u32::MAX,
        shown <= height,
    ensures
        sample_count(shown, step_for(height, 32)) <= 0x40_0000,
{
    let step = step_for(height, 32);
    if shown > 0 {
        lemma_few_samples(shown, step);
        vstd::arithmetic::div_mod::lemma_fundamental_div_mod(shown - 1, step);
        let last = (shown - 1) / step;
        if height < 64 {
        } else {
            assert(last < 64) by (nonlinear_arith)
                requires
                    step * last <= shown - 1,
                    shown - 1 < 64 * step,
                    step > 0,
            ;
        }
    }
}

/// Samples of one colour have that colour as their mean; of several colours the mean lies
/// between them.
pub proof fn law_means_are_between(bucket: ColorBucket, color: Color, side: Side)
    requires
        bucket.count < MOST_SAMPLES,
        bucket.red <= bucket.count * 255,
        bucket.green <= bucket.count * 255,
        bucket.blue <= bucket.count * 255,
    ensures
        bucket.count > 0 && bucket.red == bucket.count * color.red && bucket.green == bucket.count
            * color.green && bucket.blue == bucket.count * color.blue ==> bucket.mean() == color,
        bucket.count > 0 ==> bucket.mean().red * bucket.count <= bucket.red < (bucket.mean().red
            + 1) * bucket.count,
        bucket.count > 0 ==> bucket.mean().green * bucket.count <= bucket.green
            < (bucket.mean().green + 1) * bucket.count,
        bucket.count > 0 ==> bucket.mean().blue * bucket.count <= bucket.blue
            < (bucket.mean().blue + 1) * bucket.count,
        bucket.with_sample(color, side).count == bucket.count + 1,
        bucket.with_sample(color, side).red == bucket.red + color.red,
        bucket.with_sample(color, side).green == bucket.green + color.green,
        bucket.with_sample(color, side).blue == bucket.blue + color.blue,
        ColorBucket::nothing().with_sample(color, side).mean() == color,
{
    if bucket.count > 0 {
        lemma_mean_of(bucket.red as int, bucket.count as int, color.red as int);
        lemma_mean_of(bucket.green as int, bucket.count as int, color.green as int);
        lemma_mean_of(bucket.blue as int, bucket.count as int, color.blue as int);
    }
    let one = ColorBucket::nothing().with_sample(color, side);
    assert(one.red as int / 1 == one.red && one.green as int / 1 == one.green && one.blue as int / 1
        == one.blue);
}

proof fn lemma_mean_of(sum: int, count: int, value: int)
    requires
        count > 0,
        0 <= sum <= count * 255,
    ensures
        sum == count * value ==> sum / count == value,
        0 <= sum / count <= 255,
        (sum / count) * count <= sum < (sum / count + 1) * count,
{
    lemma_mean_fits(sum, count);
    vstd::arithmetic::div_mod::lemma_fundamental_div_mod(sum, count);
    let q = sum / count;
    assert(count * q == q * count) by (nonlinear_arith);
    assert((q + 1) * count == q * count + count) by (nonlinear_arith);
    if sum == count * value {
        assert(count * value == value * count) by (nonlinear_arith);
        vstd::arithmetic::div_mod::lemma_fundamental_div_mod_converse(sum, count, value, 0);
    }
}

/// A sample is counted for its side, once for all samples of that side.
pub proof fn law_sides_are_counted_once(bucket: ColorBucket, color: Color, side: Side)
    ensures
        bucket.side_count() <= 4,
        ColorBucket::nothing().side_count() == 0,
        side is Inside ==> bucket.with_sample(color, side).side_count() == bucket.side_count(),
        side is Top && !bucket.top ==> bucket.with_sample(color, side).side_count()
            == bucket.side_count() + 1,
        side is Bottom && !bucket.bottom ==> bucket.with_sample(color, side).side_count()
            == bucket.side_count() + 1,
        side is Left && !bucket.left ==> bucket.with_sample(color, side).side_count()
            == bucket.side_count() + 1,
        side is Right && !bucket.right ==> bucket.with_sample(color, side).side_count()
            == bucket.side_count() + 1,
        bucket.with_sample(color, side).with_sample(color, side).side_count()
            == bucket.with_sample(color, side).side_count(),
{
}

/// Two colours share a bucket exactly where each channel lies in the same eighth step.
pub proof fn law_buckets_hold_similar_colours(color: Color, other: Color)
    ensures
        bucket_key(color) == bucket_key(other) <==> color.red / 8 == other.red / 8 && color.green
            / 8 == other.green / 8 && color.blue / 8 == other.blue / 8,
        0 <= bucket_key(color) < 32768,
        bucket_key(color) == bucket_key(other) ==> color.gap(other) <= 21,
{
}

/// The bucket that was chosen as the fullest has samples, and no other has more.
pub proof fn law_the_fullest_bucket_has_most(buckets: Seq<ColorBucket>, first: nat)
    requires
        first <= buckets.len(),
    ensures
        ({
            let found = fullest_bucket(buckets, first);
            &&& found is None <==> forall|k: int|
                0 <= k < first ==> (#[trigger] buckets[k]).count == 0
            &&& found is Some ==> 0 <= found->0 < first && buckets[found->0].count > 0
            &&& found is Some ==> forall|k: int|
                0 <= k < first ==> (#[trigger] buckets[k]).count <= buckets[found->0].count
        }),
    decreases first,
{
    if first > 0 {
        law_the_fullest_bucket_has_most(buckets, (first - 1) as nat);
        if buckets[first - 1].count > 0 {
            assert(!(forall|k: int| 0 <= k < first ==> (#[trigger] buckets[k]).count == 0));
        }
    }
}

/// The bucket that was chosen as the best has evidence, and none with evidence scores higher.
pub proof fn law_the_best_bucket_scores_highest(
    buckets: Seq<ColorBucket>,
    total: nat,
    first: nat,
)
    requires
        first <= buckets.len(),
    ensures
        ({
            let found = best_bucket(buckets, total, first);
            &&& found is None <==> forall|k: int|
                0 <= k < first ==> (#[trigger] buckets[k]).count == 0 || !buckets[k].has_evidence(
                    total,
                )
            &&& found is Some ==> 0 <= found->0 < first && buckets[found->0].count > 0
                && buckets[found->0].has_evidence(total)
            &&& found is Some ==> forall|k: int|
                0 <= k < first && (#[trigger] buckets[k]).count > 0 && buckets[k].has_evidence(
                    total,
                ) ==> buckets[found->0].score(total).at_least(buckets[k].score(total))
        }),
    decreases first,
{
    if first > 0 {
        law_the_best_bucket_scores_highest(buckets, total, (first - 1) as nat);
        let before = best_bucket(buckets, total, (first - 1) as nat);
        let found = best_bucket(buckets, total, first);
        let last = buckets[first - 1];
        if last.count > 0 && last.has_evidence(total) {
            assert(!(forall|k: int|
                0 <= k < first ==> (#[trigger] buckets[k]).count == 0 || !buckets[k].has_evidence(
                    total,
                )));
            law_order_is_total(last.score(total), last.score(total));
            assert forall|k: int|
                0 <= k < first && (#[trigger] buckets[k]).count > 0 && buckets[k].has_evidence(
                    total,
                ) implies buckets[found->0].score(total).at_least(buckets[k].score(total)) by {
                if before is Some && buckets[before->0].score(total).less(last.score(total)) && k
                    < first - 1 {
                    law_order_is_total(buckets[before->0].score(total), last.score(total));
                    law_order_is_transitive(
                        last.score(total),
                        buckets[before->0].score(total),
                        buckets[k].score(total),
                    );
                }
            }
        }
    }
}

/// Evidence is a share of twelve thousandths, or samples at two sides.
pub proof fn law_two_sides_are_evidence(bucket: ColorBucket, total: nat)
    requires
        0 < total < 0x100_0000,
        bucket.count < 0x100_0000,
    ensures
        bucket.side_count() >= 2 ==> bucket.has_evidence(total),
        bucket.count * 1000 >= total * 12 ==> bucket.has_evidence(total),
        bucket.count == 0 && bucket.side_count() < 2 ==> !bucket.has_evidence(total),
{
    if bucket.count * 1000 >= total * 12 {
        law_larger_shares_reach_smaller_ones(12, 1000, bucket.count as nat, total);
    }
    if bucket.count == 0 {
        lemma_fraction_of_nothing(total);
        lemma_fraction_of_nothing(1000);
        law_shares_are_compared_by_their_parts(0, 12, 1000);
    }
}

/// Opposite sides are worth something, and all four sides most.
pub proof fn law_opposite_sides_are_worth_more(bucket: ColorBucket)
    ensures
        bucket.pair_bonus().at_least(zero()),
        fraction(48, 100).at_least(bucket.pair_bonus()),
        bucket.top && bucket.bottom ==> bucket.pair_bonus().at_least(fraction(30, 100)),
        bucket.left && bucket.right ==> bucket.pair_bonus().at_least(fraction(30, 100)),
        bucket.side_count() == 4 ==> bucket.pair_bonus() == fraction(48, 100),
        bucket.side_count() <= 1 ==> bucket.pair_bonus() == zero(),
{
    law_shares_are_compared_by_their_parts(48, 30, 100);
    law_shares_are_compared_by_their_parts(48, 48, 100);
    law_shares_are_compared_by_their_parts(30, 30, 100);
    law_fractions_are_not_negative(48, 100);
    law_fractions_are_not_negative(30, 100);
    law_order_is_total(zero(), zero());
}

/// Of two buckets with the same colour the one with more samples, and samples at all sides at
/// which the other has some, scores at least as high.
pub proof fn law_more_samples_score_higher(more: ColorBucket, less: ColorBucket, total: nat)
    requires
        more.mean() == less.mean(),
        less.count <= more.count < 0x10_0000,
        0 < total < 0x100_0000,
        less.top ==> more.top,
        less.bottom ==> more.bottom,
        less.left ==> more.left,
        less.right ==> more.right,
    ensures
        more.score(total).at_least(less.score(total)),
{
    let m = more.count as nat;
    let l = less.count as nat;
    law_shares_are_compared_by_their_parts(m, l, total);
    lemma_fractions_are_modest(m, total);
    lemma_fractions_are_modest(l, total);
    lemma_fractions_are_modest(220, 100);
    lemma_fractions_are_modest(22, 100);
    lemma_fractions_are_modest(48, 100);
    lemma_fractions_are_modest(30, 100);
    lemma_fractions_are_modest(18, 100);
    lemma_fractions_are_modest(8, 100);
    lemma_zero_is_modest();
    law_fractions_are_not_negative(220, 100);
    law_fractions_are_not_negative(22, 100);
    let often = fraction(220, 100);
    law_multiplying_keeps_the_order(more.frequency(total), less.frequency(total), often);
    lemma_results_are_modest(more.frequency(total), often, 64);
    lemma_results_are_modest(less.frequency(total), often, 64);
    let a0 = more.frequency(total).times(often);
    let b0 = less.frequency(total).times(often);
    let each = fraction(22, 100);
    let s = more.side_count();
    let t = less.side_count();
    assert(t <= s);
    law_small_integers_are_kept(s as int);
    law_small_integers_are_kept(t as int);
    law_small_integers_are_in_order(s as int, t as int);
    lemma_naturals_are_modest(s);
    lemma_naturals_are_modest(t);
    law_multiplying_keeps_the_order(whole(s), whole(t), each);
    lemma_results_are_modest(whole(s), each, 128);
    lemma_results_are_modest(whole(t), each, 128);
    let a1 = whole(s).times(each);
    let b1 = whole(t).times(each);
    lemma_sums_in_order(a0, b0, a1, b1, 304);
    law_shares_are_compared_by_their_parts(48, 30, 100);
    law_shares_are_compared_by_their_parts(48, 48, 100);
    law_shares_are_compared_by_their_parts(30, 30, 100);
    law_opposite_sides_are_worth_more(more);
    law_order_is_total(zero(), zero());
    assert(more.pair_bonus().at_least(less.pair_bonus()));
    lemma_sums_in_order(a0.plus(a1), b0.plus(b1), more.pair_bonus(), less.pair_bonus(), 352);
    let a2 = a0.plus(a1).plus(more.pair_bonus());
    let b2 = b0.plus(b1).plus(less.pair_bonus());
    let neutral = more.neutrality().times(fraction(18, 100));
    let extreme = more.extremity().times(fraction(8, 100));
    lemma_color_is_modest(more);
    lemma_results_are_modest(more.neutrality(), fraction(18, 100), 0x400);
    lemma_results_are_modest(more.extremity(), fraction(8, 100), 0x400);
    law_adding_keeps_the_order(a2, b2, neutral);
    lemma_sums_are_modest(a2, neutral, 0x1000);
    lemma_sums_are_modest(b2, neutral, 0x1000);
    law_adding_keeps_the_order(a2.plus(neutral), b2.plus(neutral), extreme);
}

proof fn lemma_color_is_modest(bucket: ColorBucket)
    ensures
        is_modest(bucket.neutrality(), 0x400),
        is_modest(bucket.extremity(), 0x400),
{
    let color = bucket.mean();
    let chroma = color.colorfulness() as nat;
    let light = color.luminance_units() as nat;
    lemma_fractions_are_modest(chroma, 255);
    lemma_fractions_are_modest(light, 256);
    lemma_fractions_are_modest(255, 2);
    lemma_zero_is_modest();
    lemma_sums_are_modest(whole(1), fraction(chroma, 255), 64);
    let middle = fraction(255, 2);
    lemma_sums_are_modest(fraction(light, 256), middle, 64);
    let off = fraction(light, 256).minus(middle);
    lemma_results_are_modest(off, off, 112);
    lemma_results_are_modest(off.absolute(), middle, 112);
    lemma_results_are_modest(off.absolute().over(middle), whole(1), 272);
}

proof fn lemma_sums_in_order(a: Single, b: Single, c: Single, d: Single, bound: int)
    requires
        is_modest(a, bound),
        is_modest(b, bound),
        is_modest(c, bound),
        is_modest(d, bound),
        0 <= bound <= 0xff00,
        a.at_least(b),
        c.at_least(d),
    ensures
        a.plus(c).at_least(b.plus(d)),
        is_modest(a.plus(c), bound + 48),
        is_modest(b.plus(d), bound + 48),
{
    law_adding_keeps_the_order(a, b, c);
    law_adding_keeps_the_order(c, d, b);
    lemma_sums_are_modest(a, c, bound);
    lemma_sums_are_modest(b, c, bound);
    lemma_sums_are_modest(b, d, bound);
    law_order_is_transitive(a.plus(c), b.plus(c), b.plus(d));
}

/// The buckets hold so many samples, all of this colour.
pub open spec fn is_pure(buckets: Seq<ColorBucket>, color: Color, samples: int) -> bool {
    let bucket = buckets[bucket_key(color)];
    &&& buckets.len() == BUCKETS
    &&& forall|k: int|
        0 <= k < buckets.len() && k != bucket_key(color) ==> (#[trigger] buckets[k]).count == 0
    &&& bucket.count == samples
    &&& bucket.red == samples * color.red
    &&& bucket.green == samples * color.green
    &&& bucket.blue == samples * color.blue
}

proof fn lemma_pure_line(
    buckets: Seq<ColorBucket>,
    picture: Pixels,
    axis: Axis,
    fixed: int,
    start: int,
    step: int,
    taken: nat,
    side: Side,
    color: Color,
    samples: int,
)
    requires
        is_pure(buckets, color, samples),
        0 <= samples,
        samples + taken <= MOST_SAMPLES,
        forall|k: int|
            0 <= k < taken ==> #[trigger] picture.on_line(axis, fixed, start + k * step) == color,
    ensures
        is_pure(
            after_line(buckets, picture, axis, fixed, start, step, taken, side),
            color,
            samples + taken,
        ),
    decreases taken,
{
    if taken > 0 {
        let last = (taken - 1) as nat;
        lemma_pure_line(
            buckets,
            picture,
            axis,
            fixed,
            start,
            step,
            last,
            side,
            color,
            samples,
        );
        assert(picture.on_line(axis, fixed, start + last * step) == color);
        law_buckets_hold_similar_colours(color, color);
        let n = samples + last;
        lemma_one_more(n, color.red as int);
        lemma_one_more(n, color.green as int);
        lemma_one_more(n, color.blue as int);
    }
}

proof fn lemma_one_more(samples: int, value: int)
    requires
        0 <= samples < MOST_SAMPLES,
        0 <= value <= 255,
    ensures
        (samples + 1) * value == samples * value + value,
        0 <= samples * value <= samples * 255,
{
    assert((samples + 1) * value == samples * value + value) by (nonlinear_arith);
    assert(0 <= samples * value <= samples * 255) by (nonlinear_arith)
        requires
            samples >= 0,
            0 <= value <= 255,
    ;
}

proof fn lemma_pure_band(
    buckets: Seq<ColorBucket>,
    picture: Pixels,
    axis: Axis,
    first: int,
    spacing: int,
    lines: nat,
    start: int,
    end: int,
    step: int,
    side: Side,
    color: Color,
    samples: int,
)
    requires
        is_pure(buckets, color, samples),
        0 <= samples,
        0 < step,
        lines <= 0x1_0000,
        samples <= 0x80_0000_0000_0000,
        end - start <= u32::MAX,
        samples + lines * u32::MAX <= MOST_SAMPLES,
        forall|l: int, k: int|
            0 <= l < lines && start <= k < end ==> #[trigger] picture.on_line(
                axis,
                first + l * spacing,
                k,
            ) == color,
    ensures
        ({
            let count = sample_count(end - start, step);
            is_pure(
                after_band(
                    buckets,
                    picture,
                    axis,
                    first,
                    spacing,
                    lines,
                    start,
                    end,
                    step,
                    side,
                ),
                color,
                samples + lines * count,
            ) && 0 <= lines * count <= lines * u32::MAX
        }),
    decreases lines,
{
    let count = sample_count(end - start, step) as int;
    assert(0 * count == 0);
    if end > start {
        law_samples_cover_the_stretch(end - start, step);
        assert(count - 1 <= (count - 1) * step) by (nonlinear_arith)
            requires
                count >= 1,
                step >= 1,
        ;
    }
    assert(0 <= count <= u32::MAX);
    let n = lines as int;
    assert(0 <= n * count <= n * u32::MAX) by (nonlinear_arith)
        requires
            0 <= count <= u32::MAX,
            n >= 0,
    ;
    if lines > 0 {
        let before = (lines - 1) as nat;
        let m = before as int;
        assert(n * count == m * count + count) by (nonlinear_arith)
            requires
                n == m + 1,
        ;
        assert(n * u32::MAX == m * u32::MAX + u32::MAX) by (nonlinear_arith)
            requires
                n == m + 1,
        ;
        assert(0 <= m * count) by (nonlinear_arith)
            requires
                m >= 0,
                count >= 0,
        ;
        lemma_pure_band(
            buckets,
            picture,
            axis,
            first,
            spacing,
            before,
            start,
            end,
            step,
            side,
            color,
            samples,
        );
        let fixed = first + before * spacing;
        assert forall|k: int| 0 <= k < count implies #[trigger] picture.on_line(
            axis,
            fixed,
            start + k * step,
        ) == color by {
            lemma_sample_on_stretch(end - start, step, k);
            let along = start + k * step;
            assert(start <= along < end);
            assert(picture.on_line(axis, first + before * spacing, along) == color);
        }
        let grown = after_band(
            buckets,
            picture,
            axis,
            first,
            spacing,
            before,
            start,
            end,
            step,
            side,
        );
        lemma_pure_line(
            grown,
            picture,
            axis,
            fixed,
            start,
            step,
            count as nat,
            side,
            color,
            samples + m * count,
        );
    }
}

/// A picture of one colour has that colour as its background.
pub proof fn law_one_colour_is_the_background(picture: Pixels, color: Color)
    requires
        picture.width > 0,
        picture.height > 0,
        forall|x: int, y: int|
            0 <= x < picture.width && 0 <= y < picture.height ==> #[trigger] picture.at(x, y)
                == color,
    ensures
        edge_background(picture) == color,
{
    let width = picture.width as int;
    let height = picture.height as int;
    let band = edge_band(width, height);
    assert(1 <= band <= 8);
    assert(band <= width && band <= height);
    let step = step_for(max_int(width, height), 1024);
    let lines = band as nat;
    let none = no_samples();
    law_buckets_hold_similar_colours(color, color);
    assert(0 * color.red == 0 && 0 * color.green == 0 && 0 * color.blue == 0);
    assert(is_pure(none, color, 0));
    let across = (lines * sample_count(width, step)) as int;
    let down = (lines * sample_count(height - band - band, step)) as int;
    assert(lines * u32::MAX <= 8 * u32::MAX);
    assert forall|l: int, k: int| 0 <= l < lines && 0 <= k < width implies #[trigger] picture.on_line(
        Axis::Horizontal,
        0 + l * 1,
        k,
    ) == color by {
        assert(picture.at(k, l) == color);
    }
    lemma_pure_band(
        none,
        picture,
        Axis::Horizontal,
        0,
        1,
        lines,
        0,
        width,
        step,
        Side::Top,
        color,
        0,
    );
    let top = after_band(none, picture, Axis::Horizontal, 0, 1, lines, 0, width, step, Side::Top);
    assert forall|l: int, k: int| 0 <= l < lines && 0 <= k < width implies #[trigger] picture.on_line(
        Axis::Horizontal,
        height - band + l * 1,
        k,
    ) == color by {
        assert(picture.at(k, height - band + l) == color);
    }
    lemma_pure_band(
        top,
        picture,
        Axis::Horizontal,
        height - band,
        1,
        lines,
        0,
        width,
        step,
        Side::Bottom,
        color,
        across,
    );
    let bottom = after_band(
        top,
        picture,
        Axis::Horizontal,
        height - band,
        1,
        lines,
        0,
        width,
        step,
        Side::Bottom,
    );
    assert forall|l: int, k: int|
        0 <= l < lines && band <= k < height - band implies #[trigger] picture.on_line(
        Axis::Vertical,
        0 + l * 1,
        k,
    ) == color by {
        assert(picture.at(l, k) == color);
    }
    lemma_pure_band(
        bottom,
        picture,
        Axis::Vertical,
        0,
        1,
        lines,
        band,
        height - band,
        step,
        Side::Left,
        color,
        2 * across,
    );
    let left = after_band(
        bottom,
        picture,
        Axis::Vertical,
        0,
        1,
        lines,
        band,
        height - band,
        step,
        Side::Left,
    );
    assert forall|l: int, k: int|
        0 <= l < lines && band <= k < height - band implies #[trigger] picture.on_line(
        Axis::Vertical,
        width - band + l * 1,
        k,
    ) == color by {
        assert(picture.at(width - band + l, k) == color);
    }
    lemma_pure_band(
        left,
        picture,
        Axis::Vertical,
        width - band,
        1,
        lines,
        band,
        height - band,
        step,
        Side::Right,
        color,
        2 * across + down,
    );
    law_samples_cover_the_stretch(width, step);
    let count = sample_count(width, step) as int;
    assert(across >= 1) by (nonlinear_arith)
        requires
            across == lines * count,
            lines >= 1,
            count >= 1,
    ;
    lemma_pure_background(edge_buckets(picture), color, 2 * across + 2 * down);
}

proof fn lemma_pure_background(buckets: Seq<ColorBucket>, color: Color, samples: int)
    requires
        is_pure(buckets, color, samples),
        0 < samples < MOST_SAMPLES,
    ensures
        background_of(buckets) == color,
        chosen_color(buckets, fullest_bucket(buckets, BUCKETS as nat)) == color,
{
    let total = samples_in(buckets, BUCKETS as nat);
    let key = bucket_key(color);
    law_buckets_hold_similar_colours(color, color);
    let bucket = buckets[key];
    lemma_one_more(samples, color.red as int);
    lemma_one_more(samples, color.green as int);
    lemma_one_more(samples, color.blue as int);
    law_means_are_between(bucket, color, Side::Inside);
    law_the_best_bucket_scores_highest(buckets, total, BUCKETS as nat);
    law_the_fullest_bucket_has_most(buckets, BUCKETS as nat);
    let best = best_bucket(buckets, total, BUCKETS as nat);
    if best is Some {
        assert(best->0 == key);
    }
    let fullest = fullest_bucket(buckets, BUCKETS as nat);
    assert(buckets[key].count > 0);
    assert(fullest is Some && fullest->0 == key);
}

/// An area of one colour has that colour as its most frequent one.
pub proof fn law_one_colour_is_the_most_frequent(picture: Pixels, rect: PixelRect, color: Color)
    requires
        picture.holds(rect),
        0 < rect.width,
        0 < rect.height,
        forall|x: int, y: int|
            rect.x <= x < rect.x + rect.width && rect.y <= y < rect.y + rect.height
                ==> #[trigger] picture.at(x, y) == color,
    ensures
        area_mode(picture, rect) == color,
{
    let step_x = step_for(rect.width as int, 256);
    let step_y = step_for(rect.height as int, 32);
    let rows = sampled_rows(picture, rect, step_y);
    let height = rect.height as int;
    let width = rect.width as int;
    law_rectangles_are_cut_at_the_picture(picture, rect);
    law_samples_cover_the_stretch(height, step_y);
    law_samples_cover_the_stretch(width, step_x);
    law_steps_take_enough_samples(height, 32);
    assert(rows <= 64) by (nonlinear_arith)
        requires
            (rows - 1) * step_y < height,
            height < (step_y + 1) * 32 || height < 32,
            step_y >= 1,
            height >= 1,
    ;
    let none = no_samples();
    law_buckets_hold_similar_colours(color, color);
    assert(0 * color.red == 0 && 0 * color.green == 0 && 0 * color.blue == 0);
    assert(is_pure(none, color, 0));
    assert forall|l: int, k: int|
        0 <= l < rows && rect.x <= k < cut_right(picture, rect) implies #[trigger] picture.on_line(
        Axis::Horizontal,
        rect.y + l * step_y,
        k,
    ) == color by {
        lemma_sample_on_stretch(height, step_y, l);
        assert(picture.at(k, rect.y + l * step_y) == color);
    }
    lemma_pure_band(
        none,
        picture,
        Axis::Horizontal,
        rect.y as int,
        step_y,
        rows,
        rect.x as int,
        cut_right(picture, rect),
        step_x,
        Side::Inside,
        color,
        0,
    );
    let count = sample_count(width, step_x) as int;
    let samples = (rows * count) as int;
    assert(samples >= 1) by (nonlinear_arith)
        requires
            samples == rows * count,
            rows >= 1,
            count >= 1,
    ;
    lemma_pure_background(area_buckets(picture, rect), color, samples);
}

} // verus!
