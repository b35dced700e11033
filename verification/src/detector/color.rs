//! Colours and how far apart they are.

use vstd::prelude::*;

use crate::numeric::{abs_diff_u8, abs_int, max_int, min_int};
use crate::single::{
    fraction, from_int, law_shares_are_compared_by_their_parts, law_small_integers_divide, ratio,
    whole, Single,
};

verus! {

/// A colour.
#[derive(Clone, Copy, Debug, PartialEq, Eq, Structural)]
pub struct Color {
    pub red: u8,
    pub green: u8,
    pub blue: u8,
}

/// Gray of Teams' dark background.
pub const DARK_TEAMS_BACKGROUND: u8 = 0x47;

/// Gray of Teams' light background.
pub const LIGHT_TEAMS_BACKGROUND: u8 = 0xb2;

impl Color {
    pub fn new(red: u8, green: u8, blue: u8) -> (result: Self)
        ensures
            result == (Color { red, green, blue }),
    {
        Color { red, green, blue }
    }

    /// Sum of the differences of the channels.
    pub open spec fn gap(self, other: Color) -> int {
        abs_int(self.red - other.red) + abs_int(self.green - other.green) + abs_int(
            self.blue - other.blue,
        )
    }

    /// Mean difference of the channels.
    pub open spec fn distance(self, other: Color) -> Single {
        fraction(self.gap(other) as nat, 3)
    }

    pub fn color_distance(self, other: Color) -> (result: Single)
        ensures
            result == self.distance(other),
            result.is_canonical(),
    {
        let gap: u64 = abs_diff_u8(self.red, other.red) as u64 + abs_diff_u8(
            self.green,
            other.green,
        ) as u64 + abs_diff_u8(self.blue, other.blue) as u64;
        ratio(gap, 3)
    }

    /// Difference between the strongest and the weakest channel.
    pub open spec fn colorfulness(self) -> int {
        max_int(max_int(self.red as int, self.green as int), self.blue as int) - min_int(
            min_int(self.red as int, self.green as int),
            self.blue as int,
        )
    }

    pub fn chroma(self) -> (result: u8)
        ensures
            result == self.colorfulness(),
    {
        let strong: u8 = if self.red >= self.green { self.red } else { self.green };
        let strong: u8 = if strong >= self.blue { strong } else { self.blue };
        let weak: u8 = if self.red <= self.green { self.red } else { self.green };
        let weak: u8 = if weak <= self.blue { weak } else { self.blue };
        strong - weak
    }

    pub open spec fn is_gray(self) -> bool {
        self.colorfulness() <= 24
    }

    pub fn is_neutral_gray(self) -> (result: bool)
        ensures
            result == self.is_gray(),
    {
        self.chroma() <= 24
    }

    /// Mean of the channels, rounded down.
    pub open spec fn gray(self) -> int {
        (self.red + self.green + self.blue) / 3
    }

    pub fn gray_value(self) -> (result: u8)
        ensures
            result == self.gray(),
    {
        ((self.red as u16 + self.green as u16 + self.blue as u16) / 3) as u8
    }

    /// The colour's luminance, in units of one 256th of a channel step.
    pub open spec fn luminance_units(self) -> int {
        self.red * 54 + self.green * 183 + self.blue * 19
    }

    pub fn luminance(self) -> (result: u32)
        ensures
            result == self.luminance_units(),
            result <= 65280,
    {
        self.red as u32 * 54 + self.green as u32 * 183 + self.blue as u32 * 19
    }
}

/// A gray near one of Teams' backgrounds.
pub open spec fn is_known_gray(gray: int, tolerance: int) -> bool {
    abs_int(gray - DARK_TEAMS_BACKGROUND) <= tolerance || abs_int(gray - LIGHT_TEAMS_BACKGROUND)
        <= tolerance
}

pub fn is_near_known_background(gray: u8, tolerance: u8) -> (result: bool)
    ensures
        result == is_known_gray(gray as int, tolerance as int),
{
    abs_diff_u8(gray, DARK_TEAMS_BACKGROUND) <= tolerance || abs_diff_u8(
        gray,
        LIGHT_TEAMS_BACKGROUND,
    ) <= tolerance
}

/// What a sampled pixel is tested for.
#[derive(Clone, Copy, Debug, PartialEq, Eq, Structural)]
pub enum PixelTest {
    /// Close to this background.
    Near(Color),
    /// Gray, and very close to this background.
    GrayNear(Color),
    /// Gray, with a value near the target.
    Gray { target: u8, tolerance: u8 },
    /// Gray, near one of Teams' backgrounds.
    KnownGray { tolerance: u8 },
    /// Different from this base, or colourful.
    Distinctive(Color),
}

impl PixelTest {
    pub open spec fn holds(self, color: Color) -> bool {
        match self {
            PixelTest::Near(background) => whole(18).at_least(color.distance(background)),
            PixelTest::GrayNear(background) => color.is_gray() && whole(4).at_least(
                color.distance(background),
            ),
            PixelTest::Gray { target, tolerance } => color.is_gray() && abs_int(
                color.gray() - target,
            ) <= tolerance,
            PixelTest::KnownGray { tolerance } => color.is_gray() && is_known_gray(
                color.gray(),
                tolerance as int,
            ),
            PixelTest::Distinctive(base) => color.distance(base).at_least(whole(24))
                || color.colorfulness() >= 36,
        }
    }

    pub fn check(self, color: Color) -> (result: bool)
        ensures
            result == self.holds(color),
    {
        match self {
            PixelTest::Near(background) => from_int(18).ge(color.color_distance(background)),
            PixelTest::GrayNear(background) => color.is_neutral_gray() && from_int(4).ge(
                color.color_distance(background),
            ),
            PixelTest::Gray { target, tolerance } => color.is_neutral_gray() && abs_diff_u8(
                color.gray_value(),
                target,
            ) <= tolerance,
            PixelTest::KnownGray { tolerance } => color.is_neutral_gray()
                && is_near_known_background(color.gray_value(), tolerance),
            PixelTest::Distinctive(base) => color.color_distance(base).ge(from_int(24))
                || color.chroma() >= 36,
        }
    }
}

/// Two colours are as far apart either way, not at all where they are the same, and further
/// where one channel is.
pub proof fn law_distances_are_mutual(color: Color, other: Color, between: Color)
    ensures
        color.gap(other) == other.gap(color),
        color.distance(other) == other.distance(color),
        color.gap(other) == 0 <==> color == other,
        0 <= color.gap(other) <= 765,
        color.gap(other) <= color.gap(between) + between.gap(other),
        color.green == other.green && color.blue == other.blue && color.red <= other.red
            ==> color.gap(other) == other.red - color.red,
{
}

/// A colour has no more colour than its channels differ; one with equal channels is gray, and
/// a channel that stands out by more than 24 makes it none.
pub proof fn law_grays_have_equal_channels(color: Color)
    ensures
        color.red == color.green && color.green == color.blue ==> color.is_gray()
            && color.colorfulness() == 0 && color.gray() == color.red,
        color.is_gray() <==> color.red - color.green <= 24 && color.green - color.red <= 24
            && color.green - color.blue <= 24 && color.blue - color.green <= 24 && color.red
            - color.blue <= 24 && color.blue - color.red <= 24,
        color.colorfulness() >= color.red - color.blue,
        color.colorfulness() >= color.blue - color.green,
        0 <= color.colorfulness() <= 255,
        3 * color.gray() <= color.red + color.green + color.blue < 3 * color.gray() + 3,
{
}

/// Luminance goes from nothing for black to the most for white, every channel adds to it, and
/// green most, blue least.
pub proof fn law_green_is_the_brightest(color: Color)
    ensures
        (Color { red: 0, green: 0, blue: 0 }).luminance_units() == 0,
        (Color { red: 255, green: 255, blue: 255 }).luminance_units() == 255 * 256,
        color.red < 255 ==> (Color { red: (color.red + 1) as u8, ..color }).luminance_units()
            == color.luminance_units() + 54,
        color.green < 255 ==> (Color { green: (color.green + 1) as u8, ..color }).luminance_units()
            == color.luminance_units() + 183,
        color.blue < 255 ==> (Color { blue: (color.blue + 1) as u8, ..color }).luminance_units()
            == color.luminance_units() + 19,
{
}

/// A gray is known where it lies about one of the two backgrounds of Teams.
pub proof fn law_known_grays_lie_about_the_backgrounds(gray: int, tolerance: int)
    requires
        tolerance >= 0,
    ensures
        is_known_gray(gray, tolerance) <==> 0x47 - tolerance <= gray
            <= 0x47 + tolerance || 0xb2 - tolerance <= gray <= 0xb2 + tolerance,
        is_known_gray(0xb2, tolerance),
        is_known_gray(0x47, tolerance),
        is_known_gray(gray, tolerance) ==> is_known_gray(gray, tolerance + 1),
{
}

/// What each test of a pixel asks for, in steps of the channels: near is up to 18 on average,
/// very near up to 4, and distinctive from 24 on, or colourful from 36 on.
pub proof fn law_tests_ask_for_steps(color: Color, base: Color, target: u8, tolerance: u8)
    ensures
        PixelTest::Near(base).holds(color) <==> color.gap(base) <= 54,
        PixelTest::GrayNear(base).holds(color) <==> color.is_gray() && color.gap(base) <= 12,
        PixelTest::Distinctive(base).holds(color) <==> color.gap(base) >= 72
            || color.colorfulness() >= 36,
        (PixelTest::Gray { target, tolerance }).holds(color) <==> color.is_gray() && target
            - tolerance <= color.gray() <= target + tolerance,
        (PixelTest::KnownGray { tolerance }).holds(color) <==> color.is_gray() && is_known_gray(
            color.gray(),
            tolerance as int,
        ),
        PixelTest::Near(color).holds(color),
        PixelTest::Near(base).holds(color) ==> !PixelTest::Distinctive(base).holds(color)
            || color.colorfulness() >= 36,
{
    let gap = color.gap(base) as nat;
    law_small_integers_divide(18, 3);
    law_small_integers_divide(4, 3);
    law_small_integers_divide(24, 3);
    law_shares_are_compared_by_their_parts(54, gap, 3);
    law_shares_are_compared_by_their_parts(12, gap, 3);
    law_shares_are_compared_by_their_parts(gap, 72, 3);
    law_shares_are_compared_by_their_parts(54, 0, 3);
}

} // verus!
