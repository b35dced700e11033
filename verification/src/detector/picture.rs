//! Pictures in memory.

use vstd::prelude::*;

use crate::detector::color::Color;
use crate::geometry::PixelRect;

verus! {

/// An RGBA picture, row by row.
#[derive(Debug)]
pub struct Picture {
    pub width: u32,
    pub height: u32,
    pub pixels: Vec<u8>,
}

/// The direction of a line through a picture.
#[derive(Clone, Copy, Debug, PartialEq, Eq, Structural)]
pub enum Axis {
    Horizontal,
    Vertical,
}

/// What a picture shows.
pub struct Pixels {
    pub width: u32,
    pub height: u32,
    pub bytes: Seq<u8>,
}

impl Pixels {
    /// The colour at a place.
    pub open spec fn at(self, x: int, y: int) -> Color {
        let start = (y * self.width + x) * 4;
        Color {
            red: self.bytes[start],
            green: self.bytes[start + 1],
            blue: self.bytes[start + 2],
        }
    }

    /// The colour at a place on a line: `fixed` is the line's own place, `along` the one on
    /// it.
    pub open spec fn on_line(self, axis: Axis, fixed: int, along: int) -> Color {
        match axis {
            Axis::Horizontal => self.at(along, fixed),
            Axis::Vertical => self.at(fixed, along),
        }
    }

    /// The line lies inside the picture up to before `end`.
    pub open spec fn has_line(self, axis: Axis, fixed: int, end: int) -> bool {
        match axis {
            Axis::Horizontal => 0 <= fixed < self.height && end <= self.width,
            Axis::Vertical => 0 <= fixed < self.width && end <= self.height,
        }
    }

    /// The whole picture.
    pub open spec fn bounds(self) -> PixelRect {
        PixelRect { x: 0, y: 0, width: self.width, height: self.height }
    }

    /// The rectangle lies inside the picture.
    pub open spec fn holds(self, rect: PixelRect) -> bool {
        rect.x + rect.width <= self.width && rect.y + rect.height <= self.height
    }
}

impl View for Picture {
    type V = Pixels;

    open spec fn view(&self) -> Pixels {
        Pixels { width: self.width, height: self.height, bytes: self.pixels@ }
    }
}

/// Most rows of a picture that has been made smaller.
pub const MOST_SMALL_ROWS: u32 = 4096;

impl Picture {
    /// The buffer fits the size, and the picture can be resampled in memory.
    pub open spec fn well_formed(&self) -> bool {
        &&& self.pixels@.len() == self.width * self.height * 4
        &&& self.width * MOST_SMALL_ROWS * 16 <= isize::MAX
    }

    /// A picture of the given size from its pixels, where their number fits and the picture
    /// can be resampled in memory.
    pub fn from_raw(width: u32, height: u32, pixels: Vec<u8>) -> (result: Option<Picture>)
        ensures
            result is Some == (pixels@.len() == width * height * 4 && width * MOST_SMALL_ROWS * 16
                <= isize::MAX),
            result is Some ==> result->0 == (Picture { width, height, pixels })
                && result->0.well_formed(),
    {
        proof {
            lemma_size_fits(width, height);
        }
        let expected: u128 = width as u128 * height as u128 * 4;
        let rows: u128 = width as u128 * MOST_SMALL_ROWS as u128 * 16;
        if pixels.len() as u128 == expected && rows <= isize::MAX as u128 {
            Some(Picture { width, height, pixels })
        } else {
            None
        }
    }

    pub fn pixel(&self, x: u32, y: u32) -> (result: Color)
        requires
            self.well_formed(),
            x < self.width,
            y < self.height,
        ensures
            result == self@.at(x as int, y as int),
    {
        let length: usize = self.pixels.len();
        proof {
            lemma_index_fits(x as int, y as int, self.width as int, self.height as int);
        }
        let start: usize = (y as usize * self.width as usize + x as usize) * 4;
        Color {
            red: self.pixels[start],
            green: self.pixels[start + 1],
            blue: self.pixels[start + 2],
        }
    }

    pub fn line_pixel(&self, axis: Axis, fixed: u32, along: u32) -> (result: Color)
        requires
            self.well_formed(),
            self@.has_line(axis, fixed as int, along + 1),
        ensures
            result == self@.on_line(axis, fixed as int, along as int),
    {
        match axis {
            Axis::Horizontal => self.pixel(along, fixed),
            Axis::Vertical => self.pixel(fixed, along),
        }
    }
}

proof fn lemma_size_fits(width: u32, height: u32)
    ensures
        0 <= width * height <= u32::MAX * u32::MAX,
{
    assert(0 <= width * height <= u32::MAX * u32::MAX) by (nonlinear_arith)
        requires
            0 <= width <= u32::MAX,
            0 <= height <= u32::MAX,
    ;
}

pub proof fn lemma_index_fits(x: int, y: int, width: int, height: int)
    requires
        0 <= x < width,
        0 <= y < height,
    ensures
        0 <= y * width,
        0 <= y * width + x < width * height,
{
    assert(y * width + width <= width * height) by (nonlinear_arith)
        requires
            0 <= y < height,
            0 <= width,
    ;
    assert(0 <= y * width) by (nonlinear_arith)
        requires
            0 <= y,
            0 <= width,
    ;
}

/// Different places of a grid have different indices.
pub proof fn lemma_index_is_unique(x: int, y: int, other_x: int, other_y: int, width: int)
    requires
        0 <= x < width,
        0 <= other_x < width,
        y * width + x == other_y * width + other_x,
    ensures
        x == other_x,
        y == other_y,
{
    let a = y * width + x;
    assert(width * y == y * width) by (nonlinear_arith);
    assert(width * other_y == other_y * width) by (nonlinear_arith);
    vstd::arithmetic::div_mod::lemma_fundamental_div_mod_converse(a, width, y, x);
    vstd::arithmetic::div_mod::lemma_fundamental_div_mod_converse(a, width, other_y, other_x);
}

/// Pixels follow each other in rows of four bytes each, red, green and blue first; a picture
/// holds exactly the rectangles that do not stick out of it.
pub proof fn law_pixels_follow_each_other(picture: Pixels, x: int, y: int, rect: PixelRect)
    ensures
        picture.at(x, y).red == picture.bytes[4 * (y * picture.width + x)],
        picture.at(x, y).green == picture.bytes[4 * (y * picture.width + x) + 1],
        picture.at(x, y).blue == picture.bytes[4 * (y * picture.width + x) + 2],
        picture.at(x + picture.width, y) == picture.at(x, y + 1),
        picture.on_line(Axis::Horizontal, y, x) == picture.at(x, y),
        picture.on_line(Axis::Vertical, x, y) == picture.at(x, y),
        picture.holds(picture.bounds()),
        picture.holds(rect) <==> rect.x + rect.width <= picture.bounds().width && rect.y
            + rect.height <= picture.bounds().height,
        picture.bounds().x == 0 && picture.bounds().y == 0,
        picture.has_line(Axis::Horizontal, y, picture.width as int) <==> 0 <= y < picture.height,
        picture.has_line(Axis::Vertical, x, picture.height as int) <==> 0 <= x < picture.width,
        !picture.has_line(Axis::Horizontal, y, picture.width + 1),
        !picture.has_line(Axis::Vertical, x, picture.height + 1),
{
    let w = picture.width as int;
    assert((y + 1) * w == y * w + w) by (nonlinear_arith);
}

} // verus!
