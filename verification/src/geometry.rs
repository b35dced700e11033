//! Rectangles on the screen and in captured images, and the mapping between them.

use vstd::prelude::*;

use crate::error::CaptureError;
use crate::numeric::{
    clamp_int, clamp_to_i32, law_scaling_keeps_the_ratio, lemma_div_up, lemma_scaling_keeps_bounds,
    max_i64, max_int, max_u32, min_i64,
    min_int, min_u32, saturating_sum, scale_ceil, scale_floor, scaled_down, scaled_up,
};

verus! {

/// A rectangle in physical screen coordinates.
#[derive(Clone, Copy, Debug, PartialEq, Eq, Structural)]
pub struct ScreenRect {
    pub x: i32,
    pub y: i32,
    pub width: u32,
    pub height: u32,
}

/// Width and height of a captured frame.
#[derive(Clone, Copy, Debug, PartialEq, Eq, Structural)]
pub struct FrameSize {
    pub width: u32,
    pub height: u32,
}

/// A point in physical screen coordinates.
#[derive(Clone, Copy, Debug, PartialEq, Eq, Structural)]
pub struct ScreenPoint {
    pub x: i32,
    pub y: i32,
}

/// A rectangle given by its four edges, as window and accessibility calls report it.
#[derive(Clone, Copy, Debug, PartialEq, Eq, Structural)]
pub struct Edges {
    pub left: i32,
    pub top: i32,
    pub right: i32,
    pub bottom: i32,
}

impl Edges {
    pub fn new(left: i32, top: i32, right: i32, bottom: i32) -> (result: Self)
        ensures
            result == (Edges { left, top, right, bottom }),
    {
        Edges { left, top, right, bottom }
    }

    /// The rectangle has an interior.
    pub open spec fn has_area(self) -> bool {
        self.right > self.left && self.bottom > self.top
    }
}

/// A rectangle in the pixels of a captured image.
#[derive(Clone, Copy, Debug, PartialEq, Eq, Hash, Structural)]
pub struct PixelRect {
    pub x: u32,
    pub y: u32,
    pub width: u32,
    pub height: u32,
}

impl PixelRect {
    pub fn new(x: u32, y: u32, width: u32, height: u32) -> (result: Self)
        ensures
            result == (PixelRect { x, y, width, height }),
    {
        PixelRect { x, y, width, height }
    }

    /// First column behind the rectangle, or the largest coordinate.
    pub open spec fn right_edge(self) -> int {
        saturating_sum(self.x as int, self.width as int)
    }

    /// First row below the rectangle, or the largest coordinate.
    pub open spec fn bottom_edge(self) -> int {
        saturating_sum(self.y as int, self.height as int)
    }

    pub open spec fn pixel_count(self) -> int {
        self.width * self.height
    }

    /// The rectangle lies inside an image of the given size.
    pub open spec fn fits(self, width: u32, height: u32) -> bool {
        self.right_edge() <= width && self.bottom_edge() <= height
    }

    /// The rectangle lies inside another one.
    pub open spec fn lies_in(self, other: Self) -> bool {
        &&& other.x <= self.x
        &&& other.y <= self.y
        &&& self.x + self.width <= other.x + other.width
        &&& self.y + self.height <= other.y + other.height
    }

    /// The pixel at (`column`, `row`) belongs to the rectangle.
    pub open spec fn covers(self, column: int, row: int) -> bool {
        self.x <= column < self.right_edge() && self.y <= row < self.bottom_edge()
    }

    pub fn right(self) -> (result: u32)
        ensures
            result == self.right_edge(),
    {
        self.x.saturating_add(self.width)
    }

    pub fn bottom(self) -> (result: u32)
        ensures
            result == self.bottom_edge(),
    {
        self.y.saturating_add(self.height)
    }

    pub fn area(self) -> (result: u64)
        ensures
            result == self.pixel_count(),
    {
        assert(self.width * self.height <= u32::MAX * u32::MAX) by (nonlinear_arith)
            requires
                self.width <= u32::MAX,
                self.height <= u32::MAX,
        ;
        self.width as u64 * self.height as u64
    }

    /// What two rectangles share, or `None` where that has no interior.
    pub open spec fn common_part(self, other: Self) -> Option<Self> {
        let left = max_int(self.x as int, other.x as int);
        let top = max_int(self.y as int, other.y as int);
        let right = min_int(self.right_edge(), other.right_edge());
        let bottom = min_int(self.bottom_edge(), other.bottom_edge());
        if right > left && bottom > top {
            Some(
                PixelRect {
                    x: left as u32,
                    y: top as u32,
                    width: (right - left) as u32,
                    height: (bottom - top) as u32,
                },
            )
        } else {
            None
        }
    }

    pub fn intersection(self, other: Self) -> (result: Option<Self>)
        ensures
            result == self.common_part(other),
    {
        let left: u32 = max_u32(self.x, other.x);
        let top: u32 = max_u32(self.y, other.y);
        let right: u32 = min_u32(self.right(), other.right());
        let bottom: u32 = min_u32(self.bottom(), other.bottom());
        if right > left && bottom > top {
            Some(PixelRect { x: left, y: top, width: right - left, height: bottom - top })
        } else {
            None
        }
    }
}

/// A pixel belongs to the common part of two rectangles exactly where it belongs
/// to both.
pub proof fn law_intersection_covers(left: PixelRect, right: PixelRect, column: int, row: int)
    ensures
        (left.covers(column, row) && right.covers(column, row)) == match left.common_part(right) {
            Some(common) => common.covers(column, row),
            None => false,
        },
{
}

/// Intersection does not depend on the order of its two rectangles.
pub proof fn law_intersection_commutes(left: PixelRect, right: PixelRect)
    ensures
        left.common_part(right) == right.common_part(left),
{
}

/// A screen rectangle from its edges: `None` where a side has no positive length
/// or its length does not fit in 31 bits.
pub open spec fn screen_rect_of(edges: Edges) -> Option<ScreenRect> {
    let width = edges.right - edges.left;
    let height = edges.bottom - edges.top;
    if 0 < width <= i32::MAX && 0 < height <= i32::MAX {
        Some(
            ScreenRect { x: edges.left, y: edges.top, width: width as u32, height: height as u32 },
        )
    } else {
        None
    }
}

pub fn screen_rect_from_rect(rect: Edges) -> (result: Option<ScreenRect>)
    ensures
        result == screen_rect_of(rect),
{
    let width: i64 = rect.right as i64 - rect.left as i64;
    let height: i64 = rect.bottom as i64 - rect.top as i64;
    if 0 < width && width <= 0x7fff_ffff && 0 < height && height <= 0x7fff_ffff {
        Some(ScreenRect { x: rect.left, y: rect.top, width: width as u32, height: height as u32 })
    } else {
        None
    }
}

/// Where a window stands on the screen, and the size of its captured image.
#[derive(Clone, Copy, Debug, PartialEq, Eq, Structural)]
pub struct WindowGeometry {
    pub screen_left: i32,
    pub screen_top: i32,
    pub screen_width: u32,
    pub screen_height: u32,
    pub image_width: u32,
    pub image_height: u32,
}

/// What the window system says of the window that is captured.
#[derive(Clone, Copy, Debug, PartialEq, Eq, Structural)]
pub struct WindowReport {
    /// The handle still names a window.
    pub exists: bool,
    pub minimized: bool,
    /// Its outer edges, where they could be read.
    pub bounds: Option<Edges>,
}

/// First pixel on the screen of an image span that starts at `start`.
pub open spec fn span_start(origin: int, screen: int, image: int, start: int) -> int {
    origin + scaled_down(start, screen, image)
}

/// First pixel on the screen behind an image span that ends at `end`.
pub open spec fn span_end(origin: int, screen: int, image: int, end: int) -> int {
    origin + scaled_up(end, screen, image)
}

impl WindowGeometry {
    /// The geometry that a window report gives, or why it gives none.
    pub open spec fn reported(report: WindowReport, image_width: u32, image_height: u32) -> Result<
        WindowGeometry,
        CaptureError,
    > {
        if !report.exists || report.minimized {
            Err(CaptureError::WindowUnconfirmed)
        } else {
            match report.bounds {
                None => Err(CaptureError::WindowPositionUnavailable),
                Some(bounds) => if !bounds.has_area() || image_width == 0 || image_height == 0 {
                    Err(CaptureError::WindowSizeInvalid)
                } else {
                    Ok(
                        WindowGeometry {
                            screen_left: bounds.left,
                            screen_top: bounds.top,
                            screen_width: (bounds.right - bounds.left) as u32,
                            screen_height: (bounds.bottom - bounds.top) as u32,
                            image_width,
                            image_height,
                        },
                    )
                },
            }
        }
    }

    /// Builds the geometry from what the window system reports.
    pub fn from_window_report(report: WindowReport, image_width: u32, image_height: u32) -> (result:
        Result<Self, CaptureError>)
        ensures
            result == Self::reported(report, image_width, image_height),
    {
        if !report.exists || report.minimized {
            return Err(CaptureError::WindowUnconfirmed);
        }
        let bounds = match report.bounds {
            Some(bounds) => bounds,
            None => {
                return Err(CaptureError::WindowPositionUnavailable);
            },
        };
        if bounds.right <= bounds.left || bounds.bottom <= bounds.top || image_width == 0
            || image_height == 0 {
            return Err(CaptureError::WindowSizeInvalid);
        }
        Ok(
            Self::from_screen_rect(
                ScreenRect {
                    x: bounds.left,
                    y: bounds.top,
                    width: (bounds.right as i64 - bounds.left as i64) as u32,
                    height: (bounds.bottom as i64 - bounds.top as i64) as u32,
                },
                image_width,
                image_height,
            ),
        )
    }

    pub fn from_screen_rect(rect: ScreenRect, image_width: u32, image_height: u32) -> (result: Self)
        ensures
            result == (WindowGeometry {
                screen_left: rect.x,
                screen_top: rect.y,
                screen_width: rect.width,
                screen_height: rect.height,
                image_width,
                image_height,
            }),
    {
        WindowGeometry {
            screen_left: rect.x,
            screen_top: rect.y,
            screen_width: rect.width,
            screen_height: rect.height,
            image_width,
            image_height,
        }
    }

    /// Width and height of the captured image.
    pub fn image_dimensions(self) -> (result: (u32, u32))
        ensures
            result == (self.image_width, self.image_height),
    {
        (self.image_width, self.image_height)
    }

    /// The screen rectangle of an image rectangle: both edges are moved outwards to
    /// whole pixels. `None` where the rectangle is empty, leaves the image or
    /// covers no screen pixel.
    pub open spec fn screen_area(self, rect: PixelRect) -> Option<ScreenRect> {
        if rect.width == 0 || rect.height == 0 || !rect.fits(self.image_width, self.image_height) {
            None
        } else {
            let sw = self.screen_width as int;
            let sh = self.screen_height as int;
            let iw = self.image_width as int;
            let ih = self.image_height as int;
            let left = span_start(self.screen_left as int, sw, iw, rect.x as int);
            let top = span_start(self.screen_top as int, sh, ih, rect.y as int);
            let right = span_end(self.screen_left as int, sw, iw, rect.right_edge());
            let bottom = span_end(self.screen_top as int, sh, ih, rect.bottom_edge());
            if right <= left || bottom <= top {
                None
            } else {
                Some(
                    ScreenRect {
                        x: clamp_int(left, i32::MIN as int, i32::MAX as int) as i32,
                        y: clamp_int(top, i32::MIN as int, i32::MAX as int) as i32,
                        width: (right - left) as u32,
                        height: (bottom - top) as u32,
                    },
                )
            }
        }
    }

    /// Maps a rectangle of the captured image to the screen.
    pub fn map_pixel_rect_to_screen(self, rect: PixelRect) -> (result: Option<ScreenRect>)
        ensures
            result == self.screen_area(rect),
    {
        if rect.width == 0 || rect.height == 0 || rect.right() > self.image_width || rect.bottom()
            > self.image_height {
            return None;
        }
        proof {
            lemma_product_fits(rect.x as int, self.screen_width as int);
            lemma_product_fits(rect.y as int, self.screen_height as int);
            lemma_product_fits(rect.right_edge(), self.screen_width as int);
            lemma_product_fits(rect.bottom_edge(), self.screen_height as int);
            lemma_scaling_keeps_bounds(
                rect.x as int,
                self.screen_width as int,
                self.image_width as int,
            );
            lemma_scaling_keeps_bounds(
                rect.y as int,
                self.screen_height as int,
                self.image_height as int,
            );
        }
        let left: i64 = self.screen_left as i64 + scale_floor(
            rect.x as u64,
            self.screen_width,
            self.image_width,
        ) as i64;
        let top: i64 = self.screen_top as i64 + scale_floor(
            rect.y as u64,
            self.screen_height,
            self.image_height,
        ) as i64;
        let right: i64 = self.screen_left as i64 + scale_ceil(
            rect.right() as u64,
            self.screen_width,
            self.image_width,
        ) as i64;
        let bottom: i64 = self.screen_top as i64 + scale_ceil(
            rect.bottom() as u64,
            self.screen_height,
            self.image_height,
        ) as i64;
        if right <= left || bottom <= top {
            return None;
        }
        Some(
            ScreenRect {
                x: clamp_to_i32(left),
                y: clamp_to_i32(top),
                width: (right - left) as u32,
                height: (bottom - top) as u32,
            },
        )
    }

    /// The part of `rect` that lies on the window, in screen coordinates.
    pub open spec fn visible_left(self, rect: Edges) -> int {
        max_int(rect.left as int, self.screen_left as int)
    }

    pub open spec fn visible_top(self, rect: Edges) -> int {
        max_int(rect.top as int, self.screen_top as int)
    }

    pub open spec fn visible_right(self, rect: Edges) -> int {
        min_int(rect.right as int, self.screen_left + self.screen_width)
    }

    pub open spec fn visible_bottom(self, rect: Edges) -> int {
        min_int(rect.bottom as int, self.screen_top + self.screen_height)
    }

    /// `rect` and the window share an interior.
    pub open spec fn overlaps(self, rect: Edges) -> bool {
        self.visible_right(rect) > self.visible_left(rect) && self.visible_bottom(rect)
            > self.visible_top(rect)
    }

    /// The image rectangle of a screen rectangle, cut to the window: both edges are
    /// moved outwards to whole pixels.
    pub open spec fn image_area(self, rect: Edges) -> Option<PixelRect> {
        if !self.overlaps(rect) {
            None
        } else {
            let sw = self.screen_width as int;
            let sh = self.screen_height as int;
            let iw = self.image_width as int;
            let ih = self.image_height as int;
            let left = scaled_down(self.visible_left(rect) - self.screen_left, iw, sw);
            let top = scaled_down(self.visible_top(rect) - self.screen_top, ih, sh);
            let right = scaled_up(self.visible_right(rect) - self.screen_left, iw, sw);
            let bottom = scaled_up(self.visible_bottom(rect) - self.screen_top, ih, sh);
            if right > left && bottom > top {
                Some(
                    PixelRect {
                        x: left as u32,
                        y: top as u32,
                        width: (right - left) as u32,
                        height: (bottom - top) as u32,
                    },
                )
            } else {
                None
            }
        }
    }

    /// Maps a screen rectangle to the captured image.
    pub fn map_ui_rect(self, rect: Edges) -> (result: Option<PixelRect>)
        ensures
            result == self.image_area(rect),
    {
        let window_left: i64 = self.screen_left as i64;
        let window_top: i64 = self.screen_top as i64;
        let window_right: i64 = window_left + self.screen_width as i64;
        let window_bottom: i64 = window_top + self.screen_height as i64;
        let left: i64 = max_i64(rect.left as i64, window_left);
        let top: i64 = max_i64(rect.top as i64, window_top);
        let right: i64 = min_i64(rect.right as i64, window_right);
        let bottom: i64 = min_i64(rect.bottom as i64, window_bottom);
        if right <= left || bottom <= top {
            return None;
        }
        let local_left: u64 = (left - window_left) as u64;
        let local_top: u64 = (top - window_top) as u64;
        let local_right: u64 = (right - window_left) as u64;
        let local_bottom: u64 = (bottom - window_top) as u64;
        proof {
            lemma_product_fits(local_left as int, self.image_width as int);
            lemma_product_fits(local_top as int, self.image_height as int);
            lemma_product_fits(local_right as int, self.image_width as int);
            lemma_product_fits(local_bottom as int, self.image_height as int);
        }
        let pixel_left: u32 = scale_floor(local_left, self.image_width, self.screen_width);
        let pixel_top: u32 = scale_floor(local_top, self.image_height, self.screen_height);
        let pixel_right: u32 = scale_ceil(local_right, self.image_width, self.screen_width);
        let pixel_bottom: u32 = scale_ceil(local_bottom, self.image_height, self.screen_height);
        if pixel_right > pixel_left && pixel_bottom > pixel_top {
            Some(
                PixelRect {
                    x: pixel_left,
                    y: pixel_top,
                    width: pixel_right - pixel_left,
                    height: pixel_bottom - pixel_top,
                },
            )
        } else {
            None
        }
    }

    /// At least 98 of 100 parts of `rect` lie on the window. The products stop at
    /// the largest 64-bit number.
    pub open spec fn mostly_visible(self, rect: Edges) -> bool {
        let whole = (rect.right - rect.left) * (rect.bottom - rect.top);
        let visible = (self.visible_right(rect) - self.visible_left(rect)) * (self.visible_bottom(
            rect,
        ) - self.visible_top(rect));
        min_int(visible * 100, u64::MAX as int) >= min_int(whole * 98, u64::MAX as int)
    }

    /// `image_area`, refused where more than a sliver of `rect` lies off the window.
    pub open spec fn strict_image_area(self, rect: Edges) -> Option<PixelRect> {
        if rect.has_area() && self.overlaps(rect) && self.mostly_visible(rect) {
            self.image_area(rect)
        } else {
            None
        }
    }

    /// Maps a screen rectangle that has to lie on the window to the captured image.
    pub fn map_ui_rect_strict(self, rect: Edges) -> (result: Option<PixelRect>)
        ensures
            result == self.strict_image_area(rect),
    {
        let raw_left: i64 = rect.left as i64;
        let raw_top: i64 = rect.top as i64;
        let raw_right: i64 = rect.right as i64;
        let raw_bottom: i64 = rect.bottom as i64;
        if raw_right <= raw_left || raw_bottom <= raw_top {
            return None;
        }
        let window_left: i64 = self.screen_left as i64;
        let window_top: i64 = self.screen_top as i64;
        let window_right: i64 = window_left + self.screen_width as i64;
        let window_bottom: i64 = window_top + self.screen_height as i64;
        let left: i64 = max_i64(raw_left, window_left);
        let top: i64 = max_i64(raw_top, window_top);
        let right: i64 = min_i64(raw_right, window_right);
        let bottom: i64 = min_i64(raw_bottom, window_bottom);
        if right <= left || bottom <= top {
            return None;
        }
        proof {
            lemma_product_fits(raw_right - raw_left, raw_bottom - raw_top);
            lemma_product_fits(right - left, bottom - top);
        }
        let raw_area: u64 = (raw_right - raw_left) as u64 * (raw_bottom - raw_top) as u64;
        let visible_area: u64 = (right - left) as u64 * (bottom - top) as u64;
        let scaled_visible: u128 = visible_area as u128 * 100;
        let scaled_raw: u128 = raw_area as u128 * 98;
        if saturate_u64(scaled_visible) < saturate_u64(scaled_raw) {
            return None;
        }
        self.map_ui_rect(rect)
    }

    /// A point near the middle of the window: half of its last column, eleven
    /// twentieths of its last row, each rounded to the nearest pixel.
    pub open spec fn probe(self) -> ScreenPoint {
        let columns = max_int(self.screen_width - 1, 0);
        let rows = max_int(self.screen_height - 1, 0);
        ScreenPoint {
            x: clamp_int(
                self.screen_left + (columns + 1) / 2,
                i32::MIN as int,
                i32::MAX as int,
            ) as i32,
            y: clamp_int(
                self.screen_top + (rows * 11 + 10) / 20,
                i32::MIN as int,
                i32::MAX as int,
            ) as i32,
        }
    }

    /// The point at which an accessibility provider is woken up.
    pub fn probe_point(self) -> (result: ScreenPoint)
        ensures
            result == self.probe(),
    {
        let columns: i64 = self.screen_width.saturating_sub(1) as i64;
        let rows: i64 = self.screen_height.saturating_sub(1) as i64;
        ScreenPoint {
            x: clamp_to_i32(self.screen_left as i64 + (columns + 1) / 2),
            y: clamp_to_i32(self.screen_top as i64 + (rows * 11 + 10) / 20),
        }
    }
}

fn saturate_u64(value: u128) -> (result: u64)
    ensures
        result == min_int(value as int, u64::MAX as int),
{
    if value > 0xffff_ffff_ffff_ffff {
        u64::MAX
    } else {
        value as u64
    }
}

proof fn lemma_product_fits(left: int, right: int)
    requires
        0 <= left <= u32::MAX,
        0 <= right <= u32::MAX,
    ensures
        0 <= left * right <= u64::MAX,
{
    assert(0 <= left * right <= u32::MAX * u32::MAX) by (nonlinear_arith)
        requires
            0 <= left <= u32::MAX,
            0 <= right <= u32::MAX,
    ;
}

/// A mapped accessibility rectangle is never empty and lies inside the image.
pub proof fn law_mapped_rect_lies_in_the_image(geometry: WindowGeometry, rect: Edges)
    requires
        geometry.image_area(rect) is Some,
    ensures
        ({
            let area = geometry.image_area(rect)->0;
            &&& area.width > 0
            &&& area.height > 0
            &&& area.fits(geometry.image_width, geometry.image_height)
        }),
{
    lemma_scaling_keeps_bounds(
        geometry.visible_left(rect) - geometry.screen_left,
        geometry.image_width as int,
        geometry.screen_width as int,
    );
    lemma_scaling_keeps_bounds(
        geometry.visible_right(rect) - geometry.screen_left,
        geometry.image_width as int,
        geometry.screen_width as int,
    );
    lemma_scaling_keeps_bounds(
        geometry.visible_top(rect) - geometry.screen_top,
        geometry.image_height as int,
        geometry.screen_height as int,
    );
    lemma_scaling_keeps_bounds(
        geometry.visible_bottom(rect) - geometry.screen_top,
        geometry.image_height as int,
        geometry.screen_height as int,
    );
}

/// The screen rectangle of an image rectangle lies on the window, as far as the
/// window's corner fits in 32 bits.
pub proof fn law_screen_area_lies_on_the_window(geometry: WindowGeometry, rect: PixelRect)
    requires
        geometry.screen_area(rect) is Some,
        geometry.screen_left + geometry.screen_width <= i32::MAX,
        geometry.screen_top + geometry.screen_height <= i32::MAX,
    ensures
        ({
            let area = geometry.screen_area(rect)->0;
            &&& geometry.screen_left <= area.x
            &&& area.x + area.width <= geometry.screen_left + geometry.screen_width
            &&& geometry.screen_top <= area.y
            &&& area.y + area.height <= geometry.screen_top + geometry.screen_height
        }),
{
    lemma_scaling_keeps_bounds(
        rect.x as int,
        geometry.screen_width as int,
        geometry.image_width as int,
    );
    lemma_scaling_keeps_bounds(
        rect.right_edge(),
        geometry.screen_width as int,
        geometry.image_width as int,
    );
    lemma_scaling_keeps_bounds(
        rect.y as int,
        geometry.screen_height as int,
        geometry.image_height as int,
    );
    lemma_scaling_keeps_bounds(
        rect.bottom_edge(),
        geometry.screen_height as int,
        geometry.image_height as int,
    );
}

/// Where the captured image has the size of the window on the screen, mapping a
/// rectangle of the image to the screen and back gives the rectangle again.
pub proof fn law_unscaled_mapping_round_trips(geometry: WindowGeometry, rect: PixelRect)
    requires
        geometry.image_width == geometry.screen_width,
        geometry.image_height == geometry.screen_height,
        geometry.screen_left + geometry.screen_width <= i32::MAX,
        geometry.screen_top + geometry.screen_height <= i32::MAX,
        rect.width > 0,
        rect.height > 0,
        rect.x + rect.width <= geometry.image_width,
        rect.y + rect.height <= geometry.image_height,
    ensures
        geometry.screen_area(rect) is Some,
        ({
            let area = geometry.screen_area(rect)->0;
            geometry.image_area(
                Edges {
                    left: area.x,
                    top: area.y,
                    right: (area.x + area.width) as i32,
                    bottom: (area.y + area.height) as i32,
                },
            ) == Some(rect)
        }),
{
    let w = geometry.image_width as int;
    let h = geometry.image_height as int;
    lemma_unscaled(rect.x as int, w);
    lemma_unscaled(rect.x + rect.width, w);
    lemma_unscaled(rect.y as int, h);
    lemma_unscaled(rect.y + rect.height, h);
}

proof fn lemma_unscaled(value: int, span: int)
    requires
        0 <= value <= span,
        span > 0,
    ensures
        scaled_down(value, span, span) == value,
        scaled_up(value, span, span) == value,
{
    assert(value * span >= 0) by (nonlinear_arith)
        requires
            value >= 0,
            span > 0,
    ;
    lemma_div_up(value * span, span);
    vstd::arithmetic::div_mod::lemma_div_multiples_vanish(value, span);
    vstd::arithmetic::div_mod::lemma_mod_multiples_basic(value, span);
    assert(value * span == span * value) by (nonlinear_arith);
}

/// A pixel belongs to a rectangle where its column and its row do; a rectangle fits an image
/// where every pixel of it does.
pub proof fn law_rectangles_are_their_pixels(rect: PixelRect, column: int, row: int, width: u32, height: u32)
    requires
        rect.x + rect.width <= u32::MAX,
        rect.y + rect.height <= u32::MAX,
    ensures
        rect.covers(column, row) <==> rect.x <= column < rect.x + rect.width && rect.y <= row
            < rect.y + rect.height,
        rect.right_edge() == rect.x + rect.width,
        rect.bottom_edge() == rect.y + rect.height,
        rect.fits(width, height) <==> rect.x + rect.width <= width && rect.y + rect.height
            <= height,
        rect.fits(width, height) && rect.covers(column, row) ==> 0 <= column < width && 0 <= row
            < height,
{
}

/// Part of a rectangle are the rectangles inside it, and nothing of them is outside.
pub proof fn law_inner_rectangles_are_covered(
    inner: PixelRect,
    outer: PixelRect,
    column: int,
    row: int,
)
    requires
        inner.lies_in(outer),
        outer.x + outer.width <= u32::MAX,
        outer.y + outer.height <= u32::MAX,
        inner.covers(column, row),
    ensures
        outer.covers(column, row),
{
}

/// A screen rectangle stands at the left upper edge and is as large as the edges are apart;
/// there is one exactly where both sides have a positive length that fits.
pub proof fn law_screen_rectangles_keep_their_edges(edges: Edges)
    ensures
        screen_rect_of(edges) is Some <==> edges.left < edges.right && edges.top < edges.bottom
            && edges.right - edges.left <= 0x7fff_ffff && edges.bottom - edges.top
            <= 0x7fff_ffff,
        screen_rect_of(edges) is Some ==> {
            let rect = screen_rect_of(edges)->0;
            &&& rect.x == edges.left
            &&& rect.y == edges.top
            &&& rect.x + rect.width == edges.right
            &&& rect.y + rect.height == edges.bottom
        },
{
}

/// The place of a window is known only while it exists, is not minimized, has edges with an
/// interior and an image with pixels; it is then that of its edges.
pub proof fn law_places_of_windows_are_reported(report: WindowReport, width: u32, height: u32)
    ensures
        ({
            let place = WindowGeometry::reported(report, width, height);
            &&& !report.exists || report.minimized ==> place == Err::<
                WindowGeometry,
                CaptureError,
            >(CaptureError::WindowUnconfirmed)
            &&& report.exists && !report.minimized && report.bounds is None ==> place == Err::<
                WindowGeometry,
                CaptureError,
            >(CaptureError::WindowPositionUnavailable)
            &&& report.exists && !report.minimized && report.bounds is Some ==> {
                let edges = report.bounds->0;
                &&& place is Ok <==> edges.left < edges.right && edges.top < edges.bottom && width
                    > 0 && height > 0
                &&& place is Err ==> place->Err_0 == CaptureError::WindowSizeInvalid
                &&& place is Ok ==> {
                    &&& place->Ok_0.screen_left == edges.left
                    &&& place->Ok_0.screen_top == edges.top
                    &&& place->Ok_0.screen_left + place->Ok_0.screen_width == edges.right
                    &&& place->Ok_0.screen_top + place->Ok_0.screen_height == edges.bottom
                    &&& place->Ok_0.image_width == width
                    &&& place->Ok_0.image_height == height
                }
            }
        }),
{
}

/// The image rectangle of a screen rectangle holds the whole part of it that lies on the
/// window, and no pixel more than rounding to whole pixels asks for.
pub proof fn law_image_rectangles_are_tight(geometry: WindowGeometry, rect: Edges)
    requires
        geometry.image_area(rect) is Some,
    ensures
        ({
            let area = geometry.image_area(rect)->0;
            let sw = geometry.screen_width as int;
            let sh = geometry.screen_height as int;
            let iw = geometry.image_width as int;
            let ih = geometry.image_height as int;
            let left = max_int(rect.left as int, geometry.screen_left as int)
                - geometry.screen_left;
            let top = max_int(rect.top as int, geometry.screen_top as int) - geometry.screen_top;
            let right = min_int(rect.right as int, geometry.screen_left + sw)
                - geometry.screen_left;
            let bottom = min_int(rect.bottom as int, geometry.screen_top + sh)
                - geometry.screen_top;
            &&& area.x * sw <= left * iw < (area.x + 1) * sw
            &&& area.y * sh <= top * ih < (area.y + 1) * sh
            &&& (area.x + area.width - 1) * sw < right * iw <= (area.x + area.width) * sw
            &&& (area.y + area.height - 1) * sh < bottom * ih <= (area.y + area.height) * sh
        }),
{
    let sw = geometry.screen_width as int;
    let sh = geometry.screen_height as int;
    let iw = geometry.image_width as int;
    let ih = geometry.image_height as int;
    let left = geometry.visible_left(rect) - geometry.screen_left;
    let top = geometry.visible_top(rect) - geometry.screen_top;
    let right = geometry.visible_right(rect) - geometry.screen_left;
    let bottom = geometry.visible_bottom(rect) - geometry.screen_top;
    law_scaling_keeps_the_ratio(left, iw, sw);
    law_scaling_keeps_the_ratio(right, iw, sw);
    law_scaling_keeps_the_ratio(top, ih, sh);
    law_scaling_keeps_the_ratio(bottom, ih, sh);
}

/// A screen rectangle has an image exactly where it shares an interior with the window.
pub proof fn law_images_are_of_what_is_on_the_window(geometry: WindowGeometry, rect: Edges)
    requires
        geometry.image_width > 0,
        geometry.image_height > 0,
    ensures
        geometry.image_area(rect) is Some <==> {
            &&& rect.left < rect.right && rect.top < rect.bottom
            &&& rect.left < geometry.screen_left + geometry.screen_width
            &&& geometry.screen_left < rect.right
            &&& rect.top < geometry.screen_top + geometry.screen_height
            &&& geometry.screen_top < rect.bottom
            &&& geometry.screen_width > 0
            &&& geometry.screen_height > 0
        },
{
    if geometry.overlaps(rect) {
        let sw = geometry.screen_width as int;
        let sh = geometry.screen_height as int;
        let iw = geometry.image_width as int;
        let ih = geometry.image_height as int;
        let left = geometry.visible_left(rect) - geometry.screen_left;
        let top = geometry.visible_top(rect) - geometry.screen_top;
        let right = geometry.visible_right(rect) - geometry.screen_left;
        let bottom = geometry.visible_bottom(rect) - geometry.screen_top;
        lemma_spans_stay_open(left, right, iw, sw);
        lemma_spans_stay_open(top, bottom, ih, sh);
    }
}

/// A span that holds something still does after it was scaled.
pub proof fn lemma_spans_stay_open(start: int, end: int, target: int, source: int)
    requires
        0 <= start < end <= source,
        target > 0,
    ensures
        scaled_down(start, target, source) < scaled_up(end, target, source),
{
    law_scaling_keeps_the_ratio(start, target, source);
    law_scaling_keeps_the_ratio(end, target, source);
    let low = scaled_down(start, target, source);
    let high = scaled_up(end, target, source);
    assert(start * target < end * target) by (nonlinear_arith)
        requires
            start < end,
            target > 0,
    ;
    assert(low < high) by (nonlinear_arith)
        requires
            low * source <= start * target,
            start * target < end * target,
            end * target <= high * source,
            source > 0,
    ;
}

/// A rectangle that lies wholly on the window is mapped strictly as it is mapped at all; one
/// of which more than 2 % lies off the window is not mapped strictly.
pub proof fn law_strict_mapping_refuses_what_sticks_out(geometry: WindowGeometry, rect: Edges)
    ensures
        rect.left < rect.right && rect.top < rect.bottom && geometry.screen_left <= rect.left
            && rect.right <= geometry.screen_left + geometry.screen_width && geometry.screen_top
            <= rect.top && rect.bottom <= geometry.screen_top + geometry.screen_height
            ==> geometry.strict_image_area(rect) == geometry.image_area(rect),
        geometry.strict_image_area(rect) is Some ==> geometry.strict_image_area(rect)
            == geometry.image_area(rect),
        ({
            let whole = (rect.right - rect.left) * (rect.bottom - rect.top);
            let visible = (min_int(
                rect.right as int,
                geometry.screen_left + geometry.screen_width,
            ) - max_int(rect.left as int, geometry.screen_left as int)) * (min_int(
                rect.bottom as int,
                geometry.screen_top + geometry.screen_height,
            ) - max_int(rect.top as int, geometry.screen_top as int));
            &&& visible * 100 < whole * 98 <= u64::MAX ==> geometry.strict_image_area(rect)
                is None
            &&& visible * 100 >= whole * 98 && rect.left < rect.right && rect.top < rect.bottom
                ==> geometry.strict_image_area(rect) == geometry.image_area(rect)
        }),
{
    let whole = (rect.right - rect.left) * (rect.bottom - rect.top);
    if rect.left < rect.right && rect.top < rect.bottom {
        assert(whole > 0) by (nonlinear_arith)
            requires
                rect.left < rect.right,
                rect.top < rect.bottom,
                whole == (rect.right - rect.left) * (rect.bottom - rect.top),
        ;
    }
}

/// The screen rectangle of an image rectangle holds all of it, and no pixel more than
/// rounding to whole pixels asks for.
pub proof fn law_screen_rectangles_are_tight(geometry: WindowGeometry, rect: PixelRect)
    requires
        geometry.screen_area(rect) is Some,
        geometry.screen_left + geometry.screen_width <= i32::MAX,
        geometry.screen_top + geometry.screen_height <= i32::MAX,
        rect.x + rect.width <= u32::MAX,
        rect.y + rect.height <= u32::MAX,
    ensures
        ({
            let area = geometry.screen_area(rect)->0;
            let sw = geometry.screen_width as int;
            let sh = geometry.screen_height as int;
            let iw = geometry.image_width as int;
            let ih = geometry.image_height as int;
            let x = area.x - geometry.screen_left;
            let y = area.y - geometry.screen_top;
            &&& rect.width > 0 && rect.height > 0
            &&& rect.x + rect.width <= iw && rect.y + rect.height <= ih
            &&& x * iw <= rect.x * sw < (x + 1) * iw
            &&& y * ih <= rect.y * sh < (y + 1) * ih
            &&& (x + area.width - 1) * iw < (rect.x + rect.width) * sw <= (x + area.width) * iw
            &&& (y + area.height - 1) * ih < (rect.y + rect.height) * sh <= (y + area.height)
                * ih
        }),
{
    law_screen_area_lies_on_the_window(geometry, rect);
    let sw = geometry.screen_width as int;
    let sh = geometry.screen_height as int;
    let iw = geometry.image_width as int;
    let ih = geometry.image_height as int;
    law_scaling_keeps_the_ratio(rect.x as int, sw, iw);
    law_scaling_keeps_the_ratio(rect.x + rect.width, sw, iw);
    law_scaling_keeps_the_ratio(rect.y as int, sh, ih);
    law_scaling_keeps_the_ratio(rect.y + rect.height, sh, ih);
}

/// The window is touched inside, in the middle of its width and a little below the middle of
/// its height.
pub proof fn law_windows_are_touched_inside(geometry: WindowGeometry)
    requires
        geometry.screen_width > 0,
        geometry.screen_height > 0,
        geometry.screen_left + geometry.screen_width <= i32::MAX,
        geometry.screen_top + geometry.screen_height <= i32::MAX,
    ensures
        ({
            let x = geometry.probe().x - geometry.screen_left;
            let y = geometry.probe().y - geometry.screen_top;
            &&& 0 <= x < geometry.screen_width
            &&& 0 <= y < geometry.screen_height
            &&& -1 <= 2 * x - (geometry.screen_width - 1) <= 1
            &&& -10 <= 20 * y - 11 * (geometry.screen_height - 1) <= 10
        }),
{
}

} // verus!
