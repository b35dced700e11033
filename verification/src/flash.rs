//! The flash that confirms a capture: where it stands, how it fades, and how it is
//! suspended.

use vstd::prelude::*;

use crate::geometry::{
    lemma_spans_stay_open, screen_rect_from_rect, screen_rect_of, Edges, PixelRect, ScreenRect,
};
use crate::numeric::{
    law_scaling_keeps_the_ratio, lemma_scaling_keeps_bounds, scale_ceil, scale_floor, scaled_down,
    scaled_up, CLOCK_LIMIT,
};

verus! {

/// Time between two steps of the fade, in nanoseconds.
pub const FLASH_STEP: u64 = 28_000_000;

/// How long to wait until the flash is suspended, in nanoseconds.
pub const SUSPEND_TIMEOUT: u64 = 500_000_000;

/// Number of steps of the fade.
pub const FLASH_STEPS: usize = 8;

/// A flash to be shown.
#[derive(Clone, Copy, Debug, PartialEq, Eq, Structural)]
pub struct FlashRequest {
    pub rect: ScreenRect,
    pub target_window_id: Option<u32>,
    pub display_affinity: u32,
}

/// What is shared between those who ask for flashes and the worker that shows them.
#[derive(Clone, Copy, Debug, PartialEq, Eq, Structural)]
pub struct FlashState {
    pub pending: Option<FlashRequest>,
    pub suspended: bool,
    pub suspend_ack: bool,
}

/// What the worker does next.
#[derive(Clone, Copy, Debug, PartialEq, Eq, Structural)]
pub enum FlashWork {
    /// Remove the flash on the screen, tell that it is gone, and wait.
    Suspend,
    /// Remove the flash on the screen and show this one.
    Show(FlashRequest),
    /// Go on with the flash on the screen.
    Animate,
    Wait,
}

/// What waiting for the suspension has come to.
#[derive(Clone, Copy, Debug, PartialEq, Eq, Structural)]
pub enum SuspendStep {
    Suspended,
    TimedOut,
    /// Wait for the worker, at most this long.
    Wait(u64),
}

impl FlashState {
    pub fn new() -> (result: Self)
        ensures
            result == (FlashState { pending: None, suspended: false, suspend_ack: false }),
    {
        FlashState { pending: None, suspended: false, suspend_ack: false }
    }

    /// Asks for a flash. An empty one, and one while flashes are suspended, is dropped. A
    /// newer one replaces one that is not shown yet. Returns whether the worker has to be
    /// woken.
    pub fn show(&mut self, request: FlashRequest) -> (result: bool)
        ensures
            result == (request.rect.width > 0 && request.rect.height > 0 && !old(self).suspended),
            *final(self) == if result {
                FlashState { pending: Some(request), ..*old(self) }
            } else {
                *old(self)
            },
    {
        if request.rect.width == 0 || request.rect.height == 0 || self.suspended {
            return false;
        }
        self.pending = Some(request);
        true
    }

    /// Asks the worker to suspend flashes. What was not shown yet is dropped.
    pub fn suspend(&mut self)
        ensures
            *final(self) == (FlashState { pending: None, suspended: true, suspend_ack: false }),
    {
        self.suspended = true;
        self.suspend_ack = false;
        self.pending = None;
    }

    /// Looks whether flashes are suspended. Where the deadline has passed without that,
    /// the request to suspend is withdrawn.
    pub fn poll_suspension(&mut self, now: u64, deadline: u64) -> (result: SuspendStep)
        ensures
            result == if old(self).suspend_ack {
                SuspendStep::Suspended
            } else if now >= deadline {
                SuspendStep::TimedOut
            } else {
                SuspendStep::Wait((deadline - now) as u64)
            },
            *final(self) == if result == SuspendStep::TimedOut {
                FlashState { suspended: false, ..*old(self) }
            } else {
                *old(self)
            },
    {
        if self.suspend_ack {
            return SuspendStep::Suspended;
        }
        if now >= deadline {
            self.suspended = false;
            return SuspendStep::TimedOut;
        }
        SuspendStep::Wait(deadline - now)
    }

    /// Allows flashes again.
    pub fn resume(&mut self)
        ensures
            *final(self) == (FlashState {
                suspended: false,
                suspend_ack: false,
                ..*old(self)
            }),
    {
        self.suspended = false;
        self.suspend_ack = false;
    }

    /// Decides the worker's next step. A suspension comes before everything and is
    /// acknowledged every time the worker looks.
    pub fn work(&mut self, on_screen: bool) -> (result: FlashWork)
        ensures
            result == if old(self).suspended {
                FlashWork::Suspend
            } else {
                match old(self).pending {
                    Some(request) => FlashWork::Show(request),
                    None => if on_screen {
                        FlashWork::Animate
                    } else {
                        FlashWork::Wait
                    },
                }
            },
            *final(self) == if old(self).suspended {
                FlashState { suspend_ack: true, ..*old(self) }
            } else {
                FlashState { pending: None, ..*old(self) }
            },
    {
        if self.suspended {
            self.suspend_ack = true;
            return FlashWork::Suspend;
        }
        match self.pending {
            Some(request) => {
                self.pending = None;
                FlashWork::Show(request)
            },
            None => if on_screen {
                FlashWork::Animate
            } else {
                FlashWork::Wait
            },
        }
    }

    /// Whether the worker pauses before the next step of the fade.
    pub fn pauses(&self) -> (result: bool)
        ensures
            result == (self.pending is None && !self.suspended),
    {
        self.pending.is_none() && !self.suspended
    }
}

/// When waiting for the suspension ends.
pub fn suspend_deadline(now: u64) -> (result: u64)
    requires
        now <= CLOCK_LIMIT,
    ensures
        result == now + SUSPEND_TIMEOUT,
{
    now + SUSPEND_TIMEOUT
}

/// Opacity of the flash at each step of the fade.
pub open spec fn flash_alpha(step: int) -> u8 {
    if step <= 1 {
        210
    } else if step == 2 {
        176
    } else if step == 3 {
        136
    } else if step == 4 {
        94
    } else if step == 5 {
        56
    } else if step == 6 {
        24
    } else {
        0
    }
}

pub fn alpha_at(step: usize) -> (result: u8)
    ensures
        result == flash_alpha(step as int),
{
    match step {
        0 | 1 => 210,
        2 => 176,
        3 => 136,
        4 => 94,
        5 => 56,
        6 => 24,
        _ => 0,
    }
}

/// What the window system says of the window that a flash covers.
#[derive(Clone, Copy, Debug, PartialEq, Eq, Structural)]
pub struct FlashTarget {
    pub exists: bool,
    pub visible: bool,
    pub minimized: bool,
}

/// Whether the window that a flash covers is on the screen. A flash that covers no window
/// always may be shown.
pub fn flash_target_is_visible(target: Option<FlashTarget>) -> (result: bool)
    ensures
        result == match target {
            Some(target) => target.exists && target.visible && !target.minimized,
            None => true,
        },
{
    match target {
        Some(target) => target.exists && target.visible && !target.minimized,
        None => true,
    }
}

/// A flash on the screen.
#[derive(Clone, Copy, Debug, PartialEq, Eq, Structural)]
pub struct FlashFade {
    pub next_alpha: usize,
}

impl FlashFade {
    /// A flash that has just been shown with its first opacity.
    pub fn new() -> (result: Self)
        ensures
            result.next_alpha == 1,
    {
        FlashFade { next_alpha: 1 }
    }

    /// The next opacity, or `None` where the fade is over or the covered window is gone.
    pub fn advance(&mut self, target_visible: bool) -> (result: Option<u8>)
        ensures
            ({
                let step = old(self).next_alpha;
                if step < FLASH_STEPS && target_visible {
                    result == Some(flash_alpha(step as int)) && final(self).next_alpha == step + 1
                } else {
                    result is None && *final(self) == *old(self)
                }
            }),
    {
        if self.next_alpha >= FLASH_STEPS || !target_visible {
            return None;
        }
        let alpha: u8 = alpha_at(self.next_alpha);
        self.next_alpha += 1;
        Some(alpha)
    }
}

/// The flash never gets brighter again, and is invisible at its last step.
pub proof fn law_flash_fades_out(step: int)
    requires
        0 <= step < FLASH_STEPS - 1,
    ensures
        flash_alpha(step + 1) <= flash_alpha(step),
        flash_alpha(FLASH_STEPS - 1) == 0,
{
}

/// Where the content of a window stands on the screen. `None` where the window's edges
/// could not be read or nothing of the content can be seen.
pub open spec fn content_on_screen(
    window: Option<Edges>,
    content: PixelRect,
    source_width: u32,
    source_height: u32,
) -> Option<ScreenRect> {
    match window {
        None => None,
        Some(window) => match screen_rect_of(window) {
            None => None,
            Some(area) => {
                let left = scaled_down(content.x as int, area.width as int, source_width as int);
                let top = scaled_down(content.y as int, area.height as int, source_height as int);
                let right = scaled_up(
                    content.right_edge(),
                    area.width as int,
                    source_width as int,
                );
                let bottom = scaled_up(
                    content.bottom_edge(),
                    area.height as int,
                    source_height as int,
                );
                if source_width > 0 && source_height > 0 && right > left && bottom > top {
                    Some(
                        ScreenRect {
                            x: (area.x + left) as i32,
                            y: (area.y + top) as i32,
                            width: (right - left) as u32,
                            height: (bottom - top) as u32,
                        },
                    )
                } else {
                    None
                }
            },
        },
    }
}

/// Finds the content of a window on the screen.
pub fn current_screen_rect(
    window: Option<Edges>,
    content_rect: PixelRect,
    source_width: u32,
    source_height: u32,
) -> (result: Option<ScreenRect>)
    ensures
        result == content_on_screen(window, content_rect, source_width, source_height),
{
    if source_width == 0 || source_height == 0 {
        return None;
    }
    let window = match window {
        Some(window) => window,
        None => {
            return None;
        },
    };
    let area = match screen_rect_from_rect(window) {
        Some(area) => area,
        None => {
            return None;
        },
    };
    proof {
        lemma_product(content_rect.x as int, area.width as int);
        lemma_product(content_rect.y as int, area.height as int);
        lemma_product(content_rect.right_edge(), area.width as int);
        lemma_product(content_rect.bottom_edge(), area.height as int);
        lemma_scaling_keeps_bounds(content_rect.x as int, area.width as int, source_width as int);
        lemma_scaling_keeps_bounds(content_rect.y as int, area.height as int, source_height as int);
    }
    let left: u32 = scale_floor(content_rect.x as u64, area.width, source_width);
    let top: u32 = scale_floor(content_rect.y as u64, area.height, source_height);
    let right: u32 = scale_ceil(content_rect.right() as u64, area.width, source_width);
    let bottom: u32 = scale_ceil(content_rect.bottom() as u64, area.height, source_height);
    if right > left && bottom > top {
        Some(
            ScreenRect {
                x: (area.x as i64 + left as i64) as i32,
                y: (area.y as i64 + top as i64) as i32,
                width: right - left,
                height: bottom - top,
            },
        )
    } else {
        None
    }
}

proof fn lemma_product(left: int, right: int)
    requires
        0 <= left <= u32::MAX,
        0 <= right <= u32::MAX,
    ensures
        0 <= left * right <= u64::MAX,
{
    assert(0 <= left * right <= u32::MAX * u32::MAX) by (nonlinear_arith)
        requires
            0 <= left <= u32::MAX,
            0 <= right <= u32::MAX,
    ;
}

/// The content of a window never stands outside the window.
pub proof fn law_content_stays_inside_the_window(
    window: Edges,
    content: PixelRect,
    source_width: u32,
    source_height: u32,
)
    requires
        content_on_screen(Some(window), content, source_width, source_height) is Some,
    ensures
        ({
            let area = content_on_screen(Some(window), content, source_width, source_height)->0;
            &&& window.left <= area.x
            &&& area.x + area.width <= window.right
            &&& window.top <= area.y
            &&& area.y + area.height <= window.bottom
        }),
{
    let area = screen_rect_of(window)->0;
    lemma_scaling_keeps_bounds(content.x as int, area.width as int, source_width as int);
    lemma_scaling_keeps_bounds(content.right_edge(), area.width as int, source_width as int);
    lemma_scaling_keeps_bounds(content.y as int, area.height as int, source_height as int);
    lemma_scaling_keeps_bounds(content.bottom_edge(), area.height as int, source_height as int);
}

/// The flash fades in seven steps from 210 to nothing, and shows nothing before or after.
pub proof fn law_the_flash_starts_bright(step: int)
    ensures
        flash_alpha(0) == 210,
        step >= 7 ==> flash_alpha(step) == 0,
        step < 7 ==> flash_alpha(step) > 0,
        1 <= step < 7 ==> flash_alpha(step + 1) < flash_alpha(step),
{
}

/// The content is found on the screen where the window's edges are known: at the place in
/// the window that it has in the frame, with its edges moved outwards to whole pixels.
pub proof fn law_content_keeps_its_place_in_the_window(
    window: Edges,
    content: PixelRect,
    source_width: u32,
    source_height: u32,
)
    requires
        content.x + content.width <= source_width,
        content.y + content.height <= source_height,
        content.width > 0,
        content.height > 0,
    ensures
        content_on_screen(None, content, source_width, source_height) is None,
        content_on_screen(Some(window), content, source_width, source_height) is Some
            <==> screen_rect_of(window) is Some,
        content_on_screen(Some(window), content, source_width, source_height) is Some ==> {
            let found = content_on_screen(Some(window), content, source_width, source_height)->0;
            let w = window.right - window.left;
            let h = window.bottom - window.top;
            let x = found.x - window.left;
            let y = found.y - window.top;
            &&& x * source_width <= content.x * w < (x + 1) * source_width
            &&& y * source_height <= content.y * h < (y + 1) * source_height
            &&& (x + found.width - 1) * source_width < (content.x + content.width) * w <= (x
                + found.width) * source_width
            &&& (y + found.height - 1) * source_height < (content.y + content.height) * h <= (y
                + found.height) * source_height
        },
{
    if screen_rect_of(window) is Some {
        let w = window.right - window.left;
        let h = window.bottom - window.top;
        let sw = source_width as int;
        let sh = source_height as int;
        law_scaling_keeps_the_ratio(content.x as int, w, sw);
        law_scaling_keeps_the_ratio(content.x + content.width, w, sw);
        law_scaling_keeps_the_ratio(content.y as int, h, sh);
        law_scaling_keeps_the_ratio(content.y + content.height, h, sh);
        lemma_spans_stay_open(
            content.x as int,
            content.x + content.width,
            w,
            sw,
        );
        lemma_spans_stay_open(
            content.y as int,
            content.y + content.height,
            h,
            sh,
        );
        lemma_found_inside(window, content, source_width, source_height);
    }
}

proof fn lemma_found_inside(
    window: Edges,
    content: PixelRect,
    source_width: u32,
    source_height: u32,
)
    ensures
        content_on_screen(Some(window), content, source_width, source_height) is Some ==> {
            let found = content_on_screen(Some(window), content, source_width, source_height)->0;
            window.left <= found.x && window.top <= found.y
        },
{
    if content_on_screen(Some(window), content, source_width, source_height) is Some {
        law_content_stays_inside_the_window(window, content, source_width, source_height);
    }
}

} // verus!
