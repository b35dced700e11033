//! Colours of the bar, taken from the title bar that it stands on.

use vstd::prelude::*;

use crate::bar::feedback::CaptureState;
use crate::numeric::min_int;
use crate::single::{
    fraction, from_int, law_at_least_both_ways_is_equal, law_held_numbers_are_in_range,
    law_order_is_total, law_order_is_transitive, law_small_integers_add,
    law_small_integers_are_in_order, law_small_integers_are_kept, law_small_integers_multiply,
    lemma_adding_nothing, lemma_canonical_is_kept, lemma_nothing_is_held, ratio, whole, zero,
    Single,
};

verus! {

/// A channel part of the way between two others, rounded.
pub open spec fn mixed_channel(base: u32, target: u32, part: Single) -> u32 {
    min_int(
        whole(base as nat).plus(
            whole(target as nat).minus(whole(base as nat)).times(part),
        ).nearest_natural() as int,
        u32::MAX as int,
    ) as u32
}

/// Red, green and blue of a colour 0xRRGGBB; anything above is ignored.
pub open spec fn red(color: u32) -> u32 {
    (color >> 16) & 0xff
}

pub open spec fn green(color: u32) -> u32 {
    (color >> 8) & 0xff
}

pub open spec fn blue(color: u32) -> u32 {
    color & 0xff
}

/// A colour between two others: the base at zero, the target at one.
pub open spec fn mixed(base: u32, target: u32, amount: Single) -> u32 {
    let part = amount.held(zero(), whole(1));
    (mixed_channel(red(base), red(target), part) << 16) | (mixed_channel(
        green(base),
        green(target),
        part,
    ) << 8) | mixed_channel(blue(base), blue(target), part)
}

fn mix_channel(base: u32, target: u32, part: Single) -> (result: u32)
    ensures
        result == mixed_channel(base, target, part),
{
    from_int(base as u64).add(
        from_int(target as u64).sub(from_int(base as u64)).mul(part),
    ).to_nearest()
}

/// Mixes two colours.
pub fn mix_rgb(base: u32, target: u32, amount: Single) -> (result: u32)
    ensures
        result == mixed(base, target, amount),
{
    let part = amount.clamp(from_int(0), from_int(1));
    let r: u32 = mix_channel((base >> 16) & 0xff, (target >> 16) & 0xff, part);
    let g: u32 = mix_channel((base >> 8) & 0xff, (target >> 8) & 0xff, part);
    let b: u32 = mix_channel(base & 0xff, target & 0xff, part);
    (r << 16) | (g << 8) | b
}

/// The colours on one surface. They are written 0xRRGGBB, the backplate 0xRRGGBBAA.
#[derive(Clone, Copy, Debug, PartialEq, Eq, Structural)]
pub struct TitlebarPalette {
    pub surface: u32,
    pub primary_text: u32,
    pub secondary_text: u32,
    pub idle_active_backplate: u32,
    pub control_hover: u32,
    pub quit_hover: u32,
    pub control_icon: u32,
    pub disabled_control: u32,
    pub disabled_icon: u32,
    pub save_hover: u32,
    pub save_icon: u32,
    pub danger_icon: u32,
    pub is_light: bool,
}

impl TitlebarPalette {
    /// The colours on a surface that counts as light or dark.
    pub open spec fn on(surface: u32, is_light: bool) -> TitlebarPalette {
        if is_light {
            TitlebarPalette {
                surface,
                primary_text: 0x202124,
                secondary_text: 0x5f6368,
                idle_active_backplate: 0x0000001f,
                control_hover: mixed(surface, 0x000000, fraction(16, 100)),
                quit_hover: mixed(surface, 0xc42b1c, fraction(14, 100)),
                control_icon: 0x4f5058,
                disabled_control: mixed(surface, 0x000000, fraction(12, 100)),
                disabled_icon: 0x66666f,
                save_hover: mixed(surface, 0x2e7d4a, fraction(32, 100)),
                save_icon: 0x225c37,
                danger_icon: 0xb4232c,
                is_light,
            }
        } else {
            TitlebarPalette {
                surface,
                primary_text: 0xf5f5f6,
                secondary_text: 0x9b9ba2,
                idle_active_backplate: 0xffffff24,
                control_hover: mixed(surface, 0xffffff, fraction(16, 100)),
                quit_hover: mixed(surface, 0xd1444c, fraction(22, 100)),
                control_icon: 0xc8c8cd,
                disabled_control: mixed(surface, 0xffffff, fraction(14, 100)),
                disabled_icon: 0xa7a7ac,
                save_hover: mixed(surface, 0x3a9b60, fraction(55, 100)),
                save_icon: 0x69d894,
                danger_icon: 0xf07178,
                is_light,
            }
        }
    }

    /// Chooses the colours for a surface. Whether it counts as light is the caller's
    /// judgement of its luminance.
    pub fn for_surface(surface: u32, is_light: bool) -> (result: Self)
        ensures
            result == Self::on(surface, is_light),
    {
        if is_light {
            TitlebarPalette {
                surface,
                primary_text: 0x202124,
                secondary_text: 0x5f6368,
                idle_active_backplate: 0x0000001f,
                control_hover: mix_rgb(surface, 0x000000, ratio(16, 100)),
                quit_hover: mix_rgb(surface, 0xc42b1c, ratio(14, 100)),
                control_icon: 0x4f5058,
                disabled_control: mix_rgb(surface, 0x000000, ratio(12, 100)),
                disabled_icon: 0x66666f,
                save_hover: mix_rgb(surface, 0x2e7d4a, ratio(32, 100)),
                save_icon: 0x225c37,
                danger_icon: 0xb4232c,
                is_light,
            }
        } else {
            TitlebarPalette {
                surface,
                primary_text: 0xf5f5f6,
                secondary_text: 0x9b9ba2,
                idle_active_backplate: 0xffffff24,
                control_hover: mix_rgb(surface, 0xffffff, ratio(16, 100)),
                quit_hover: mix_rgb(surface, 0xd1444c, ratio(22, 100)),
                control_icon: 0xc8c8cd,
                disabled_control: mix_rgb(surface, 0xffffff, ratio(14, 100)),
                disabled_icon: 0xa7a7ac,
                save_hover: mix_rgb(surface, 0x3a9b60, ratio(55, 100)),
                save_icon: 0x69d894,
                danger_icon: 0xf07178,
                is_light,
            }
        }
    }

    /// Colour of the cancel button under the pointer.
    pub fn cancel_hover(self) -> (result: u32)
        ensures
            result == mixed(self.surface, self.primary_text, fraction(24, 100)),
    {
        mix_rgb(self.surface, self.primary_text, ratio(24, 100))
    }
}

/// Colour of the camera while the bar is collapsed.
pub fn idle_camera_color(palette: TitlebarPalette, can_capture: bool) -> (result: u32)
    ensures
        result == if can_capture {
            palette.primary_text
        } else {
            palette.secondary_text
        },
{
    if can_capture {
        palette.primary_text
    } else {
        palette.secondary_text
    }
}

/// Colour of the capture icon on the collapsed bar, and whether it turns white while the
/// bar expands: only feedback does.
pub fn capture_icon_base(state: CaptureState, palette: TitlebarPalette, can_capture: bool)
    -> (result: (u32, bool))
    ensures
        result == match state {
            CaptureState::Copied { until } => (
                if palette.is_light {
                    0x277a46u32
                } else {
                    0x55c27cu32
                },
                true,
            ),
            CaptureState::Error => (palette.danger_icon, true),
            _ => (
                if can_capture {
                    palette.primary_text
                } else {
                    palette.secondary_text
                },
                false,
            ),
        },
{
    match state {
        CaptureState::Copied { until: _ } => if palette.is_light {
            (0x277a46, true)
        } else {
            (0x55c27c, true)
        },
        CaptureState::Error => (palette.danger_icon, true),
        _ => (idle_camera_color(palette, can_capture), false),
    }
}

/// Background of the capture button.
pub open spec fn capture_plate(state: CaptureState, palette: TitlebarPalette) -> u32 {
    match state {
        CaptureState::NoTarget => palette.disabled_control,
        CaptureState::WaitingForShare => palette.disabled_control,
        CaptureState::Capturing => 0xc83f47,
        CaptureState::Error => 0xd1444c,
        CaptureState::Idle => 0xe5484d,
        CaptureState::Copied { until } => 0x277a46,
    }
}

pub fn capture_background(state: CaptureState, palette: TitlebarPalette) -> (result: u32)
    ensures
        result == capture_plate(state, palette),
{
    match state {
        CaptureState::NoTarget | CaptureState::WaitingForShare => palette.disabled_control,
        CaptureState::Capturing => 0xc83f47,
        CaptureState::Error => 0xd1444c,
        CaptureState::Idle => 0xe5484d,
        CaptureState::Copied { until: _ } => 0x277a46,
    }
}

/// Mixing nothing in keeps the colour.
pub proof fn law_mixing_nothing_keeps_the_colour(base: u32, target: u32, amount: Single)
    requires
        base <= 0xff_ffff,
        zero().at_least(amount),
    ensures
        mixed(base, target, amount) == base,
{
    lemma_nothing_is_held(amount);
    let part = amount.held(zero(), whole(1));
    let r = red(base);
    let g = green(base);
    let b = blue(base);
    assert(r <= 255 && g <= 255 && b <= 255) by (bit_vector)
        requires
            r == (base >> 16u32) & 0xff,
            g == (base >> 8u32) & 0xff,
            b == base & 0xff,
    ;
    lemma_adding_nothing(r as nat, red(target) as nat, part);
    lemma_adding_nothing(g as nat, green(target) as nat, part);
    lemma_adding_nothing(b as nat, blue(target) as nat, part);
    assert((r << 16u32) | (g << 8u32) | b == base) by (bit_vector)
        requires
            base <= 0xff_ffff,
            r == (base >> 16u32) & 0xff,
            g == (base >> 8u32) & 0xff,
            b == base & 0xff,
    ;
}

/// Colour of the capture icon: on the collapsed bar that of its state, which turns white
/// while the bar expands where it is feedback.
pub open spec fn icon_color(
    state: CaptureState,
    palette: TitlebarPalette,
    can_capture: bool,
    expanded: Single,
) -> u32 {
    match state {
        CaptureState::Copied { until } => mixed(
            if palette.is_light {
                0x277a46
            } else {
                0x55c27c
            },
            0xffffff,
            expanded,
        ),
        CaptureState::Error => mixed(palette.danger_icon, 0xffffff, expanded),
        _ => if can_capture {
            palette.primary_text
        } else {
            palette.secondary_text
        },
    }
}

pub fn capture_icon_color(
    state: CaptureState,
    palette: TitlebarPalette,
    can_capture: bool,
    expanded: Single,
) -> (result: u32)
    ensures
        result == icon_color(state, palette, can_capture, expanded),
{
    let (color, turns_white): (u32, bool) = capture_icon_base(state, palette, can_capture);
    if turns_white {
        mix_rgb(color, 0xffffff, expanded)
    } else {
        color
    }
}

/// Mixing all of a colour in gives that colour, whatever there was before.
pub proof fn law_mixing_all_gives_the_colour(base: u32, target: u32, amount: Single)
    requires
        target <= 0xff_ffff,
        amount.at_least(whole(1)),
        amount.is_canonical(),
    ensures
        mixed(base, target, amount) == target,
{
    lemma_all_is_held(amount);
    let part = amount.held(zero(), whole(1));
    let r = red(target);
    let g = green(target);
    let b = blue(target);
    assert(r <= 255 && g <= 255 && b <= 255) by (bit_vector)
        requires
            r == (target >> 16u32) & 0xff,
            g == (target >> 8u32) & 0xff,
            b == target & 0xff,
    ;
    let x = red(base);
    let y = green(base);
    let z = blue(base);
    assert(x <= 255 && y <= 255 && z <= 255) by (bit_vector)
        requires
            x == (base >> 16u32) & 0xff,
            y == (base >> 8u32) & 0xff,
            z == base & 0xff,
    ;
    lemma_all_of_a_channel(x, r);
    lemma_all_of_a_channel(y, g);
    lemma_all_of_a_channel(z, b);
    assert((r << 16u32) | (g << 8u32) | b == target) by (bit_vector)
        requires
            target <= 0xff_ffff,
            r == (target >> 16u32) & 0xff,
            g == (target >> 8u32) & 0xff,
            b == target & 0xff,
    ;
}

proof fn lemma_all_is_held(amount: Single)
    requires
        amount.at_least(whole(1)),
        amount.is_canonical(),
    ensures
        amount.held(zero(), whole(1)) == whole(1),
{
    law_small_integers_are_kept(0);
    law_small_integers_are_kept(1);
    law_small_integers_are_in_order(1, 0);
    law_order_is_transitive(amount, whole(1), zero());
    lemma_canonical_is_kept(amount);
    law_order_is_total(amount, whole(1));
    law_held_numbers_are_in_range(amount, zero(), whole(1));
    law_small_integers_are_in_order(1, 1);
    if !whole(1).less(amount) {
        law_at_least_both_ways_is_equal(amount, whole(1));
    }
}

proof fn lemma_all_of_a_channel(base: u32, target: u32)
    requires
        base <= 255,
        target <= 255,
    ensures
        mixed_channel(base, target, whole(1)) == target,
{
    let b = base as int;
    let t = target as int;
    law_small_integers_are_kept(b);
    law_small_integers_are_kept(t);
    law_small_integers_are_kept(1);
    law_small_integers_add(t, -b);
    assert((t - b) * 1 == t - b);
    law_small_integers_multiply(t - b, 1);
    law_small_integers_add(b, t - b);
}

/// The colours suit the surface: text and icons are darker on a light surface than on a dark
/// one, text that matters less stands closer to the surface, and the surface itself is kept.
pub proof fn law_colours_suit_the_surface(surface: u32, other: u32)
    ensures
        ({
            let light = TitlebarPalette::on(surface, true);
            let dark = TitlebarPalette::on(other, false);
            &&& light.is_light && !dark.is_light
            &&& light.surface == surface && dark.surface == other
            &&& light.primary_text < light.secondary_text < dark.secondary_text
                < dark.primary_text
            &&& light.control_icon < dark.control_icon
            &&& light.disabled_icon < dark.disabled_icon
            &&& light.save_icon < dark.save_icon
            &&& light.danger_icon < dark.danger_icon
            &&& light.control_hover == mixed(surface, 0x000000, fraction(16, 100))
            &&& dark.control_hover == mixed(other, 0xffffff, fraction(16, 100))
            &&& light.disabled_control == mixed(surface, 0x000000, fraction(12, 100))
            &&& dark.disabled_control == mixed(other, 0xffffff, fraction(14, 100))
        }),
{
}

/// The capture button has a plate of its own colour exactly where a capture is possible or
/// was made; otherwise it looks disabled. Running, failed and done differ.
pub proof fn law_plates_tell_the_states_apart(
    state: CaptureState,
    palette: TitlebarPalette,
    other: TitlebarPalette,
)
    ensures
        state is NoTarget || state is WaitingForShare ==> capture_plate(state, palette)
            == palette.disabled_control,
        !(state is NoTarget) && !(state is WaitingForShare) ==> capture_plate(state, palette)
            == capture_plate(state, other),
        state is Copied ==> capture_plate(state, palette) == state.dot(true),
        capture_plate(CaptureState::Idle, palette) != capture_plate(
            CaptureState::Capturing,
            palette,
        ),
        capture_plate(CaptureState::Idle, palette) != capture_plate(CaptureState::Error, palette),
        capture_plate(CaptureState::Capturing, palette) != capture_plate(
            CaptureState::Error,
            palette,
        ),
{
}

/// Once the bar is open, feedback is white; everything else keeps the colour that it has on
/// the closed bar, which is that of the text.
pub proof fn law_feedback_turns_white(
    state: CaptureState,
    palette: TitlebarPalette,
    can_capture: bool,
    expanded: Single,
    closed: Single,
)
    requires
        palette.danger_icon <= 0xff_ffff,
        expanded.is_canonical(),
        expanded.at_least(whole(1)),
        zero().at_least(closed),
    ensures
        state is Copied || state is Error ==> icon_color(state, palette, can_capture, expanded)
            == 0xffffff,
        state is Error ==> icon_color(state, palette, can_capture, closed) == palette.danger_icon,
        state is Copied ==> icon_color(state, palette, can_capture, closed) == state.dot(
            palette.is_light,
        ),
        !(state is Copied) && !(state is Error) ==> icon_color(
            state,
            palette,
            can_capture,
            expanded,
        ) == icon_color(state, palette, can_capture, closed),
        !(state is Copied) && !(state is Error) && can_capture ==> icon_color(
            state,
            palette,
            can_capture,
            closed,
        ) == palette.primary_text,
        !(state is Copied) && !(state is Error) && !can_capture ==> icon_color(
            state,
            palette,
            can_capture,
            closed,
        ) == palette.secondary_text,
{
    law_mixing_all_gives_the_colour(0x277a46, 0xffffff, expanded);
    law_mixing_all_gives_the_colour(0x55c27c, 0xffffff, expanded);
    law_mixing_all_gives_the_colour(palette.danger_icon, 0xffffff, expanded);
    law_mixing_nothing_keeps_the_colour(0x277a46, 0xffffff, closed);
    law_mixing_nothing_keeps_the_colour(0x55c27c, 0xffffff, closed);
    law_mixing_nothing_keeps_the_colour(palette.danger_icon, 0xffffff, closed);
}

} // verus!
