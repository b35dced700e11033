//! Motion of the bar: how far it is open, and where its contents stand meanwhile.

use vstd::prelude::*;

use crate::single::{
    fraction, from_int, integer, is_modest, law_adding_keeps_the_order,
    law_fractions_are_not_negative, law_held_numbers_are_in_range, law_multiplying_keeps_the_order,
    law_numbers_cancel, law_operations_commute, law_order_is_total, law_order_is_transitive,
    law_small_integers_add, law_small_integers_are_in_order, law_small_integers_are_kept,
    law_small_integers_divide, law_small_integers_multiply, law_taking_less_leaves_more,
    law_the_smaller_is_above_neither, lemma_a_part_is_less, lemma_canonical_is_kept,
    lemma_fraction_is_canonical, lemma_fraction_of_nothing, lemma_fractions_are_modest,
    lemma_halves_are_not_negative, lemma_larger_than_nothing, lemma_naturals_are_modest,
    lemma_nothing_is_held, lemma_one_is_below, lemma_result_is_canonical, lemma_results_are_modest,
    lemma_sums_are_modest, lemma_zero_is_modest, ratio, whole, zero, Single,
};

verus! {

/// A value between two others, from zero at `start` to one at `end`, that starts and ends
/// gently.
pub open spec fn eased(start: Single, end: Single, value: Single) -> Single {
    let phase = value.minus(start).over(end.minus(start)).held(zero(), whole(1));
    phase.times(phase).times(whole(3).minus(whole(2).times(phase)))
}

pub fn smoothstep_between(start: Single, end: Single, value: Single) -> (result: Single)
    ensures
        result == eased(start, end, value),
        result.is_canonical(),
{
    let phase = value.sub(start).div(end.sub(start)).clamp(from_int(0), from_int(1));
    phase.mul(phase).mul(from_int(3).sub(from_int(2).mul(phase)))
}

/// The same between two hundredths.
pub open spec fn eased_between(start: nat, end: nat, value: Single) -> Single {
    eased(fraction(start, 100), fraction(end, 100), value)
}

fn ease_between(start: u64, end: u64, value: Single) -> (result: Single)
    ensures
        result == eased_between(start as nat, end as nat, value),
        result.is_canonical(),
{
    smoothstep_between(ratio(start, 100), ratio(end, 100), value)
}

/// How opaque the surface is. On a presenter's toolbar it always is; on a title bar it is
/// nearly transparent until the bar opens.
pub open spec fn surface_alpha(presenter_attached: bool, progress: Single) -> Single {
    if presenter_attached {
        whole(1)
    } else {
        fraction(1, 255).plus(fraction(254, 255).times(eased_between(0, 10, progress))).held(
            fraction(1, 255),
            whole(1),
        )
    }
}

pub fn disclosure_surface_alpha(presenter_attached: bool, content_progress: Single) -> (result:
    Single)
    ensures
        result == surface_alpha(presenter_attached, content_progress),
{
    if presenter_attached {
        return from_int(1);
    }
    ratio(1, 255).add(ratio(254, 255).mul(ease_between(0, 10, content_progress))).clamp(
        ratio(1, 255),
        from_int(1),
    )
}

/// Stiffness and damping of a spring with a mass of one.
#[derive(Clone, Copy, Debug, PartialEq, Eq, Structural)]
pub struct Spring {
    pub stiffness: u32,
    pub damping: u32,
}

/// The spring that opens or closes the bar.
pub fn disclosure_spring_config(is_inline: bool, caption_collapsing: bool) -> (result: Spring)
    ensures
        result == if is_inline {
            Spring { stiffness: 360, damping: 28 }
        } else if caption_collapsing {
            Spring { stiffness: 450, damping: 40 }
        } else {
            Spring { stiffness: 900, damping: 46 }
        },
{
    if is_inline {
        Spring { stiffness: 360, damping: 28 }
    } else if caption_collapsing {
        Spring { stiffness: 450, damping: 40 }
    } else {
        Spring { stiffness: 900, damping: 46 }
    }
}

/// How far an inline bar is open at a position of its spring. A position beyond the end
/// swings back inside.
pub open spec fn inline_progress(position: Single) -> Single {
    if whole(1).less(position) {
        whole(1).minus(position.minus(whole(1)).times(fraction(55, 100))).larger(zero())
    } else {
        position.held(zero(), whole(1))
    }
}

pub fn inline_disclosure_progress(position: Single) -> (result: Single)
    ensures
        result == inline_progress(position),
        result.is_canonical(),
{
    if from_int(1).lt(position) {
        from_int(1).sub(position.sub(from_int(1)).mul(ratio(55, 100))).max(from_int(0))
    } else {
        position.clamp(from_int(0), from_int(1))
    }
}

/// How far the bar opens at most.
pub open spec fn most_open() -> Single {
    fraction(1044, 1000)
}

/// How far the bar is open at a position of its spring. Beyond the end the swing shows
/// twice as large.
pub open spec fn presented(position: Single, is_inline: bool) -> Single {
    let forward = position.larger(zero());
    let shown = if is_inline {
        inline_progress(forward)
    } else if whole(1).less(forward) {
        whole(1).plus(forward.minus(whole(1)).times(whole(2)))
    } else {
        forward
    };
    shown.held(zero(), most_open())
}

pub fn disclosure_presentation_progress(position: Single, is_inline: bool) -> (result: Single)
    ensures
        result == presented(position, is_inline),
        result.is_canonical(),
{
    let forward = position.max(from_int(0));
    let shown = if is_inline {
        inline_disclosure_progress(forward)
    } else if from_int(1).lt(forward) {
        from_int(1).add(forward.sub(from_int(1)).mul(from_int(2)))
    } else {
        forward
    };
    shown.clamp(from_int(0), ratio(1044, 1000))
}

/// The position of the spring at which the bar is so far open.
pub open spec fn position_for(progress: Single, is_inline: bool) -> Single {
    let shown = progress.held(zero(), most_open());
    if !is_inline && whole(1).less(shown) {
        whole(1).plus(shown.minus(whole(1)).over(whole(2)))
    } else {
        shown.smaller(whole(1))
    }
}

pub fn spring_position_for_progress(progress: Single, is_inline: bool) -> (result: Single)
    ensures
        result == position_for(progress, is_inline),
        result.is_canonical(),
{
    let shown = progress.clamp(from_int(0), ratio(1044, 1000));
    if !is_inline && from_int(1).lt(shown) {
        from_int(1).add(shown.sub(from_int(1)).div(from_int(2)))
    } else {
        shown.min(from_int(1))
    }
}

/// Gap between the controls.
pub open spec fn control_gap(progress: Single) -> Single {
    whole(6).times(eased_between(12, 94, progress))
}

pub fn expanded_control_gap(content_progress: Single) -> (result: Single)
    ensures
        result == control_gap(content_progress),
{
    from_int(6).mul(ease_between(12, 94, content_progress))
}

/// A run of the spring: its number, and the position from which it starts.
#[derive(Clone, Copy, Debug, PartialEq, Eq, Structural)]
pub struct DisclosureAnimationState {
    pub generation: u64,
    pub start: Single,
}

impl Default for DisclosureAnimationState {
    fn default() -> (result: Self)
        ensures
            result.generation == 0,
            result.start == zero(),
    {
        DisclosureAnimationState { generation: 0, start: from_int(0) }
    }
}

impl DisclosureAnimationState {
    /// Starts a new run from where the bar is.
    pub fn retarget(&mut self, current_progress: Single, is_inline: bool)
        ensures
            final(self).generation == (old(self).generation + 1) % 0x1_0000_0000_0000_0000,
            final(self).start == position_for(current_progress, is_inline),
    {
        self.generation = self.generation.wrapping_add(1);
        self.start = spring_position_for_progress(current_progress, is_inline);
    }
}

/// Where the contents rest: the heights of their middle while the bar is closed and open,
/// and the places of the status dot.
#[derive(Clone, Copy, Debug, PartialEq, Eq, Structural)]
pub struct IslandLayout {
    pub idle_center_y: Single,
    pub expanded_center_y: Single,
    pub idle_status_x: Single,
    pub expanded_status_x: Single,
}

/// Middle of the capture control of the open bar, before the row is shifted: the row holds a
/// panel of 82, then four controls of 30 with gaps of 6, and the capture control is the
/// second of them.
pub const UNSHIFTED_CAPTURE_X: u64 = 26;

/// Half of the width of that row.
pub const HALF_ROW_WIDTH: u64 = 113;

impl IslandLayout {
    /// Middle of the capture control of the closed bar, from the middle of the bar.
    pub open spec fn idle_capture_x(collapsed_width: Single, compact_width: Single) -> Single {
        collapsed_width.negated().over(whole(2)).plus(compact_width).plus(
            compact_width.over(whole(2)),
        )
    }

    /// The layout of a bar with these sizes. The row of the open bar is shifted so that its
    /// capture control stands where that of the closed bar does.
    pub open spec fn sized(
        collapsed_width: Single,
        compact_width: Single,
        titlebar_height: Single,
        island_height: Single,
    ) -> IslandLayout {
        let shift = Self::idle_capture_x(collapsed_width, compact_width).minus(
            whole(UNSHIFTED_CAPTURE_X as nat),
        );
        IslandLayout {
            idle_center_y: titlebar_height.over(whole(2)),
            expanded_center_y: island_height.over(whole(2)),
            idle_status_x: collapsed_width.negated().over(whole(2)).plus(
                compact_width.over(whole(2)),
            ),
            expanded_status_x: shift.minus(whole(HALF_ROW_WIDTH as nat)).plus(whole(1)).plus(
                whole(4),
            ).plus(whole(3)),
        }
    }

    pub fn new(
        collapsed_width: Single,
        compact_width: Single,
        titlebar_height: Single,
        island_height: Single,
    ) -> (result: Self)
        ensures
            result == Self::sized(
                collapsed_width,
                compact_width,
                titlebar_height,
                island_height,
            ),
    {
        let two = from_int(2);
        let left = collapsed_width.neg().div(two);
        let half_cell = compact_width.div(two);
        let shift = left.add(compact_width).add(half_cell).sub(from_int(UNSHIFTED_CAPTURE_X));
        IslandLayout {
            idle_center_y: titlebar_height.div(two),
            expanded_center_y: island_height.div(two),
            idle_status_x: left.add(half_cell),
            expanded_status_x: shift.sub(from_int(HALF_ROW_WIDTH)).add(from_int(1)).add(
                from_int(4),
            ).add(from_int(3)),
        }
    }
}

/// Where the contents are while the bar opens.
#[derive(Clone, Copy, Debug, PartialEq, Eq, Structural)]
pub struct IslandContentMotion {
    pub center_y: Single,
    pub status_center_x: Single,
    pub status_center_y: Single,
    pub capture_form: Single,
    pub details_alpha: Single,
    pub auxiliary_alpha: Single,
    pub auxiliary_inset: Single,
}

/// A value on the way from one to another.
pub open spec fn on_the_way(from: Single, to: Single, part: Single) -> Single {
    from.plus(to.minus(from).times(part))
}

fn interpolate(from: Single, to: Single, part: Single) -> (result: Single)
    ensures
        result == on_the_way(from, to, part),
{
    from.add(to.sub(from).mul(part))
}

/// Where the contents are, by how far the bar is open and how far its lower edge has dropped.
/// The status dot moves in a straight line; the details appear last.
pub fn island_content_motion(layout: IslandLayout, progress: Single, drop: Single) -> (result:
    IslandContentMotion)
    ensures
        result.center_y == on_the_way(layout.idle_center_y, layout.expanded_center_y, drop),
        result.status_center_x == on_the_way(
            layout.idle_status_x,
            layout.expanded_status_x,
            eased_between(0, 48, progress),
        ),
        result.status_center_y == on_the_way(
            layout.idle_center_y,
            layout.expanded_center_y,
            eased_between(0, 48, progress),
        ),
        result.capture_form == drop,
        result.details_alpha == eased_between(48, 92, progress),
        result.auxiliary_alpha == eased_between(15, 90, progress),
        result.auxiliary_inset == whole(14).times(
            whole(1).minus(eased(fraction(15, 100), whole(1), progress)),
        ),
{
    let status_progress = ease_between(0, 48, progress);
    IslandContentMotion {
        center_y: interpolate(layout.idle_center_y, layout.expanded_center_y, drop),
        status_center_x: interpolate(
            layout.idle_status_x,
            layout.expanded_status_x,
            status_progress,
        ),
        status_center_y: interpolate(
            layout.idle_center_y,
            layout.expanded_center_y,
            status_progress,
        ),
        capture_form: drop,
        details_alpha: ease_between(48, 92, progress),
        auxiliary_alpha: ease_between(15, 90, progress),
        auxiliary_inset: from_int(14).mul(
            from_int(1).sub(smoothstep_between(ratio(15, 100), from_int(1), progress)),
        ),
    }
}

/// Where a bar that is not beyond its end changes its direction, the first
/// frame of the new run shows what the last one of the old run showed.
pub proof fn law_reversing_keeps_the_frame(progress: Single, is_inline: bool)
    requires
        progress.is_canonical(),
        progress.at_least(zero()),
        whole(1).at_least(progress),
    ensures
        position_for(progress, is_inline) == progress,
        presented(position_for(progress, is_inline), is_inline) == progress,
{
    lemma_canonical_is_kept(progress);
    lemma_one_is_below(progress);
}

/// An eased value goes from nothing at the start to one at the end.
pub proof fn law_easing_goes_from_start_to_end(start: Single, end: Single)
    requires
        start.is_canonical(),
        end.is_canonical(),
    ensures
        eased(start, end, start) == zero(),
        end.minus(start) != zero() ==> eased(start, end, end) == whole(1),
{
    law_small_integers_are_kept(0);
    law_small_integers_are_kept(1);
    law_small_integers_are_kept(2);
    law_small_integers_are_kept(3);
    law_numbers_cancel(start);
    lemma_result_is_canonical(end, start);
    let way = end.minus(start);
    law_numbers_cancel(way);
    law_numbers_cancel(zero());
    law_small_integers_are_in_order(0, 0);
    law_small_integers_are_in_order(1, 0);
    law_small_integers_are_in_order(1, 1);
    lemma_nothing_is_held(zero());
    lemma_result_is_canonical(whole(3), whole(2).times(zero()));
    lemma_zero_times(whole(3).minus(whole(2).times(zero())));
    assert(zero().times(zero()) == zero());
    if way != zero() {
        law_small_integers_multiply(1, 1);
        law_small_integers_multiply(2, 1);
        law_small_integers_add(3, -2);
        assert(2 * 1 == 2 && 1 * 1 == 1);
        assert(whole(1).held(zero(), whole(1)) == whole(1));
    }
}

proof fn lemma_zero_times(number: Single)
    requires
        number.is_canonical(),
    ensures
        zero().times(number) == zero(),
{
    law_numbers_cancel(number);
    law_operations_commute(zero(), number);
}

/// The surface is opaque on a presenter's toolbar. On a title bar it is never less than
/// nearly transparent nor more than opaque, and nearly transparent while the bar is closed.
pub proof fn law_surfaces_are_shown_while_open(progress: Single)
    ensures
        surface_alpha(true, progress) == whole(1),
        surface_alpha(false, progress).at_least(fraction(1, 255)),
        whole(1).at_least(surface_alpha(false, progress)),
        surface_alpha(false, zero()) == fraction(1, 255),
{
    lemma_a_part_is_less();
    law_order_is_total(fraction(1, 255), whole(1));
    let between = fraction(1, 255).plus(
        fraction(254, 255).times(eased_between(0, 10, progress)),
    );
    law_held_numbers_are_in_range(between, fraction(1, 255), whole(1));
    law_small_integers_are_kept(0);
    lemma_fraction_of_nothing(100);
    lemma_fraction_is_canonical(10, 100);
    lemma_fraction_is_canonical(254, 255);
    law_easing_goes_from_start_to_end(zero(), fraction(10, 100));
    law_numbers_cancel(fraction(254, 255));
    law_numbers_cancel(fraction(1, 255));
    lemma_canonical_is_kept(fraction(1, 255));
    law_held_numbers_are_in_range(fraction(1, 255), fraction(1, 255), whole(1));
    law_order_is_total(fraction(1, 255), fraction(1, 255));
}

/// However far the spring swings, what is shown of the bar is never less than closed nor
/// more than it opens at most; a spring behind its start shows a closed bar.
pub proof fn law_the_bar_opens_so_far(position: Single, is_inline: bool)
    ensures
        presented(position, is_inline).at_least(zero()),
        fraction(1044, 1000).at_least(presented(position, is_inline)),
        whole(1).at_least(position_for(position, true)),
        zero().at_least(position) ==> presented(position, is_inline) == zero(),
        zero().at_least(position) ==> position_for(position, is_inline) == zero(),
{
    law_small_integers_are_kept(0);
    law_small_integers_are_kept(1);
    law_small_integers_are_in_order(1, 0);
    law_small_integers_are_in_order(0, 0);
    law_small_integers_are_in_order(1, 1);
    lemma_one_is_below(whole(1));
    lemma_one_is_below(zero());
    let forward = position.larger(zero());
    let shown = if is_inline {
        inline_progress(forward)
    } else if whole(1).less(forward) {
        whole(1).plus(forward.minus(whole(1)).times(whole(2)))
    } else {
        forward
    };
    law_held_numbers_are_in_range(shown, zero(), most_open());
    law_the_smaller_is_above_neither(position.held(zero(), most_open()), whole(1));
    if zero().at_least(position) {
        lemma_nothing_is_held(position);
        lemma_larger_than_nothing(position);
        lemma_canonical_is_kept(zero());
        law_held_numbers_are_in_range(zero(), zero(), most_open());
        assert(forward == zero());
        assert(zero().held(zero(), whole(1)) == zero());
        assert(position.held(zero(), most_open()) == zero());
    }
}

/// The gap between the controls opens from nothing to six.
pub proof fn law_the_gap_opens()
    ensures
        control_gap(fraction(12, 100)) == zero(),
        fraction(94, 100).minus(fraction(12, 100)) != zero() ==> control_gap(fraction(94, 100))
            == whole(6),
{
    lemma_fraction_is_canonical(12, 100);
    lemma_fraction_is_canonical(94, 100);
    law_easing_goes_from_start_to_end(fraction(12, 100), fraction(94, 100));
    law_small_integers_are_kept(6);
    law_small_integers_are_kept(1);
    law_small_integers_are_kept(0);
    law_small_integers_multiply(6, 1);
    law_small_integers_multiply(6, 0);
    assert(6 * 1 == 6);
    assert(6 * 0 == 0);
}

/// A value on the way stands at the first place before the way begins, and at the second
/// once it ends.
pub proof fn law_ways_lead_from_place_to_place(from: Single, to: Single, first: int, last: int)
    requires
        from.is_canonical(),
        -0x40_0000 <= first <= 0x40_0000,
        -0x40_0000 <= last <= 0x40_0000,
    ensures
        on_the_way(from, to, zero()) == from,
        on_the_way(integer(first), integer(last), whole(1)) == integer(last),
{
    lemma_result_is_canonical(to, from);
    law_numbers_cancel(to.minus(from));
    law_numbers_cancel(from);
    law_small_integers_are_kept(1);
    law_small_integers_are_kept(first);
    law_small_integers_are_kept(last);
    law_small_integers_add(last, -first);
    assert((last - first) * 1 == last - first);
    law_small_integers_multiply(last - first, 1);
    law_small_integers_add(first, last - first);
}

/// The contents of the bar rest in its middle, the status dot of the closed bar in the middle
/// of its first cell, and that of the open bar eight beside the left edge of a row that is
/// shifted so that its capture control stands over that of the closed bar.
pub proof fn law_contents_rest_in_the_middle(
    half_width: nat,
    half_cell: nat,
    half_title: nat,
    half_height: nat,
)
    requires
        half_width <= 0x8_0000,
        half_cell <= 0x8_0000,
        half_title <= 0x8_0000,
        half_height <= 0x8_0000,
    ensures
        ({
            let layout = IslandLayout::sized(
                whole(2 * half_width),
                whole(2 * half_cell),
                whole(2 * half_title),
                whole(2 * half_height),
            );
            &&& layout.idle_center_y == whole(half_title)
            &&& layout.expanded_center_y == whole(half_height)
            &&& layout.idle_status_x == integer(half_cell - half_width)
            &&& layout.expanded_status_x == integer(3 * half_cell - half_width - 26 - 113 + 8)
        }),
{
    let w = half_width as int;
    let c = half_cell as int;
    law_small_integers_divide(half_title, 2);
    law_small_integers_divide(half_height, 2);
    law_small_integers_divide(half_width, 2);
    law_small_integers_divide(half_cell, 2);
    assert(half_title * 2 == 2 * half_title && half_height * 2 == 2 * half_height && half_width
        * 2 == 2 * half_width && half_cell * 2 == 2 * half_cell);
    law_small_integers_are_kept(2 * w);
    law_small_integers_are_kept(2 * c);
    law_small_integers_are_kept(c);
    law_small_integers_are_kept(26);
    law_small_integers_are_kept(113);
    law_small_integers_are_kept(1);
    law_small_integers_are_kept(4);
    law_small_integers_are_kept(3);
    law_small_integers_add(-w, c);
    law_small_integers_add(-w, 2 * c);
    law_small_integers_add(2 * c - w, c);
    let capture = 3 * c - w;
    assert(2 * c - w + c == capture);
    law_small_integers_add(capture, -26);
    law_small_integers_add(capture - 26, -113);
    law_small_integers_add(capture - 26 - 113, 1);
    law_small_integers_add(capture - 26 - 113 + 1, 4);
    law_small_integers_add(capture - 26 - 113 + 5, 3);
}

/// An inline bar follows its spring up to its end, and swings back inside beyond it: it is
/// never more than open nor less than closed.
pub proof fn law_inline_bars_swing_back(position: Single)
    requires
        is_modest(position, 0x1000),
    ensures
        position.at_least(zero()) && whole(1).at_least(position) ==> inline_progress(position)
            == position,
        zero().at_least(position) ==> inline_progress(position) == zero(),
        inline_progress(position).at_least(zero()),
        whole(1).at_least(inline_progress(position)),
{
    lemma_zero_is_modest();
    lemma_canonical_is_kept(position);
    law_small_integers_are_kept(0);
    law_small_integers_are_kept(1);
    law_small_integers_are_in_order(1, 0);
    law_held_numbers_are_in_range(position, zero(), whole(1));
    if zero().at_least(position) {
        lemma_nothing_is_held(position);
        law_order_is_total(whole(1), position);
        law_order_is_transitive(whole(1), zero(), position);
    }
    if whole(1).less(position) {
        let part = fraction(55, 100);
        lemma_fractions_are_modest(55, 100);
        law_fractions_are_not_negative(55, 100);
        law_order_is_total(whole(1), position);
        law_adding_keeps_the_order(position, whole(1), whole(1));
        law_numbers_cancel(whole(1));
        law_numbers_cancel(part);
        law_operations_commute(zero(), part);
        let beyond = position.minus(whole(1));
        lemma_sums_are_modest(position, whole(1), 0x1000);
        law_multiplying_keeps_the_order(beyond, zero(), part);
        let back = beyond.times(part);
        lemma_results_are_modest(beyond, part, 0x1030);
        law_order_is_total(back, back);
        law_taking_less_leaves_more(whole(1), back, back);
        lemma_sums_are_modest(whole(1), back, 0x2090);
        let left = whole(1).minus(back);
        lemma_canonical_is_kept(left);
        law_the_smaller_is_above_neither(left, zero());
        law_order_is_total(whole(1), zero());
        law_order_is_transitive(position, whole(1), zero());
    }
}

/// Beyond its end a bar that is not inline shows more than open.
pub proof fn law_swings_show_beyond_the_end(position: Single)
    requires
        is_modest(position, 0x1000),
        position.at_least(whole(1)),
    ensures
        presented(position, false).at_least(whole(1)),
        position_for(position, false).at_least(whole(1)),
{
    lemma_zero_is_modest();
    lemma_canonical_is_kept(position);
    law_small_integers_are_kept(0);
    law_small_integers_are_kept(1);
    law_small_integers_are_kept(2);
    law_small_integers_are_in_order(1, 1);
    lemma_one_is_below(whole(1));
    law_order_is_transitive(position, whole(1), zero());
    let forward = position.larger(zero());
    assert(forward == position);
    lemma_fractions_are_modest(1044, 1000);
    let most = most_open();
    lemma_canonical_is_kept(most);
    if whole(1).less(position) {
        law_adding_keeps_the_order(position, whole(1), whole(1));
        law_numbers_cancel(whole(1));
        law_numbers_cancel(whole(2));
        law_operations_commute(zero(), whole(2));
        let beyond = position.minus(whole(1));
        lemma_sums_are_modest(position, whole(1), 0x1000);
        lemma_naturals_are_modest(2);
        law_multiplying_keeps_the_order(beyond, zero(), whole(2));
        lemma_results_are_modest(beyond, whole(2), 0x1030);
        law_adding_keeps_the_order(beyond.times(whole(2)), zero(), whole(1));
        lemma_sums_are_modest(whole(1), beyond.times(whole(2)), 0x2090);
        lemma_held_above_one(whole(1).plus(beyond.times(whole(2))));
    } else {
        lemma_held_above_one(position);
    }
    lemma_held_above_one(position);
    let shown = position.held(zero(), most);
    if whole(1).less(shown) {
        lemma_shown_is_modest(position);
        law_adding_keeps_the_order(shown, whole(1), whole(1));
        law_numbers_cancel(whole(1));
        law_order_is_total(whole(1), shown);
        let beyond = shown.minus(whole(1));
        lemma_sums_are_modest(shown, whole(1), 0x1000);
        lemma_naturals_are_modest(2);
        lemma_results_are_modest(beyond, whole(2), 0x1030);
        lemma_halves_are_not_negative(beyond);
        law_adding_keeps_the_order(beyond.over(whole(2)), zero(), whole(1));
    } else {
        law_the_smaller_is_above_neither(shown, whole(1));
    }
}

proof fn lemma_shown_is_modest(position: Single)
    requires
        is_modest(position, 0x1000),
    ensures
        is_modest(position.held(zero(), most_open()), 0x1000),
{
    lemma_zero_is_modest();
    lemma_fractions_are_modest(1044, 1000);
    lemma_results_are_modest(position, zero(), 0x1000);
    lemma_results_are_modest(position.larger(zero()), most_open(), 0x1000);
}

proof fn lemma_held_above_one(number: Single)
    requires
        number.is_canonical(),
        number.at_least(whole(1)),
    ensures
        number.held(zero(), most_open()).at_least(whole(1)),
{
    lemma_zero_is_modest();
    lemma_canonical_is_kept(number);
    lemma_fractions_are_modest(1044, 1000);
    lemma_canonical_is_kept(most_open());
    law_small_integers_are_kept(0);
    law_small_integers_are_kept(1);
    law_small_integers_are_in_order(1, 1);
    lemma_one_is_below(whole(1));
    law_order_is_transitive(number, whole(1), zero());
    law_the_smaller_is_above_neither(number, most_open());
}

} // verus!
