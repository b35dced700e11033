//! Selection of the one element that shows the shared content.

use vstd::prelude::*;

use crate::accessibility::{
    authoritative_control_rank, authoritative_name_rank, control_rank, name_rank, normalized_name,
    ControlType,
};
use crate::geometry::{Edges, PixelRect, WindowGeometry};
use crate::numeric::{abs_diff_u32, abs_int, max_int, max_u32, min_int};
use crate::ratio::{nearest, round_to_nearest, Limit, WIDE_PRECISION};

verus! {

/// How far two looks at one rectangle may lie apart, in pixels.
pub const RECT_STABILITY_TOLERANCE: u32 = 3;

/// A rectangle that may show the shared content, and how much speaks for it.
#[derive(Clone, Copy, Debug, PartialEq, Eq, Structural)]
pub struct AuthoritativeCandidate {
    pub rect: PixelRect,
    pub rank: u8,
}

/// What was read of one element. `None` stands for a property that could not be
/// read.
#[derive(Debug)]
pub struct ElementReport {
    pub offscreen: Option<bool>,
    pub name: Option<String>,
    pub control_type: Option<ControlType>,
    pub bounds: Option<Edges>,
}

/// The smallest share of the image that shared content takes: 0.08.
pub open spec fn smallest_share() -> Limit {
    Limit { mantissa: 5764607523034235, denominator: 72057594037927936 }
}

/// The largest share of the image that shared content takes: 0.985.
pub open spec fn largest_share() -> Limit {
    Limit { mantissa: 8872091265919877, denominator: 9007199254740992 }
}

/// A rectangle is large enough to be the shared content, and leaves enough of the
/// window to Teams itself.
pub open spec fn is_content_sized(rect: PixelRect, geometry: WindowGeometry) -> bool {
    let whole = geometry.image_width * geometry.image_height;
    let part = nearest(rect.pixel_count() as nat, WIDE_PRECISION as nat) as int;
    let all = nearest(whole as nat, WIDE_PRECISION as nat) as int;
    &&& rect.width >= max_int(geometry.image_width as int / 5, 96)
    &&& rect.height >= max_int(geometry.image_height as int / 5, 54)
    &&& whole != 0
    &&& smallest_share().reached(part, all)
    &&& largest_share().kept(part, all)
}

pub fn is_authoritative_content_rect(rect: PixelRect, geometry: WindowGeometry) -> (result: bool)
    ensures
        result == is_content_sized(rect, geometry),
{
    if rect.width < max_u32(geometry.image_width / 5, 96) || rect.height < max_u32(
        geometry.image_height / 5,
        54,
    ) {
        return false;
    }
    let image_area: u64 = PixelRect::new(0, 0, geometry.image_width, geometry.image_height).area();
    let rect_area: u64 = rect.area();
    if image_area == 0 {
        return false;
    }
    let part: u128 = round_to_nearest(rect_area, WIDE_PRECISION);
    let all: u128 = round_to_nearest(image_area, WIDE_PRECISION);
    let floor = Limit { mantissa: 5764607523034235, denominator: 72057594037927936 };
    let ceiling = Limit { mantissa: 8872091265919877, denominator: 9007199254740992 };
    floor.is_reached(part, all) && ceiling.is_kept(part, all)
}

/// The candidate that an element makes, from the rank of its name.
pub open spec fn candidate_of(
    visible: bool,
    name: Option<u8>,
    control_type: Option<ControlType>,
    bounds: Option<Edges>,
    geometry: WindowGeometry,
) -> Option<AuthoritativeCandidate> {
    if visible && name is Some && control_type is Some && bounds is Some {
        match (control_rank(control_type->0), geometry.strict_image_area(bounds->0)) {
            (Some(control), Some(rect)) => if is_content_sized(rect, geometry) {
                Some(
                    AuthoritativeCandidate {
                        rect,
                        rank: min_int(min_int(name->0 * 10, 255) + control, 255) as u8,
                    },
                )
            } else {
                None
            },
            _ => None,
        }
    } else {
        None
    }
}

/// Judges an element by the rank of its name, its kind and its place.
pub fn candidate_from_ranked_name(
    visible: bool,
    name: Option<u8>,
    control_type: Option<ControlType>,
    bounds: Option<Edges>,
    geometry: WindowGeometry,
) -> (result: Option<AuthoritativeCandidate>)
    ensures
        result == candidate_of(visible, name, control_type, bounds, geometry),
{
    if !visible {
        return None;
    }
    match (name, control_type, bounds) {
        (Some(name), Some(control_type), Some(bounds)) => {
            let control: u8 = match authoritative_control_rank(control_type) {
                Some(control) => control,
                None => {
                    return None;
                },
            };
            let rect = match geometry.map_ui_rect_strict(bounds) {
                Some(rect) => rect,
                None => {
                    return None;
                },
            };
            if !is_authoritative_content_rect(rect, geometry) {
                return None;
            }
            let scaled: u32 = name as u32 * 10;
            let scaled: u32 = if scaled > 255 { 255 } else { scaled };
            let rank: u32 = scaled + control as u32;
            let rank: u32 = if rank > 255 { 255 } else { rank };
            Some(AuthoritativeCandidate { rect, rank: rank as u8 })
        },
        _ => None,
    }
}

impl ElementReport {
    /// The candidate that the element makes. An element of which it is not known
    /// that it is on the screen makes none.
    pub open spec fn candidate(&self, geometry: WindowGeometry) -> Option<AuthoritativeCandidate> {
        candidate_of(
            self.offscreen == Some(false),
            match self.name {
                Some(name) => name_rank(normalized_name(name@)),
                None => None,
            },
            self.control_type,
            self.bounds,
            geometry,
        )
    }
}

/// Judges an element.
pub fn authoritative_candidate_from_element(
    element: &ElementReport,
    geometry: WindowGeometry,
) -> (result: Option<AuthoritativeCandidate>)
    ensures
        result == element.candidate(geometry),
{
    let visible = match element.offscreen {
        Some(offscreen) => !offscreen,
        None => false,
    };
    if !visible {
        return None;
    }
    let name: Option<u8> = match &element.name {
        Some(name) => authoritative_name_rank(name.as_str()),
        None => None,
    };
    candidate_from_ranked_name(visible, name, element.control_type, element.bounds, geometry)
}

/// Two looks at a rectangle agree up to `tolerance` pixels at its corner and twice
/// as many in its size.
pub open spec fn stable(left: PixelRect, right: PixelRect, tolerance: u32) -> bool {
    let doubled = min_int(tolerance * 2, u32::MAX as int);
    &&& abs_int(left.x - right.x) <= tolerance
    &&& abs_int(left.y - right.y) <= tolerance
    &&& abs_int(left.width - right.width) <= doubled
    &&& abs_int(left.height - right.height) <= doubled
}

pub fn rects_are_stable(left: PixelRect, right: PixelRect, tolerance: u32) -> (result: bool)
    ensures
        result == stable(left, right, tolerance),
{
    let doubled: u32 = if tolerance > 0x7fff_ffff { u32::MAX } else { tolerance * 2 };
    abs_diff_u32(left.x, right.x) <= tolerance && abs_diff_u32(left.y, right.y) <= tolerance
        && abs_diff_u32(left.width, right.width) <= doubled && abs_diff_u32(
        left.height,
        right.height,
    ) <= doubled
}

/// Index of the first candidate for the same rectangle, or the length.
pub open spec fn first_stable(candidates: Seq<AuthoritativeCandidate>, rect: PixelRect) -> nat
    decreases candidates.len(),
{
    if candidates.len() == 0 || stable(candidates.first().rect, rect, RECT_STABILITY_TOLERANCE) {
        0
    } else {
        1 + first_stable(candidates.drop_first(), rect)
    }
}

/// The candidates after one more has been seen: one that looks at a known rectangle
/// replaces the known one if it ranks higher, any other is added.
pub open spec fn with_candidate(
    candidates: Seq<AuthoritativeCandidate>,
    candidate: AuthoritativeCandidate,
) -> Seq<AuthoritativeCandidate> {
    let at = first_stable(candidates, candidate.rect) as int;
    if at >= candidates.len() {
        candidates.push(candidate)
    } else if candidate.rank > candidates[at].rank {
        candidates.update(at, candidate)
    } else {
        candidates
    }
}

pub fn insert_or_replace_candidate(
    candidates: &mut Vec<AuthoritativeCandidate>,
    candidate: AuthoritativeCandidate,
)
    ensures
        final(candidates)@ == with_candidate(old(candidates)@, candidate),
{
    let mut i: usize = 0;
    assert(candidates@.skip(0) =~= candidates@);
    while i < candidates.len()
        invariant
            candidates@ == old(candidates)@,
            i <= candidates.len(),
            first_stable(candidates@, candidate.rect) == i + first_stable(
                candidates@.skip(i as int),
                candidate.rect,
            ),
        decreases candidates.len() - i,
    {
        assert(candidates@.skip(i as int).first() == candidates@[i as int]);
        if rects_are_stable(candidates[i].rect, candidate.rect, RECT_STABILITY_TOLERANCE) {
            if candidate.rank > candidates[i].rank {
                candidates.set(i, candidate);
            }
            return ;
        }
        assert(candidates@.skip(i as int).drop_first() =~= candidates@.skip(i + 1));
        i += 1;
    }
    candidates.push(candidate);
}

/// The candidate at `at` ranks above every other one.
pub open spec fn ranks_alone(candidates: Seq<AuthoritativeCandidate>, at: int) -> bool {
    &&& 0 <= at < candidates.len()
    &&& forall|other: int|
        0 <= other < candidates.len() && other != at ==> (#[trigger] candidates[other]).rank
            < candidates[at].rank
}

/// The candidate with the highest rank, or `None` where none has it alone.
pub fn select_unique_authoritative_candidate(candidates: &[AuthoritativeCandidate]) -> (result:
    Option<AuthoritativeCandidate>)
    ensures
        match result {
            Some(selected) => exists|at: int|
                ranks_alone(candidates@, at) && candidates@[at] == selected,
            None => forall|at: int| !ranks_alone(candidates@, at),
        },
{
    if candidates.len() == 0 {
        return None;
    }
    let mut best: usize = 0;
    let mut alone = true;
    let mut i: usize = 1;
    while i < candidates.len()
        invariant
            best < i <= candidates.len(),
            forall|k: int| 0 <= k < i ==> (#[trigger] candidates@[k]).rank <= candidates@[best as int].rank,
            alone ==> forall|k: int|
                0 <= k < i && k != best ==> (#[trigger] candidates@[k]).rank
                    < candidates@[best as int].rank,
            !alone ==> exists|k: int|
                0 <= k < i && k != best && (#[trigger] candidates@[k]).rank
                    == candidates@[best as int].rank,
        decreases candidates.len() - i,
    {
        if candidates[i].rank > candidates[best].rank {
            best = i;
            alone = true;
        } else if candidates[i].rank == candidates[best].rank {
            alone = false;
            assert(candidates@[i as int].rank == candidates@[best as int].rank);
        }
        i += 1;
    }
    if alone {
        assert(ranks_alone(candidates@, best as int));
        Some(candidates[best])
    } else {
        proof {
            let twin = choose|k: int|
                0 <= k < candidates.len() && k != best && (#[trigger] candidates@[k]).rank
                    == candidates@[best as int].rank;
            assert forall|at: int| !ranks_alone(candidates@, at) by {
                if ranks_alone(candidates@, at) {
                    assert(candidates@[at].rank <= candidates@[best as int].rank);
                    assert(at == best || candidates@[best as int].rank < candidates@[at].rank);
                    assert(candidates@[twin].rank < candidates@[at].rank);
                }
            }
        }
        None
    }
}

/// No more than one candidate ranks above all others, so that the selection is the
/// only one possible.
pub proof fn law_selection_is_unique(
    candidates: Seq<AuthoritativeCandidate>,
    first: int,
    second: int,
)
    requires
        ranks_alone(candidates, first),
        ranks_alone(candidates, second),
    ensures
        first == second,
{
    if first != second {
        assert(candidates[first].rank < candidates[second].rank);
        assert(candidates[second].rank < candidates[first].rank);
    }
}

/// Two candidates that share the highest rank leave nothing to select.
pub proof fn law_ambiguous_candidates_fail_closed(
    candidates: Seq<AuthoritativeCandidate>,
    first: int,
    second: int,
)
    requires
        0 <= first < candidates.len(),
        0 <= second < candidates.len(),
        first != second,
        candidates[first].rank == candidates[second].rank,
        forall|k: int|
            0 <= k < candidates.len() ==> (#[trigger] candidates[k]).rank <= candidates[first].rank,
    ensures
        forall|at: int| !ranks_alone(candidates, at),
{
    assert forall|at: int| !ranks_alone(candidates, at) by {
        if ranks_alone(candidates, at) {
            assert(candidates[at].rank <= candidates[first].rank);
            if at == first {
                assert(candidates[second].rank < candidates[at].rank);
            } else {
                assert(candidates[first].rank < candidates[at].rank);
            }
        }
    }
}

/// The distinct candidates among the elements of one look, in the order in which
/// their rectangles were first seen.
pub open spec fn collected(found: Seq<Option<AuthoritativeCandidate>>) -> Seq<
    AuthoritativeCandidate,
>
    decreases found.len(),
{
    if found.len() == 0 {
        Seq::empty()
    } else {
        match found.last() {
            Some(candidate) => with_candidate(collected(found.drop_last()), candidate),
            None => collected(found.drop_last()),
        }
    }
}

/// The element at `index` is the first one that gave the only candidate of the
/// highest rank.
pub open spec fn is_selected(found: Seq<Option<AuthoritativeCandidate>>, index: int) -> bool {
    &&& 0 <= index < found.len()
    &&& found[index] is Some
    &&& exists|at: int|
        ranks_alone(collected(found), at) && collected(found)[at] == found[index]->0
    &&& forall|earlier: int| 0 <= earlier < index ==> found[earlier] != found[index]
}

/// Every collected candidate was given by some element.
proof fn lemma_collected_were_found(found: Seq<Option<AuthoritativeCandidate>>, at: int)
    requires
        0 <= at < collected(found).len(),
    ensures
        exists|k: int| 0 <= k < found.len() && found[k] == Some(collected(found)[at]),
    decreases found.len(),
{
    let rest = found.drop_last();
    let last = found.len() - 1;
    let before = collected(rest);
    if found.last() is Some && (at >= before.len() || collected(found)[at] != before[at]) {
        assert(found[last] == Some(collected(found)[at]));
    } else {
        lemma_collected_were_found(rest, at);
        let k = choose|k: int| 0 <= k < rest.len() && rest[k] == Some(before[at]);
        assert(found[k] == Some(collected(found)[at]));
    }
}

/// Picks the element that shows the shared content among those of one look.
pub fn select_element(found: &Vec<Option<AuthoritativeCandidate>>) -> (result: Option<usize>)
    ensures
        match result {
            Some(index) => is_selected(found@, index as int),
            None => forall|at: int| !ranks_alone(collected(found@), at),
        },
{
    let mut candidates: Vec<AuthoritativeCandidate> = Vec::new();
    let mut i: usize = 0;
    assert(found@.take(0) =~= Seq::<Option<AuthoritativeCandidate>>::empty());
    while i < found.len()
        invariant
            i <= found.len(),
            candidates@ == collected(found@.take(i as int)),
        decreases found.len() - i,
    {
        assert(found@.take(i + 1).drop_last() =~= found@.take(i as int));
        assert(found@.take(i + 1).last() == found@[i as int]);
        if let Some(candidate) = found[i] {
            insert_or_replace_candidate(&mut candidates, candidate);
        }
        i += 1;
    }
    assert(found@.take(i as int) =~= found@);
    let selected = match select_unique_authoritative_candidate(candidates.as_slice()) {
        Some(selected) => selected,
        None => {
            return None;
        },
    };
    let ghost at = choose|at: int| ranks_alone(candidates@, at) && candidates@[at] == selected;
    proof {
        lemma_collected_were_found(found@, at);
    }
    let mut index: usize = 0;
    while index < found.len()
        invariant
            index <= found.len(),
            candidates@ == collected(found@),
            ranks_alone(candidates@, at),
            candidates@[at] == selected,
            exists|k: int| 0 <= k < found.len() && found@[k] == Some(selected),
            forall|k: int| 0 <= k < index ==> found@[k] != Some(selected),
        decreases found.len() - index,
    {
        if let Some(candidate) = found[index] {
            if candidate == selected {
                return Some(index);
            }
        }
        index += 1;
    }
    None
}

/// Shared content takes at least a fifth of each side of the window, at least 96 by 54
/// pixels, at least 8 % and at most 98.5 % of its area; every rectangle of such a size can
/// be shared content.
pub proof fn law_content_has_a_fair_share(rect: PixelRect, geometry: WindowGeometry)
    requires
        rect.width * rect.height <= 0x4000_0000_0000,
        geometry.image_width * geometry.image_height <= 0x4000_0000_0000,
    ensures
        is_content_sized(rect, geometry) <==> {
            let part = rect.width * rect.height;
            let all = geometry.image_width * geometry.image_height;
            &&& rect.width >= geometry.image_width / 5 && rect.width >= 96
            &&& rect.height >= geometry.image_height / 5 && rect.height >= 54
            &&& all > 0
            &&& 100 * part >= 8 * all
            &&& 1000 * part <= 985 * all
        },
{
    let part = rect.width * rect.height;
    let all = geometry.image_width * geometry.image_height;
    assert(0 <= part && 0 <= all) by (nonlinear_arith)
        requires
            part == rect.width * rect.height,
            all == geometry.image_width * geometry.image_height,
            0 <= rect.width,
            0 <= rect.height,
            0 <= geometry.image_width,
            0 <= geometry.image_height,
    ;
    crate::ratio::law_small_numbers_are_kept(part as nat, WIDE_PRECISION as nat);
    crate::ratio::law_small_numbers_are_kept(all as nat, WIDE_PRECISION as nat);
    let smallest = smallest_share();
    let largest = largest_share();
    assert(2 * smallest.denominator == 144115188075855872 && 2 * smallest.mantissa - 1
        == 11529215046068469);
    assert(smallest.reached(part, all) == (part * 144115188075855872 > 11529215046068469 * all));
    assert(2 * largest.denominator == 18014398509481984 && 2 * largest.mantissa + 1
        == 17744182531839755);
    assert(largest.kept(part, all) == (part * 18014398509481984 < 17744182531839755 * all));
}

/// An element makes a candidate only if it is known to be on the screen, is named and kinded
/// as shared content, lies where its place in the picture is known, and is large enough. Its
/// rank counts its name tenfold and its kind once, so that a better name outranks every
/// better kind.
pub proof fn law_candidates_are_ranked_by_name_and_kind(
    visible: bool,
    name: Option<u8>,
    control_type: Option<ControlType>,
    bounds: Option<Edges>,
    geometry: WindowGeometry,
)
    ensures
        ({
            let candidate = candidate_of(visible, name, control_type, bounds, geometry);
            &&& candidate is Some ==> {
                &&& visible
                &&& name is Some
                &&& control_type is Some
                &&& control_rank(control_type->0) is Some
                &&& bounds is Some
                &&& geometry.strict_image_area(bounds->0) == Some(candidate->0.rect)
                &&& is_content_sized(candidate->0.rect, geometry)
                &&& name->0 <= 4 ==> candidate->0.rank == 10 * name->0 + control_rank(
                    control_type->0,
                )->0
            }
            &&& visible && name is Some && control_type is Some && bounds is Some
                && control_rank(control_type->0) is Some && geometry.strict_image_area(
                bounds->0,
            ) is Some && is_content_sized(geometry.strict_image_area(bounds->0)->0, geometry)
                ==> candidate is Some
        }),
{
}

/// An element that may be off the screen, that has no name, no kind or no place, makes no
/// candidate.
pub proof fn law_unknown_elements_make_no_candidate(
    element: ElementReport,
    geometry: WindowGeometry,
)
    requires
        element.offscreen != Some(false) || element.name is None || element.control_type is None
            || element.bounds is None || name_rank(normalized_name(element.name->0@)) is None,
    ensures
        element.candidate(geometry) is None,
{
}

/// A visible element whose name and kind are those of shared content and whose place fits is
/// a candidate, at its place in the picture.
pub proof fn law_shared_elements_make_a_candidate(
    element: ElementReport,
    geometry: WindowGeometry,
)
    requires
        element.offscreen == Some(false),
        element.name is Some,
        name_rank(normalized_name(element.name->0@)) is Some,
        element.control_type is Some,
        control_rank(element.control_type->0) is Some,
        element.bounds is Some,
        geometry.strict_image_area(element.bounds->0) is Some,
        is_content_sized(geometry.strict_image_area(element.bounds->0)->0, geometry),
    ensures
        element.candidate(geometry) is Some,
        element.candidate(geometry)->0.rect == geometry.strict_image_area(element.bounds->0)->0,
        element.candidate(geometry)->0.rank == 10 * name_rank(
            normalized_name(element.name->0@),
        )->0 + control_rank(element.control_type->0)->0,
{
}

/// Two looks agree where their corners lie at most the tolerance apart and their sides
/// differ by at most twice as much, whichever look comes first.
pub proof fn law_stability_is_mutual(left: PixelRect, right: PixelRect, tolerance: u32)
    ensures
        stable(left, right, tolerance) == stable(right, left, tolerance),
        stable(left, left, tolerance),
        tolerance <= 0x7fff_ffff ==> (stable(left, right, tolerance) <==> {
            &&& left.x <= right.x + tolerance && right.x <= left.x + tolerance
            &&& left.y <= right.y + tolerance && right.y <= left.y + tolerance
            &&& left.width <= right.width + 2 * tolerance && right.width <= left.width + 2
                * tolerance
            &&& left.height <= right.height + 2 * tolerance && right.height <= left.height + 2
                * tolerance
        }),
        stable(left, right, 0) <==> left == right,
{
}

/// The first look at a rectangle is the first one that agrees with it.
pub proof fn law_first_look_agrees(candidates: Seq<AuthoritativeCandidate>, rect: PixelRect)
    ensures
        first_stable(candidates, rect) <= candidates.len(),
        first_stable(candidates, rect) < candidates.len() ==> stable(
            candidates[first_stable(candidates, rect) as int].rect,
            rect,
            3,
        ),
        forall|k: int|
            0 <= k < first_stable(candidates, rect) ==> !stable(
                (#[trigger] candidates[k]).rect,
                rect,
                3,
            ),
    decreases candidates.len(),
{
    if candidates.len() > 0 && !stable(
        candidates.first().rect,
        rect,
        RECT_STABILITY_TOLERANCE,
    ) {
        let rest = candidates.drop_first();
        law_first_look_agrees(rest, rect);
        assert forall|k: int| 0 <= k < first_stable(candidates, rect) implies !stable(
            (#[trigger] candidates[k]).rect,
            rect,
            3,
        ) by {
            if k > 0 {
                assert(rest[k - 1] == candidates[k]);
            }
        }
    }
}

/// One more candidate: where it shows a rectangle that is known, the better one of the two
/// stays; where it does not, it is added at the end. Nothing else changes.
pub proof fn law_known_rectangles_keep_the_better_look(
    candidates: Seq<AuthoritativeCandidate>,
    candidate: AuthoritativeCandidate,
)
    ensures
        ({
            let after = with_candidate(candidates, candidate);
            let known = exists|k: int|
                0 <= k < candidates.len() && stable((#[trigger] candidates[k]).rect, candidate.rect, 3);
            &&& !known ==> after == candidates.push(candidate)
            &&& known ==> after.len() == candidates.len() && exists|k: int|
                {
                    &&& 0 <= k < candidates.len()
                    &&& stable((#[trigger] candidates[k]).rect, candidate.rect, 3)
                    &&& after[k] == if candidate.rank > candidates[k].rank {
                        candidate
                    } else {
                        candidates[k]
                    }
                    &&& forall|j: int|
                        0 <= j < candidates.len() && j != k ==> after[j] == candidates[j]
                }
        }),
{
    law_first_look_agrees(candidates, candidate.rect);
    let at = first_stable(candidates, candidate.rect) as int;
    if at < candidates.len() {
        assert(stable(candidates[at].rect, candidate.rect, 3));
    }
}

/// Every candidate of a look was made by an element, and whatever an element made, something
/// that ranks at least as high was collected.
pub proof fn law_no_rank_is_lost(found: Seq<Option<AuthoritativeCandidate>>, index: int)
    requires
        0 <= index < found.len(),
        found[index] is Some,
    ensures
        exists|at: int|
            0 <= at < collected(found).len() && (#[trigger] collected(found)[at]).rank
                >= found[index]->0.rank,
        forall|at: int|
            0 <= at < collected(found).len() ==> found.contains(
                Some(#[trigger] collected(found)[at]),
            ),
    decreases found.len(),
{
    let rest = found.drop_last();
    let before = collected(rest);
    let last = found.len() - 1;
    assert forall|at: int| 0 <= at < collected(found).len() implies found.contains(
        Some(#[trigger] collected(found)[at]),
    ) by {
        lemma_collected_were_found(found, at);
    }
    if found.last() is Some {
        let candidate = found.last()->0;
        let place = first_stable(before, candidate.rect) as int;
        law_first_look_agrees(before, candidate.rect);
        if index == last {
            if place >= before.len() {
                assert(collected(found)[before.len() as int] == candidate);
            } else {
                assert(collected(found)[place].rank >= candidate.rank);
            }
        } else {
            law_no_rank_is_lost(rest, index);
            let at = choose|at: int|
                0 <= at < before.len() && (#[trigger] before[at]).rank >= rest[index]->0.rank;
            assert(collected(found)[at].rank >= before[at].rank);
        }
    } else {
        law_no_rank_is_lost(rest, index);
        let at = choose|at: int|
            0 <= at < before.len() && (#[trigger] before[at]).rank >= rest[index]->0.rank;
        assert(collected(found)[at] == before[at]);
    }
}

/// A candidate that outranks every other one can be selected, and the element that is
/// selected has the highest rank of its look, which no other rectangle has.
pub proof fn law_the_highest_rank_is_selected(
    candidates: Seq<AuthoritativeCandidate>,
    at: int,
    found: Seq<Option<AuthoritativeCandidate>>,
    index: int,
    other: int,
)
    requires
        0 <= at < candidates.len(),
        forall|k: int|
            0 <= k < candidates.len() && k != at ==> (#[trigger] candidates[k]).rank
                < candidates[at].rank,
        is_selected(found, index),
        0 <= other < found.len(),
        found[other] is Some,
    ensures
        ranks_alone(candidates, at),
        found[index] is Some,
        found[other]->0.rank <= found[index]->0.rank,
        found[other] == found[index] ==> index <= other,
        forall|k: int|
            0 <= k < collected(found).len() && (#[trigger] collected(found)[k]).rank
                == found[index]->0.rank ==> collected(found)[k] == found[index]->0,
{
    law_no_rank_is_lost(found, other);
    let all = collected(found);
    let place = choose|place: int| ranks_alone(all, place) && all[place] == found[index]->0;
    let rival = choose|rival: int|
        0 <= rival < all.len() && (#[trigger] all[rival]).rank >= found[other]->0.rank;
    assert(rival == place || all[rival].rank < all[place].rank);
}

} // verus!
