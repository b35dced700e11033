//! The choice of the rectangle that shows shared content.

use vstd::prelude::*;

use crate::detector::exclusion::{
    law_little_is_excluded, trim_excluded_edge_regions, without_exclusions,
};
use crate::detector::margins::{refine_uniform_margins, uniform_margins};
use crate::detector::picture::{Picture, Pixels};
use crate::detector::projection::{between, is_between, ContentCandidate};
use crate::detector::teams::{
    detect_teams_candidate, refine_teams_rect, teams_candidate, teams_rect,
};
use crate::detector::visual::{detect_visual_candidate, visual_candidate};
use crate::geometry::PixelRect;
use crate::numeric::{max_int, max_u32, min_int, min_u32, min_u64};
use crate::single::{
    fraction, from_int, law_at_least_both_ways_is_equal, law_larger_shares_reach_smaller_ones,
    law_numbers_cancel, law_order_is_total, law_order_is_transitive,
    law_shares_are_compared_by_their_parts, law_small_integers_add, law_small_integers_are_in_order,
    law_small_integers_are_kept, law_whole_share_is_one, lemma_fractions_are_modest, ratio, whole,
    zero, Single,
};

verus! {

impl PixelRect {
    /// Share of the smaller of two rectangles that the other one covers.
    pub open spec fn overlap_share(self, other: Self) -> Single {
        let smaller = min_int(self.pixel_count(), other.pixel_count());
        match self.common_part(other) {
            Some(common) => if smaller == 0 {
                zero()
            } else {
                fraction(common.pixel_count() as nat, smaller as nat)
            },
            None => zero(),
        }
    }

    pub fn overlap_over_smaller(self, other: Self) -> (result: Single)
        ensures
            result == self.overlap_share(other),
    {
        let common = match self.intersection(other) {
            Some(common) => common,
            None => return from_int(0),
        };
        let smaller: u64 = min_u64(self.area(), other.area());
        if smaller == 0 {
            from_int(0)
        } else {
            ratio(common.area(), smaller)
        }
    }
}

/// What a rectangle gains by being neither small nor the whole picture.
pub open spec fn bonus_for(rect: PixelRect, width: u32, height: u32) -> Single {
    let share = fraction(rect.pixel_count() as nat, (width * height) as nat);
    if width * height == 0 {
        zero()
    } else if between(share, 16, 82) {
        fraction(8, 100).times(
            whole(1).minus(
                share.minus(fraction(48, 100)).absolute().over(fraction(48, 100)).smaller(whole(1)),
            ),
        )
    } else if fraction(96, 100).less(share) {
        fraction(10, 100).negated()
    } else {
        zero()
    }
}

pub fn specificity_bonus(rect: PixelRect, width: u32, height: u32) -> (result: Single)
    ensures
        result == bonus_for(rect, width, height),
{
    let area: u64 = PixelRect::new(0, 0, width, height).area();
    if area == 0 {
        return from_int(0);
    }
    let share = ratio(rect.area(), area);
    if is_between(share, 16, 82) {
        ratio(8, 100).mul(
            from_int(1).sub(
                share.sub(ratio(48, 100)).abs().div(ratio(48, 100)).min(from_int(1)),
            ),
        )
    } else if ratio(96, 100).lt(share) {
        ratio(10, 100).neg()
    } else {
        from_int(0)
    }
}

/// The rectangle lies inside a picture of this size, is large enough, not all of it, and no
/// strip.
pub open spec fn is_plausible(rect: PixelRect, width: u32, height: u32) -> bool {
    let share = fraction(rect.pixel_count() as nat, (width * height) as nat);
    &&& width > 0
    &&& height > 0
    &&& rect.width > 0
    &&& rect.height > 0
    &&& rect.x + rect.width <= width
    &&& rect.y + rect.height <= height
    &&& rect.width >= min_int(max_int(width as int / 7, 96), width as int)
    &&& rect.height >= min_int(max_int(height as int / 7, 54), height as int)
    &&& share.at_least(fraction(7, 100))
    &&& fraction(995, 1000).at_least(share)
    &&& between(fraction(rect.width as nat, rect.height as nat), 30, 650)
}

pub fn is_plausible_rect(rect: PixelRect, width: u32, height: u32) -> (result: bool)
    ensures
        result == is_plausible(rect, width, height),
{
    if width == 0 || height == 0 || rect.width == 0 || rect.height == 0 {
        return false;
    }
    if rect.x as u64 + rect.width as u64 > width as u64 || rect.y as u64 + rect.height as u64
        > height as u64 {
        return false;
    }
    let min_width: u32 = min_u32(max_u32(width / 7, 96), width);
    let min_height: u32 = min_u32(max_u32(height / 7, 54), height);
    if rect.width < min_width || rect.height < min_height {
        return false;
    }
    let share = ratio(rect.area(), PixelRect::new(0, 0, width, height).area());
    let aspect = ratio(rect.width as u64, rect.height as u64);
    share.ge(ratio(7, 100)) && ratio(995, 1000).ge(share) && is_between(aspect, 30, 650)
}

/// The better of what the pixels and the stage of Teams show.
pub open spec fn better_of(
    visual: Option<ContentCandidate>,
    teams: Option<ContentCandidate>,
) -> Option<ContentCandidate> {
    match (visual, teams) {
        (Some(first), Some(second)) => if second.confidence.at_least(first.confidence) || (
        first.rect.overlap_share(second.rect).at_least(fraction(72, 100))
            && second.rect.pixel_count() * 100 <= first.rect.pixel_count() * 97) {
            teams
        } else {
            visual
        },
        (Some(_), None) => visual,
        (None, _) => teams,
    }
}

pub fn choose_visual_candidate(
    visual: Option<ContentCandidate>,
    teams: Option<ContentCandidate>,
) -> (result: Option<ContentCandidate>)
    ensures
        result == better_of(visual, teams),
{
    match (visual, teams) {
        (Some(first), Some(second)) => {
            let overlap = first.rect.overlap_over_smaller(second.rect);
            let is_more_specific = second.rect.area() as u128 * 100 <= first.rect.area() as u128
                * 97;
            if second.confidence.ge(first.confidence) || (overlap.ge(ratio(72, 100))
                && is_more_specific) {
                Some(second)
            } else {
                Some(first)
            }
        },
        (Some(first), None) => Some(first),
        (None, other) => other,
    }
}

/// The rectangle that is left of one when the evidence, its margins and the exclusions at its
/// edges are taken into account.
pub open spec fn refined(
    picture: Pixels,
    rect: PixelRect,
    exclusions: Seq<PixelRect>,
) -> PixelRect {
    let first = uniform_margins(picture, teams_rect(picture, rect));
    let trimmed = without_exclusions(first, exclusions);
    uniform_margins(picture, teams_rect(picture, trimmed))
}

/// The refined rectangle, if it is plausible.
#[verifier::opaque]
pub open spec fn finalized(
    picture: Pixels,
    rect: PixelRect,
    exclusions: Seq<PixelRect>,
) -> Option<PixelRect> {
    let result = refined(picture, rect, exclusions);
    if is_plausible(result, picture.width, picture.height) {
        Some(result)
    } else {
        None
    }
}

/// Refines a rectangle, and gives it if it is plausible.
pub fn finalize_rect(picture: &Picture, rect: PixelRect, exclusions: &Vec<PixelRect>) -> (result:
    Option<PixelRect>)
    requires
        picture.well_formed(),
        picture@.holds(rect),
    ensures
        result == finalized(picture@, rect, exclusions@),
{
    reveal(finalized);
    let first = refine_uniform_margins(picture, refine_teams_rect(picture, rect));
    let trimmed = trim_excluded_edge_regions(first, exclusions);
    proof {
        law_little_is_excluded(first, exclusions@);
    }
    let result = refine_uniform_margins(picture, refine_teams_rect(picture, trimmed));
    if is_plausible_rect(result, picture.width, picture.height) {
        Some(result)
    } else {
        None
    }
}

/// The rectangles of the exclusions among the first candidates.
pub open spec fn excluded(candidates: Seq<ContentCandidate>, first: nat) -> Seq<PixelRect>
    decreases first,
{
    if first == 0 {
        Seq::empty()
    } else {
        let before = excluded(candidates, (first - 1) as nat);
        if candidates[first - 1].is_exclusion {
            before.push(candidates[first - 1].rect)
        } else {
            before
        }
    }
}

/// What a candidate gains from another one: something, where the two nearly agree.
pub open spec fn support(candidate: ContentCandidate, other: ContentCandidate) -> Option<Single> {
    let overlap = candidate.rect.overlap_share(other.rect);
    if !other.is_exclusion && candidate.rect != other.rect && overlap.at_least(
        fraction(82, 100),
    ) {
        Some(other.confidence.smaller(fraction(12, 100)).times(overlap))
    } else {
        None
    }
}

/// The score of a candidate with the support of the first candidates.
pub open spec fn supported(
    candidates: Seq<ContentCandidate>,
    candidate: ContentCandidate,
    base: Single,
    first: nat,
) -> Single
    decreases first,
{
    if first == 0 {
        base
    } else {
        let before = supported(candidates, candidate, base, (first - 1) as nat);
        match support(candidate, candidates[first - 1]) {
            Some(gain) => before.plus(gain),
            None => before,
        }
    }
}

/// The score of a candidate.
#[verifier::opaque]
pub open spec fn candidate_score(
    picture: Pixels,
    candidates: Seq<ContentCandidate>,
    candidate: ContentCandidate,
    visual: Option<ContentCandidate>,
) -> Single {
    let base = candidate.confidence.plus(
        bonus_for(candidate.rect, picture.width, picture.height),
    );
    let score = supported(candidates, candidate, base, candidates.len());
    match visual {
        Some(other) => {
            let overlap = candidate.rect.overlap_share(other.rect);
            if overlap.at_least(fraction(70, 100)) {
                score.plus(fraction(12, 100).times(other.confidence).times(overlap))
            } else {
                score
            }
        },
        None => score,
    }
}

/// A rectangle and its score.
#[derive(Clone, Copy, Debug, PartialEq, Eq, Structural)]
pub struct RatedRect {
    pub score: Single,
    pub rect: PixelRect,
}

/// A candidate that counts: sure enough, plausible and no exclusion.
pub open spec fn counts(picture: Pixels, candidate: ContentCandidate) -> bool {
    &&& !candidate.is_exclusion
    &&& candidate.confidence.at_least(fraction(55, 100))
    &&& is_plausible(candidate.rect, picture.width, picture.height)
}

/// The best of the first candidates, the earliest where several are as good.
pub open spec fn best_candidate(
    picture: Pixels,
    candidates: Seq<ContentCandidate>,
    visual: Option<ContentCandidate>,
    first: nat,
) -> Option<RatedRect>
    decreases first,
{
    if first == 0 {
        None
    } else {
        let best = best_candidate(picture, candidates, visual, (first - 1) as nat);
        let candidate = candidates[first - 1];
        let score = candidate_score(picture, candidates, candidate, visual);
        match finalized(picture, candidate.rect, excluded(candidates, candidates.len())) {
            Some(rect) => if counts(picture, candidate) && (best is None || best->0.score.less(
                score,
            )) {
                Some(RatedRect { score, rect })
            } else {
                best
            },
            None => best,
        }
    }
}

/// What the pixels show, by themselves or as a stage of Teams.
#[verifier::opaque]
pub open spec fn seen_candidate(picture: Pixels) -> Option<ContentCandidate> {
    better_of(visual_candidate(picture), teams_candidate(picture, picture.bounds()))
}

/// The rectangle that shows shared content: that of the best candidate, or, where that is
/// allowed, what the pixels surely show.
pub open spec fn content_rect(
    picture: Pixels,
    candidates: Seq<ContentCandidate>,
    allow_visual: bool,
) -> Option<PixelRect> {
    let visual = seen_candidate(picture);
    match best_candidate(picture, candidates, visual, candidates.len()) {
        Some(best) => Some(best.rect),
        None => match visual {
            Some(seen) => if allow_visual && seen.confidence.at_least(fraction(84, 100)) {
                finalized(picture, seen.rect, excluded(candidates, candidates.len()))
            } else {
                None
            },
            None => None,
        },
    }
}

fn gather_exclusions(candidates: &Vec<ContentCandidate>) -> (result: Vec<PixelRect>)
    ensures
        result@ == excluded(candidates@, candidates@.len()),
{
    let mut result: Vec<PixelRect> = Vec::new();
    let mut k: usize = 0;
    while k < candidates.len()
        invariant
            k <= candidates@.len(),
            result@ == excluded(candidates@, k as nat),
        decreases candidates.len() - k,
    {
        if candidates[k].is_exclusion {
            result.push(candidates[k].rect);
        }
        k += 1;
    }
    result
}

/// Scores a candidate.
pub fn score_candidate(
    picture: &Picture,
    candidates: &Vec<ContentCandidate>,
    candidate: ContentCandidate,
    visual: Option<ContentCandidate>,
) -> (result: Single)
    ensures
        result == candidate_score(picture@, candidates@, candidate, visual),
{
    reveal(candidate_score);
    let base = candidate.confidence.add(
        specificity_bonus(candidate.rect, picture.width, picture.height),
    );
    let mut score = base;
    let mut k: usize = 0;
    while k < candidates.len()
        invariant
            k <= candidates@.len(),
            score == supported(candidates@, candidate, base, k as nat),
        decreases candidates.len() - k,
    {
        let other = candidates[k];
        if !other.is_exclusion && candidate.rect != other.rect {
            let overlap = candidate.rect.overlap_over_smaller(other.rect);
            if overlap.ge(ratio(82, 100)) {
                score = score.add(other.confidence.min(ratio(12, 100)).mul(overlap));
            }
        }
        k += 1;
    }
    if let Some(other) = visual {
        let overlap = candidate.rect.overlap_over_smaller(other.rect);
        if overlap.ge(ratio(70, 100)) {
            score = score.add(ratio(12, 100).mul(other.confidence).mul(overlap));
        }
    }
    score
}

fn find_best_candidate(
    picture: &Picture,
    candidates: &Vec<ContentCandidate>,
    visual: Option<ContentCandidate>,
    exclusions: &Vec<PixelRect>,
) -> (result: Option<RatedRect>)
    requires
        picture.well_formed(),
        exclusions@ == excluded(candidates@, candidates@.len()),
    ensures
        result == best_candidate(picture@, candidates@, visual, candidates@.len()),
{
    let mut best: Option<RatedRect> = None;
    let mut k: usize = 0;
    while k < candidates.len()
        invariant
            picture.well_formed(),
            k <= candidates@.len(),
            exclusions@ == excluded(candidates@, candidates@.len()),
            best == best_candidate(picture@, candidates@, visual, k as nat),
        decreases candidates.len() - k,
    {
        let candidate = candidates[k];
        if !candidate.is_exclusion && candidate.confidence.ge(ratio(55, 100))
            && is_plausible_rect(candidate.rect, picture.width, picture.height) {
            let score = score_candidate(picture, candidates, candidate, visual);
            match finalize_rect(picture, candidate.rect, exclusions) {
                Some(rect) => {
                    let better = match &best {
                        Some(current) => current.score.lt(score),
                        None => true,
                    };
                    if better {
                        best = Some(RatedRect { score, rect });
                    }
                },
                None => {},
            }
        }
        k += 1;
    }
    best
}

/// Looks at the pixels of a picture.
fn see_candidate(picture: &Picture) -> (result: Option<ContentCandidate>)
    requires
        picture.well_formed(),
    ensures
        result == seen_candidate(picture@),
        result is Some ==> picture@.holds(result->0.rect),
{
    reveal(seen_candidate);
    let bounds = PixelRect::new(0, 0, picture.width, picture.height);
    choose_visual_candidate(
        detect_visual_candidate(picture),
        detect_teams_candidate(picture, bounds),
    )
}

/// Chooses the rectangle that shows shared content.
pub fn select_content_rect(
    picture: &Picture,
    candidates: &Vec<ContentCandidate>,
    allow_visual: bool,
) -> (result: Option<PixelRect>)
    requires
        picture.well_formed(),
    ensures
        result == content_rect(picture@, candidates@, allow_visual),
        result is Some ==> is_plausible(result->0, picture.width, picture.height),
{
    let visual = see_candidate(picture);
    let exclusions = gather_exclusions(candidates);
    proof {
        law_content_is_plausible(picture@, candidates@, allow_visual);
    }
    if let Some(best) = find_best_candidate(picture, candidates, visual, &exclusions) {
        return Some(best.rect);
    }
    match visual {
        Some(seen) => {
            if allow_visual && seen.confidence.ge(ratio(84, 100)) {
                finalize_rect(picture, seen.rect, &exclusions)
            } else {
                None
            }
        },
        None => None,
    }
}

proof fn lemma_best_is_plausible(
    picture: Pixels,
    candidates: Seq<ContentCandidate>,
    visual: Option<ContentCandidate>,
    first: nat,
)
    ensures
        ({
            let best = best_candidate(picture, candidates, visual, first);
            best is Some ==> is_plausible(best->0.rect, picture.width, picture.height)
        }),
    decreases first,
{
    reveal(finalized);
    if first > 0 {
        lemma_best_is_plausible(picture, candidates, visual, (first - 1) as nat);
    }
}

/// The rectangle that is chosen is plausible: it lies inside the picture, is large enough,
/// not all of it, and no strip.
pub proof fn law_content_is_plausible(
    picture: Pixels,
    candidates: Seq<ContentCandidate>,
    allow_visual: bool,
)
    ensures
        ({
            let result = content_rect(picture, candidates, allow_visual);
            result is Some ==> is_plausible(result->0, picture.width, picture.height)
        }),
{
    reveal(finalized);
    lemma_best_is_plausible(picture, candidates, seen_candidate(picture), candidates.len());
}

/// Where the pixels alone do not suffice, nothing is chosen without a candidate that counts.
pub proof fn law_strict_choice_needs_a_candidate(
    picture: Pixels,
    candidates: Seq<ContentCandidate>,
)
    requires
        forall|k: int| 0 <= k < candidates.len() ==> !counts(picture, #[trigger] candidates[k]),
    ensures
        content_rect(picture, candidates, false) is None,
{
    lemma_nothing_counts(picture, candidates, seen_candidate(picture), candidates.len());
}

proof fn lemma_nothing_counts(
    picture: Pixels,
    candidates: Seq<ContentCandidate>,
    visual: Option<ContentCandidate>,
    first: nat,
)
    requires
        first <= candidates.len(),
        forall|k: int| 0 <= k < candidates.len() ==> !counts(picture, #[trigger] candidates[k]),
    ensures
        best_candidate(picture, candidates, visual, first) is None,
    decreases first,
{
    if first > 0 {
        lemma_nothing_counts(picture, candidates, visual, (first - 1) as nat);
        assert(!counts(picture, candidates[first - 1]));
    }
}

/// The best of the first candidates, by its place: it counts, no other one that counts has
/// a higher score, and those before it have lower ones.
proof fn lemma_best_place(
    picture: Pixels,
    candidates: Seq<ContentCandidate>,
    visual: Option<ContentCandidate>,
    first: nat,
) -> (place: int)
    requires
        first <= candidates.len(),
    ensures
        ({
            let exclusions = excluded(candidates, candidates.len());
            match best_candidate(picture, candidates, visual, first) {
                Some(best) => {
                    &&& 0 <= place < first
                    &&& counts(picture, candidates[place])
                    &&& finalized(picture, candidates[place].rect, exclusions) == Some(best.rect)
                    &&& best.score == candidate_score(
                        picture,
                        candidates,
                        candidates[place],
                        visual,
                    )
                    &&& forall|k: int|
                        0 <= k < first && counts(picture, #[trigger] candidates[k]) && finalized(
                            picture,
                            candidates[k].rect,
                            exclusions,
                        ) is Some ==> {
                            let score = candidate_score(
                                picture,
                                candidates,
                                candidates[k],
                                visual,
                            );
                            best.score.at_least(score) && (k < place ==> score.less(best.score))
                        }
                },
                None => forall|k: int|
                    0 <= k < first && counts(picture, #[trigger] candidates[k]) ==> finalized(
                        picture,
                        candidates[k].rect,
                        exclusions,
                    ) is None,
            }
        }),
    decreases first,
{
    if first == 0 {
        return 0;
    }
    let exclusions = excluded(candidates, candidates.len());
    let before = best_candidate(picture, candidates, visual, (first - 1) as nat);
    let place = lemma_best_place(picture, candidates, visual, (first - 1) as nat);
    let last = candidates[first - 1];
    let score = candidate_score(picture, candidates, last, visual);
    let fits = counts(picture, last) && finalized(picture, last.rect, exclusions) is Some;
    if fits && (before is None || before->0.score.less(score)) {
        law_order_is_total(score, score);
        assert forall|k: int|
            0 <= k < first && counts(picture, #[trigger] candidates[k]) && finalized(
                picture,
                candidates[k].rect,
                exclusions,
            ) is Some implies score.at_least(
            candidate_score(picture, candidates, candidates[k], visual),
        ) && (k < first - 1 ==> candidate_score(
            picture,
            candidates,
            candidates[k],
            visual,
        ).less(score)) by {
            if k < first - 1 {
                let other = candidate_score(picture, candidates, candidates[k], visual);
                law_order_is_total(other, score);
                if other.at_least(score) {
                    law_order_is_transitive(before->0.score, other, score);
                }
            }
        }
        first - 1
    } else {
        place
    }
}

/// The candidate with the highest score gives the content, the earliest one where several
/// have it: whenever a candidate is no exclusion, sure enough, plausible and still plausible
/// once refined, the content is the refined rectangle of such a candidate whose score is at
/// least as high, and higher if it stands further back.
pub proof fn law_the_best_candidate_wins(
    picture: Pixels,
    candidates: Seq<ContentCandidate>,
    allow_visual: bool,
    at: int,
)
    requires
        0 <= at < candidates.len(),
        !candidates[at].is_exclusion,
        candidates[at].confidence.at_least(fraction(55, 100)),
        is_plausible(candidates[at].rect, picture.width, picture.height),
        is_plausible(
            refined(picture, candidates[at].rect, excluded(candidates, candidates.len())),
            picture.width,
            picture.height,
        ),
    ensures
        exists|k: int|
            {
                let seen = seen_candidate(picture);
                let best = candidate_score(picture, candidates, candidates[k], seen);
                let score = candidate_score(picture, candidates, candidates[at], seen);
                &&& 0 <= k < candidates.len()
                &&& !(#[trigger] candidates[k]).is_exclusion
                &&& candidates[k].confidence.at_least(fraction(55, 100))
                &&& is_plausible(candidates[k].rect, picture.width, picture.height)
                &&& content_rect(picture, candidates, allow_visual) == Some(
                    refined(picture, candidates[k].rect, excluded(candidates, candidates.len())),
                )
                &&& best.at_least(score)
                &&& at < k ==> score.less(best)
            },
{
    reveal(finalized);
    let place = lemma_best_place(
        picture,
        candidates,
        seen_candidate(picture),
        candidates.len(),
    );
    assert(counts(picture, candidates[at]));
    assert(counts(picture, candidates[place]));
}

/// Without the pixels' own word, the content is always that of a candidate that is no
/// exclusion, sure enough and plausible.
pub proof fn law_strict_content_is_of_a_candidate(
    picture: Pixels,
    candidates: Seq<ContentCandidate>,
)
    ensures
        content_rect(picture, candidates, false) is Some ==> exists|k: int|
            {
                &&& 0 <= k < candidates.len()
                &&& !(#[trigger] candidates[k]).is_exclusion
                &&& candidates[k].confidence.at_least(fraction(55, 100))
                &&& is_plausible(candidates[k].rect, picture.width, picture.height)
                &&& content_rect(picture, candidates, false) == Some(
                    refined(picture, candidates[k].rect, excluded(candidates, candidates.len())),
                )
            },
{
    reveal(finalized);
    let place = lemma_best_place(
        picture,
        candidates,
        seen_candidate(picture),
        candidates.len(),
    );
    if content_rect(picture, candidates, false) is Some {
        assert(counts(picture, candidates[place]));
    }
}

/// Exclusions, unsure candidates and implausible ones are never the content: where there is
/// nothing else, only pixels that are surer than all of them decide, and only where that is
/// allowed.
pub proof fn law_pixels_decide_only_by_themselves(
    picture: Pixels,
    candidates: Seq<ContentCandidate>,
    allow_visual: bool,
)
    requires
        forall|k: int|
            0 <= k < candidates.len() ==> (#[trigger] candidates[k]).is_exclusion
                || candidates[k].confidence.less(fraction(55, 100)) || !is_plausible(
                candidates[k].rect,
                picture.width,
                picture.height,
            ),
    ensures
        ({
            let seen = seen_candidate(picture);
            let result = content_rect(picture, candidates, allow_visual);
            &&& result is Some ==> {
                &&& allow_visual
                &&& seen is Some
                &&& seen->0.confidence.at_least(fraction(84, 100))
                &&& result == Some(
                    refined(picture, seen->0.rect, excluded(candidates, candidates.len())),
                )
            }
            &&& allow_visual && seen is Some && seen->0.confidence.at_least(fraction(84, 100))
                && is_plausible(
                refined(picture, seen->0.rect, excluded(candidates, candidates.len())),
                picture.width,
                picture.height,
            ) ==> result is Some
        }),
{
    reveal(finalized);
    lemma_nothing_counts(picture, candidates, seen_candidate(picture), candidates.len());
}

/// What is cut off by exclusions is exactly what the candidates exclude, in their order.
pub proof fn law_exclusions_are_gathered(candidates: Seq<ContentCandidate>, at: int)
    requires
        0 <= at < candidates.len(),
    ensures
        candidates[at].is_exclusion ==> excluded(candidates, candidates.len()).contains(
            candidates[at].rect,
        ),
        forall|rect: PixelRect| #[trigger]
            excluded(candidates, candidates.len()).contains(rect) ==> exists|k: int|
                0 <= k < candidates.len() && (#[trigger] candidates[k]).is_exclusion
                    && candidates[k].rect == rect,
{
    lemma_excluded(candidates, candidates.len(), at);
}

proof fn lemma_excluded(candidates: Seq<ContentCandidate>, first: nat, at: int)
    requires
        first <= candidates.len(),
    ensures
        0 <= at < first && candidates[at].is_exclusion ==> excluded(candidates, first).contains(
            candidates[at].rect,
        ),
        forall|rect: PixelRect| #[trigger]
            excluded(candidates, first).contains(rect) ==> exists|k: int|
                0 <= k < first && (#[trigger] candidates[k]).is_exclusion && candidates[k].rect
                    == rect,
    decreases first,
{
    if first > 0 {
        let last = candidates[first - 1];
        let before = excluded(candidates, (first - 1) as nat);
        lemma_excluded(candidates, (first - 1) as nat, at);
        if last.is_exclusion {
            let now = before.push(last.rect);
            assert(now[now.len() - 1] == last.rect);
            assert forall|rect: PixelRect| now.contains(rect) implies before.contains(rect) || rect
                == last.rect by {
                let i = choose|i: int| 0 <= i < now.len() && now[i] == rect;
                if i < before.len() {
                    assert(before[i] == rect);
                }
            }
            assert forall|rect: PixelRect| before.contains(rect) implies now.contains(rect) by {
                let i = choose|i: int| 0 <= i < before.len() && before[i] == rect;
                assert(now[i] == rect);
            }
        }
    }
}

/// Where nothing else speaks for a candidate, its score is its confidence and what its size
/// is worth. Exclusions, the candidate itself and candidates that do not overlap it nearly
/// wholly add nothing; one that does adds its confidence, but at most 0.12, by the share of
/// the overlap.
pub proof fn law_agreement_raises_the_score(
    picture: Pixels,
    candidates: Seq<ContentCandidate>,
    candidate: ContentCandidate,
    other: ContentCandidate,
)
    ensures
        candidate_score(picture, Seq::empty(), candidate, None) == candidate.confidence.plus(
            bonus_for(candidate.rect, picture.width, picture.height),
        ),
        ({
            let overlap = candidate.rect.overlap_share(other.rect);
            let alone = candidate_score(picture, candidates, candidate, None);
            let joined = candidate_score(picture, candidates.push(other), candidate, None);
            if other.is_exclusion || candidate.rect == other.rect || overlap.less(
                fraction(82, 100),
            ) {
                joined == alone
            } else {
                joined == alone.plus(other.confidence.smaller(fraction(12, 100)).times(overlap))
            }
        }),
{
    reveal(candidate_score);
    let base = candidate.confidence.plus(bonus_for(candidate.rect, picture.width, picture.height));
    let longer = candidates.push(other);
    lemma_supported_by_the_first(candidates, longer, candidate, base, candidates.len());
    assert(longer[longer.len() - 1] == other);
}

proof fn lemma_supported_by_the_first(
    candidates: Seq<ContentCandidate>,
    longer: Seq<ContentCandidate>,
    candidate: ContentCandidate,
    base: Single,
    first: nat,
)
    requires
        first <= candidates.len() <= longer.len(),
        forall|k: int| 0 <= k < candidates.len() ==> candidates[k] == longer[k],
    ensures
        supported(candidates, candidate, base, first) == supported(longer, candidate, base, first),
    decreases first,
{
    if first > 0 {
        lemma_supported_by_the_first(candidates, longer, candidate, base, (first - 1) as nat);
    }
}

/// What the pixels show speaks for a candidate where the two agree, and never against one.
pub proof fn law_pixels_support_what_they_show(
    picture: Pixels,
    candidates: Seq<ContentCandidate>,
    candidate: ContentCandidate,
    seen: ContentCandidate,
)
    ensures
        ({
            let overlap = candidate.rect.overlap_share(seen.rect);
            let alone = candidate_score(picture, candidates, candidate, None);
            let backed = candidate_score(picture, candidates, candidate, Some(seen));
            if overlap.less(fraction(70, 100)) {
                backed == alone
            } else {
                backed == alone.plus(fraction(12, 100).times(seen.confidence).times(overlap))
            }
        }),
{
    reveal(candidate_score);
}

/// A rectangle of nearly the whole picture loses by its size, a very small one gains
/// nothing, and one of a picture without pixels neither.
pub proof fn law_size_is_worth_something(rect: PixelRect, width: u32, height: u32)
    ensures
        ({
            let share = fraction(rect.pixel_count() as nat, (width * height) as nat);
            let bonus = bonus_for(rect, width, height);
            &&& width * height > 0 && fraction(96, 100).less(share) && !between(share, 16, 82)
                ==> bonus == fraction(10, 100).negated()
            &&& share.less(fraction(16, 100)) && fraction(96, 100).at_least(share) ==> bonus
                == zero()
            &&& fraction(82, 100).less(share) && fraction(96, 100).at_least(share) ==> bonus
                == zero()
            &&& width * height == 0 ==> bonus == zero()
        }),
{
}

/// How far two rectangles overlap does not depend on their order, and rectangles without a
/// common part do not overlap at all.
pub proof fn law_overlap_is_mutual(first: PixelRect, second: PixelRect)
    ensures
        first.overlap_share(second) == second.overlap_share(first),
        first.x + first.width <= second.x || first.y + first.height <= second.y
            ==> first.overlap_share(second) == zero(),
{
    crate::geometry::law_intersection_commutes(first, second);
}

/// Of what the pixels and the stage show, one of the two is taken; the stage where it is
/// surer, the pixels where they are surer and the stage is not a part of what they show.
pub proof fn law_the_surer_view_is_taken(
    visual: Option<ContentCandidate>,
    teams: Option<ContentCandidate>,
)
    ensures
        better_of(visual, teams) == visual || better_of(visual, teams) == teams,
        better_of(visual, teams) is None ==> visual is None && teams is None,
        visual is Some && teams is Some && teams->0.confidence.at_least(visual->0.confidence)
            ==> better_of(visual, teams) == teams,
        visual is Some && teams is Some && teams->0.confidence.less(visual->0.confidence)
            && visual->0.rect.overlap_share(teams->0.rect).less(fraction(72, 100)) ==> better_of(
            visual,
            teams,
        ) == visual,
        visual is Some && teams is Some && teams->0.confidence.less(visual->0.confidence)
            && teams->0.rect.pixel_count() * 100 > visual->0.rect.pixel_count() * 97 ==> better_of(
            visual,
            teams,
        ) == visual,
{
}

/// A plausible rectangle lies inside the picture, has at least a seventh of its sides, at
/// least 96 by 54 pixels where the picture has them, and is neither a strip nor, by more
/// than rounding, all of the picture.
pub proof fn law_plausible_rectangles_are_usable(rect: PixelRect, width: u32, height: u32)
    requires
        is_plausible(rect, width, height),
    ensures
        rect.width > 0 && rect.height > 0,
        rect.x + rect.width <= width,
        rect.y + rect.height <= height,
        7 * rect.width > width - 7,
        7 * rect.height > height - 7,
        rect.width >= 96 || rect.width == width,
        rect.height >= 54 || rect.height == height,
        !fraction(rect.pixel_count() as nat, (width * height) as nat).less(fraction(7, 100)),
        !fraction(995, 1000).less(fraction(rect.pixel_count() as nat, (width * height) as nat)),
        between(fraction(rect.width as nat, rect.height as nat), 30, 650),
{
}

/// A rectangle between 0.16 and 0.82 of the picture never loses by its size.
pub proof fn law_middle_sizes_never_lose(rect: PixelRect, width: u32, height: u32)
    requires
        between(fraction(rect.pixel_count() as nat, (width * height) as nat), 16, 82),
    ensures
        !bonus_for(rect, width, height).negative,
        bonus_for(rect, width, height).at_least(zero()),
{
    let share = fraction(rect.pixel_count() as nat, (width * height) as nat);
    crate::single::law_fractions_are_not_negative(8, 100);
    crate::single::law_capped_part_leaves_no_debt(
        share.minus(fraction(48, 100)).absolute().over(fraction(48, 100)),
        fraction(8, 100),
    );
    crate::single::law_order_of_zero(bonus_for(rect, width, height));
}

/// All of a picture is never plausible content.
pub proof fn law_the_whole_picture_is_not_plausible(width: u32, height: u32)
    ensures
        !is_plausible(PixelRect { x: 0, y: 0, width, height }, width, height),
{
    let area = (width * height) as nat;
    if width > 0 && height > 0 {
        assert(0 < width * height <= u32::MAX * u32::MAX) by (nonlinear_arith)
            requires
                0 < width <= u32::MAX,
                0 < height <= u32::MAX,
        ;
        crate::single::law_whole_share_is_one(area);
        crate::single::law_nearly_all_is_less();
    }
}

/// A rectangle inside the picture with a seventh of its sides, at least 96 by 54 pixels, a
/// share between 7 and 99 hundredths and no strip is plausible.
pub proof fn law_ordinary_rectangles_are_plausible(rect: PixelRect, width: u32, height: u32)
    requires
        0 < width * height < 0x100_0000,
        rect.x + rect.width <= width,
        rect.y + rect.height <= height,
        rect.width >= 96,
        rect.height >= 54,
        7 * rect.width >= width,
        7 * rect.height >= height,
        rect.pixel_count() < 0x100_0000,
        rect.pixel_count() * 100 >= width * height * 7,
        rect.pixel_count() * 100 <= width * height * 99,
        rect.width * 10 >= rect.height * 3,
        rect.width * 2 <= rect.height * 13,
        rect.width < 0x100_0000,
        rect.height < 0x100_0000,
    ensures
        is_plausible(rect, width, height),
{
    let all = (width * height) as nat;
    let part = rect.pixel_count() as nat;
    assert(rect.pixel_count() >= 0) by (nonlinear_arith)
        requires
            rect.pixel_count() == rect.width * rect.height,
    ;
    law_larger_shares_reach_smaller_ones(7, 100, part, all);
    assert(part * 1000 <= 995 * all) by (nonlinear_arith)
        requires
            part * 100 <= all * 99,
    ;
    law_larger_shares_reach_smaller_ones(part, all, 995, 1000);
    law_larger_shares_reach_smaller_ones(30, 100, rect.width as nat, rect.height as nat);
    law_larger_shares_reach_smaller_ones(rect.width as nat, rect.height as nat, 650, 100);
}

/// A rectangle is refined by the stage and its margins before and after the exclusions are cut
/// off: where neither finds anything, the exclusions alone decide, and without exclusions the
/// two are applied twice.
pub proof fn law_refining_cuts_exclusions_between(
    picture: Pixels,
    rect: PixelRect,
    exclusions: Seq<PixelRect>,
)
    ensures
        (forall|any: PixelRect|
            #[trigger] teams_rect(picture, any) == any && uniform_margins(picture, any) == any)
            ==> refined(picture, rect, exclusions) == without_exclusions(rect, exclusions),
        ({
            let once = uniform_margins(picture, teams_rect(picture, rect));
            refined(picture, rect, Seq::empty()) == uniform_margins(
                picture,
                teams_rect(picture, once),
            )
        }),
        ({
            let once = uniform_margins(picture, teams_rect(picture, rect));
            let cut = without_exclusions(once, exclusions);
            teams_rect(picture, cut) == cut && uniform_margins(picture, cut) == cut ==> refined(
                picture,
                rect,
                exclusions,
            ) == cut
        }),
{
    if forall|any: PixelRect|
        #[trigger] teams_rect(picture, any) == any && uniform_margins(picture, any) == any {
        assert(teams_rect(picture, rect) == rect);
        let cut = without_exclusions(rect, exclusions);
        assert(teams_rect(picture, cut) == cut);
    }
}

/// The usual size, 48 hundredths of the picture, is worth 8 hundredths.
pub proof fn law_the_usual_size_is_worth_most(rect: PixelRect, width: u32, height: u32)
    requires
        0 < width * height < 0x100_0000,
        rect.pixel_count() < 0x100_0000,
        rect.pixel_count() * 100 == width * height * 48,
    ensures
        bonus_for(rect, width, height) == fraction(8, 100),
{
    let all = (width * height) as nat;
    let part = rect.pixel_count() as nat;
    assert(rect.pixel_count() >= 0) by (nonlinear_arith)
        requires
            rect.pixel_count() == rect.width * rect.height,
    ;
    let share = fraction(part, all);
    let usual = fraction(48, 100);
    law_larger_shares_reach_smaller_ones(part, all, 48, 100);
    law_larger_shares_reach_smaller_ones(48, 100, part, all);
    lemma_fractions_are_modest(part, all);
    lemma_fractions_are_modest(48, 100);
    lemma_fractions_are_modest(8, 100);
    law_at_least_both_ways_is_equal(share, usual);
    law_shares_are_compared_by_their_parts(48, 16, 100);
    law_shares_are_compared_by_their_parts(82, 48, 100);
    law_numbers_cancel(usual);
    law_numbers_cancel(fraction(8, 100));
    law_small_integers_are_kept(0);
    law_small_integers_are_kept(1);
    law_small_integers_are_in_order(0, 1);
    law_small_integers_add(1, 0);
    assert(zero().absolute() == zero());
    assert(zero().smaller(whole(1)) == zero());
    assert(whole(1).minus(zero()) == whole(1));
}

/// A rectangle inside another overlaps it wholly, and so does a rectangle itself.
pub proof fn law_inner_rectangles_overlap_wholly(inner: PixelRect, outer: PixelRect)
    requires
        inner.lies_in(outer),
        inner.width > 0,
        inner.height > 0,
        outer.x + outer.width <= u32::MAX,
        outer.y + outer.height <= u32::MAX,
    ensures
        inner.overlap_share(outer) == whole(1),
        outer.overlap_share(inner) == whole(1),
        inner.overlap_share(inner) == whole(1),
{
    law_overlap_is_mutual(inner, outer);
    assert(inner.common_part(outer) == Some(inner));
    assert(inner.common_part(inner) == Some(inner));
    let a = inner.pixel_count();
    assert(0 < a <= outer.pixel_count() && a <= u32::MAX * u32::MAX) by (nonlinear_arith)
        requires
            a == inner.width * inner.height,
            outer.pixel_count() == outer.width * outer.height,
            0 < inner.width <= outer.width <= u32::MAX,
            0 < inner.height <= outer.height <= u32::MAX,
    ;
    law_whole_share_is_one(a as nat);
}

/// A part of what the pixels show that is clearly smaller is taken although they are surer.
pub proof fn law_the_more_specific_view_is_taken(visual: ContentCandidate, teams: ContentCandidate)
    requires
        visual.rect.overlap_share(teams.rect).at_least(fraction(72, 100)),
        teams.rect.pixel_count() * 100 <= visual.rect.pixel_count() * 97,
    ensures
        better_of(Some(visual), Some(teams)) == Some(teams),
{
}

} // verus!
