//! Content found in the pixels alone: a connected component or a projection.

use vstd::prelude::*;

use crate::detector::analysis::{analysis_of, Analysis, AnalysisFrame};
use crate::detector::edges::{
    law_moved_edges_stay_inside, refine_projected_edges, snapped_to_edges,
};
use crate::detector::mask::{connected_components, Component};
use crate::detector::picture::{Picture, Pixels, MOST_SMALL_ROWS};
use crate::detector::projection::{
    between, detect_projection_candidate, enlarged, is_between, law_parts_count_with_their_weight,
    lemma_area_is_positive, lemma_enlarged_lies_inside, projected_content, scale_rect, weigh,
    weighted, ContentCandidate,
};
use crate::geometry::PixelRect;
use crate::numeric::{max_int, max_u32};
use crate::single::{
    fraction, from_int, is_modest, law_adding_keeps_the_order, law_larger_shares_reach_smaller_ones,
    law_order_is_total, law_order_is_transitive, law_shares_are_compared_by_their_parts,
    lemma_fractions_are_modest, lemma_half_of_a_length, lemma_naturals_are_modest,
    lemma_nothing_off_the_middle, lemma_results_are_modest, lemma_sums_are_modest,
    lemma_zero_is_modest, ratio, whole, zero, Single,
};

verus! {

impl Component {
    /// The component lies inside a picture of the given size.
    pub open spec fn lies_in(self, width: int, height: int) -> bool {
        &&& self.min_x <= self.max_x < width
        &&& self.min_y <= self.max_y < height
    }

    /// The bounds of the component.
    pub open spec fn bounds(self) -> PixelRect {
        PixelRect {
            x: self.min_x,
            y: self.min_y,
            width: (self.max_x - self.min_x + 1) as u32,
            height: (self.max_y - self.min_y + 1) as u32,
        }
    }
}

/// Share of the bounds that the component fills.
pub open spec fn component_fill(component: Component) -> Single {
    fraction(component.pixel_count as nat, component.bounds().pixel_count() as nat)
}

/// Share of the picture that the bounds take.
pub open spec fn component_share(analysis: Analysis, component: Component) -> Single {
    fraction(
        component.bounds().pixel_count() as nat,
        (analysis.width * analysis.height) as nat,
    )
}

/// The component is large, filled and no strip, and stands clear of the picture's edges.
pub open spec fn is_content_component(analysis: Analysis, component: Component) -> bool {
    let bounds = component.bounds();
    let margin_x = max_int(analysis.width as int / 40, 1);
    let margin_y = max_int(analysis.height as int / 40, 1);
    &&& between(component_share(analysis, component), 12, 86)
    &&& component_fill(component).at_least(fraction(72, 100))
    &&& between(fraction(bounds.width as nat, bounds.height as nat), 35, 600)
    &&& component.min_x > margin_x
    &&& component.min_y > margin_y
    &&& component.max_x + margin_x < analysis.width - 1
    &&& component.max_y + margin_y < analysis.height - 1
}

/// Distance of the middle of a stretch from the middle of the whole, up to one.
pub open spec fn off_center(low: int, high: int, length: nat) -> Single {
    whole((low + high + 1) as nat).over(whole(2)).over(whole(length)).minus(
        fraction(50, 100),
    ).absolute().times(whole(2))
}

fn measure_off_center(low: u32, high: u32, length: u32) -> (result: Single)
    ensures
        result == off_center(low as int, high as int, length as nat),
{
    from_int(low as u64 + high as u64 + 1).div(from_int(2)).div(from_int(length as u64)).sub(
        ratio(50, 100),
    ).abs().mul(from_int(2))
}

/// How near the middle of the picture a component stands.
pub open spec fn centrality(analysis: Analysis, component: Component) -> Single {
    let dx = off_center(component.min_x as int, component.max_x as int, analysis.width as nat);
    let dy = off_center(component.min_y as int, component.max_y as int, analysis.height as nat);
    whole(1).minus(
        dx.times(dx).plus(dy.times(dy)).root().over(whole(2).root()).held(zero(), whole(1)),
    )
}

/// How sure a component is.
pub open spec fn component_confidence(analysis: Analysis, component: Component) -> Single {
    fraction(42, 100).plus(weighted(component_fill(component), 24)).plus(
        centrality(analysis, component).times(fraction(18, 100)),
    ).plus(weighted(component_share(analysis, component).over(fraction(60, 100)), 16))
}

/// The candidate that a component gives.
pub open spec fn component_candidate(
    picture: Pixels,
    analysis: Analysis,
    component: Component,
) -> Option<ContentCandidate> {
    if is_content_component(analysis, component) {
        Some(
            ContentCandidate::held(
                snapped_to_edges(picture, enlarged(component.bounds(), picture, analysis)),
                component_confidence(analysis, component),
            ),
        )
    } else {
        None
    }
}

/// The surest candidate among the first components, the earliest where several are as sure.
pub open spec fn best_component(
    picture: Pixels,
    analysis: Analysis,
    components: Seq<Component>,
    first: nat,
) -> Option<ContentCandidate>
    decreases first,
{
    if first == 0 {
        None
    } else {
        let best = best_component(picture, analysis, components, (first - 1) as nat);
        let candidate = component_candidate(picture, analysis, components[first - 1]);
        if candidate is Some && (best is None || best->0.confidence.less(
            candidate->0.confidence,
        )) {
            candidate
        } else {
            best
        }
    }
}

/// The candidate that the connected components of the small copy give.
pub open spec fn component_content(picture: Pixels, analysis: Analysis) -> Option<ContentCandidate> {
    let components = analysis.active.survey();
    best_component(picture, analysis, components, components.len())
}

fn rate_component(picture: &Picture, frame: &AnalysisFrame, component: Component) -> (result: Option<
    ContentCandidate,
>)
    requires
        picture.well_formed(),
        frame.well_formed(),
        picture.width > 0,
        picture.height > 0,
        component.lies_in(frame.width as int, frame.height as int),
    ensures
        result == component_candidate(picture@, frame@, component),
{
    let bounds = PixelRect::new(
        component.min_x,
        component.min_y,
        component.max_x - component.min_x + 1,
        component.max_y - component.min_y + 1,
    );
    proof {
        lemma_area_is_positive(bounds.width as int, bounds.height as int);
        lemma_area_is_positive(frame.width as int, frame.height as int);
    }
    let area: u64 = bounds.area();
    let share = ratio(area, frame.width as u64 * frame.height as u64);
    let fill = ratio(component.pixel_count as u64, area);
    let aspect = ratio(bounds.width as u64, bounds.height as u64);
    if !is_between(share, 12, 86) || fill.lt(ratio(72, 100)) || !is_between(aspect, 35, 600) {
        return None;
    }
    let margin_x: u32 = max_u32(frame.width / 40, 1);
    let margin_y: u32 = max_u32(frame.height / 40, 1);
    if component.min_x <= margin_x || component.min_y <= margin_y || component.max_x + margin_x
        >= frame.width - 1 || component.max_y + margin_y >= frame.height - 1 {
        return None;
    }
    let dx = measure_off_center(component.min_x, component.max_x, frame.width);
    let dy = measure_off_center(component.min_y, component.max_y, frame.height);
    let central = from_int(1).sub(
        dx.mul(dx).add(dy.mul(dy)).sqrt().div(from_int(2).sqrt()).clamp(from_int(0), from_int(1)),
    );
    let confidence = ratio(42, 100).add(weigh(fill, 24)).add(central.mul(ratio(18, 100))).add(
        weigh(share.div(ratio(60, 100)), 16),
    );
    let rect = refine_projected_edges(picture, scale_rect(bounds, picture, frame));
    Some(ContentCandidate::new(rect, confidence))
}

/// Looks for content among the connected components of the small copy.
pub fn detect_component_candidate(picture: &Picture, frame: &AnalysisFrame) -> (result: Option<
    ContentCandidate,
>)
    requires
        picture.well_formed(),
        frame.well_formed(),
        picture.width > 0,
        picture.height > 0,
    ensures
        result == component_content(picture@, frame@),
        result is Some ==> picture@.holds(result->0.rect),
{
    let components = connected_components(&frame.active);
    let mut best: Option<ContentCandidate> = None;
    let mut k: usize = 0;
    while k < components.len()
        invariant
            picture.well_formed(),
            frame.well_formed(),
            picture.width > 0,
            picture.height > 0,
            k <= components@.len(),
            forall|i: int|
                0 <= i < components@.len() ==> (#[trigger] components@[i]).lies_in(
                    frame.width as int,
                    frame.height as int,
                ),
            best == best_component(picture@, frame@, components@, k as nat),
        decreases components.len() - k,
    {
        match rate_component(picture, frame, components[k]) {
            Some(candidate) => {
                let better = match &best {
                    Some(current) => current.confidence.lt(candidate.confidence),
                    None => true,
                };
                if better {
                    best = Some(candidate);
                }
            },
            None => {},
        }
        k += 1;
    }
    proof {
        lemma_best_component_lies_inside(picture@, frame@, components@, components@.len());
    }
    best
}

/// The better of a component and a projection: the projection, unless the component is surer
/// and not much larger.
pub open spec fn preferred(
    component: Option<ContentCandidate>,
    projection: Option<ContentCandidate>,
) -> Option<ContentCandidate> {
    match (component, projection) {
        (Some(first), Some(second)) => if second.confidence.at_least(first.confidence)
            || second.rect.pixel_count() * 100 <= first.rect.pixel_count() * 96 {
            projection
        } else {
            component
        },
        (Some(_), None) => component,
        (None, _) => projection,
    }
}

/// The content that the pixels of a picture show.
pub open spec fn visual_candidate(picture: Pixels) -> Option<ContentCandidate> {
    match analysis_of(picture) {
        Some(analysis) => preferred(
            component_content(picture, analysis),
            projected_content(picture, analysis),
        ),
        None => None,
    }
}

/// Looks for content in the pixels of a picture.
pub fn detect_visual_candidate(picture: &Picture) -> (result: Option<ContentCandidate>)
    requires
        picture.well_formed(),
    ensures
        result == visual_candidate(picture@),
        result is Some ==> picture@.holds(result->0.rect),
{
    let frame = match AnalysisFrame::new(picture) {
        Some(frame) => frame,
        None => return None,
    };
    let component = detect_component_candidate(picture, &frame);
    let projection = detect_projection_candidate(picture, &frame);
    match (component, projection) {
        (Some(first), Some(second)) => {
            if second.confidence.ge(first.confidence) || second.rect.area() as u128 * 100
                <= first.rect.area() as u128 * 96 {
                Some(second)
            } else {
                Some(first)
            }
        },
        (Some(first), None) => Some(first),
        (None, other) => other,
    }
}

proof fn lemma_best_component_lies_inside(
    picture: Pixels,
    analysis: Analysis,
    components: Seq<Component>,
    first: nat,
)
    requires
        picture.width > 0,
        picture.height > 0,
        analysis.width <= MOST_SMALL_ROWS,
        analysis.height <= MOST_SMALL_ROWS,
        first <= components.len(),
        forall|i: int|
            0 <= i < components.len() ==> (#[trigger] components[i]).lies_in(
                analysis.width,
                analysis.height,
            ),
    ensures
        ({
            let best = best_component(picture, analysis, components, first);
            best is Some ==> picture.holds(best->0.rect)
        }),
    decreases first,
{
    if first > 0 {
        lemma_best_component_lies_inside(picture, analysis, components, (first - 1) as nat);
        let component = components[first - 1];
        lemma_enlarged_lies_inside(component.bounds(), picture, analysis);
        law_moved_edges_stay_inside(picture, enlarged(component.bounds(), picture, analysis));
    }
}

/// Of a component and a projection one is taken, and where there is one only, that one. The
/// projection is taken where it is as sure, or clearly smaller; the component only where it
/// is surer and not clearly larger.
pub proof fn law_one_of_two_views_is_taken(
    component: Option<ContentCandidate>,
    projection: Option<ContentCandidate>,
)
    ensures
        preferred(component, projection) is None <==> component is None && projection is None,
        component is None ==> preferred(component, projection) == projection,
        projection is None ==> preferred(component, projection) == component,
        component is Some && projection is Some ==> preferred(component, projection) == component
            || preferred(component, projection) == projection,
        component is Some && projection is Some && projection->0.confidence.at_least(
            component->0.confidence,
        ) ==> preferred(component, projection) == projection,
        component is Some && projection is Some && projection->0.rect.pixel_count() * 25
            <= component->0.rect.pixel_count() * 24 ==> preferred(component, projection)
            == projection,
        component is Some && projection is Some && projection->0.confidence.less(
            component->0.confidence,
        ) && projection->0.rect.pixel_count() * 25 > component->0.rect.pixel_count() * 24
            ==> preferred(component, projection) == component,
{
}

/// The surest component is taken: it is one of them, and none of them is surer; there is none
/// exactly where no component counts as content.
pub proof fn law_the_surest_component_is_taken(
    picture: Pixels,
    analysis: Analysis,
    components: Seq<Component>,
    first: nat,
)
    requires
        first <= components.len(),
    ensures
        ({
            let best = best_component(picture, analysis, components, first);
            &&& best is Some <==> exists|k: int|
                0 <= k < first && component_candidate(
                    picture,
                    analysis,
                    #[trigger] components[k],
                ) is Some
            &&& best is Some ==> exists|k: int|
                0 <= k < first && component_candidate(picture, analysis, #[trigger] components[k])
                    == best
            &&& forall|k: int|
                0 <= k < first && component_candidate(
                    picture,
                    analysis,
                    #[trigger] components[k],
                ) is Some ==> best->0.confidence.at_least(
                    component_candidate(picture, analysis, components[k])->0.confidence,
                )
        }),
    decreases first,
{
    if first > 0 {
        law_the_surest_component_is_taken(picture, analysis, components, (first - 1) as nat);
        let before = best_component(picture, analysis, components, (first - 1) as nat);
        let best = best_component(picture, analysis, components, first);
        let last = component_candidate(picture, analysis, components[first - 1]);
        assert forall|k: int|
            0 <= k < first && component_candidate(
                picture,
                analysis,
                #[trigger] components[k],
            ) is Some implies best->0.confidence.at_least(
            component_candidate(picture, analysis, components[k])->0.confidence,
        ) by {
            let other = component_candidate(picture, analysis, components[k])->0.confidence;
            law_order_is_total(other, other);
            if k < first - 1 && best == last && before is Some && before->0.confidence.less(
                last->0.confidence,
            ) {
                law_order_is_total(before->0.confidence, last->0.confidence);
                law_order_is_transitive(last->0.confidence, before->0.confidence, other);
            }
        }
    }
}

/// A component that counts as content stands clear of the edges, and gives a candidate; one
/// at an edge gives none.
pub proof fn law_components_at_the_edges_are_no_content(
    picture: Pixels,
    analysis: Analysis,
    component: Component,
)
    ensures
        component_candidate(picture, analysis, component) is Some <==> is_content_component(
            analysis,
            component,
        ),
        component.min_x <= 1 || component.min_y <= 1 ==> !is_content_component(
            analysis,
            component,
        ),
        component.max_x + 2 >= analysis.width || component.max_y + 2 >= analysis.height
            ==> !is_content_component(analysis, component),
        40 * component.min_x <= analysis.width - 40 || 40 * component.min_y <= analysis.height
            - 40 ==> !is_content_component(analysis, component),
{
}

/// Content fills its bounds to 72 hundredths, takes between 12 and 86 hundredths of the picture,
/// is no strip, and stands a 40th of the picture clear of every edge.
pub proof fn law_large_filled_components_are_content(analysis: Analysis, component: Component)
    requires
        0 < analysis.width * analysis.height < 0x100_0000,
        component.min_x <= component.max_x < analysis.width,
        component.min_y <= component.max_y < analysis.height,
        component.bounds().pixel_count() < 0x100_0000,
        component.pixel_count < 0x100_0000,
        component.bounds().width < 0x100_0000,
        component.bounds().height < 0x100_0000,
        component.bounds().pixel_count() * 100 >= analysis.width * analysis.height * 12,
        component.bounds().pixel_count() * 100 <= analysis.width * analysis.height * 86,
        component.pixel_count * 100 >= component.bounds().pixel_count() * 72,
        component.bounds().width * 100 >= component.bounds().height * 35,
        component.bounds().width <= component.bounds().height * 6,
        component.min_x > 1 && 40 * component.min_x > analysis.width,
        component.min_y > 1 && 40 * component.min_y > analysis.height,
        component.max_x + 2 < analysis.width && 40 * (component.max_x + 1) < 39 * analysis.width,
        component.max_y + 2 < analysis.height && 40 * (component.max_y + 1) < 39
            * analysis.height,
    ensures
        is_content_component(analysis, component),
{
    let bounds = component.bounds();
    assert(bounds.width > 0 && bounds.height > 0);
    let area = bounds.pixel_count() as nat;
    assert(bounds.pixel_count() > 0) by (nonlinear_arith)
        requires
            bounds.pixel_count() == bounds.width * bounds.height,
            bounds.width > 0,
            bounds.height > 0,
    ;
    let all = (analysis.width * analysis.height) as nat;
    law_larger_shares_reach_smaller_ones(12, 100, area, all);
    law_larger_shares_reach_smaller_ones(area, all, 86, 100);
    law_larger_shares_reach_smaller_ones(72, 100, component.pixel_count as nat, area);
    law_larger_shares_reach_smaller_ones(35, 100, bounds.width as nat, bounds.height as nat);
    law_larger_shares_reach_smaller_ones(bounds.width as nat, bounds.height as nat, 600, 100);
}

/// The bounds of a component reach from its first to its last column and row.
pub proof fn law_bounds_reach_from_first_to_last(component: Component, width: int, height: int)
    requires
        component.lies_in(width, height),
        width <= u32::MAX,
        height <= u32::MAX,
    ensures
        component.bounds().x == component.min_x,
        component.bounds().y == component.min_y,
        component.bounds().x + component.bounds().width == component.max_x + 1,
        component.bounds().y + component.bounds().height == component.max_y + 1,
        component.bounds().x + component.bounds().width <= width,
        component.bounds().y + component.bounds().height <= height,
{
}

/// A component in the middle of the picture is wholly central.
pub proof fn law_the_middle_is_central(
    analysis: Analysis,
    component: Component,
    half_width: nat,
    half_height: nat,
)
    requires
        analysis.width == 2 * half_width,
        analysis.height == 2 * half_height,
        0 < half_width < 0x80_0000,
        0 < half_height < 0x80_0000,
        component.min_x + component.max_x + 1 == analysis.width,
        component.min_y + component.max_y + 1 == analysis.height,
    ensures
        centrality(analysis, component) == whole(1),
{
    lemma_half_of_a_length(half_width);
    lemma_half_of_a_length(half_height);
    lemma_nothing_off_the_middle();
}

/// Of two components with the same bounds the one that fills them more is at least as sure.
pub proof fn law_filled_components_are_surer(
    analysis: Analysis,
    more: Component,
    less: Component,
)
    requires
        more.min_x == less.min_x && more.max_x == less.max_x,
        more.min_y == less.min_y && more.max_y == less.max_y,
        more.min_x <= more.max_x,
        more.min_y <= more.max_y,
        less.pixel_count <= more.pixel_count < 0x10_0000,
        0 < more.bounds().pixel_count() < 0x100_0000,
        0 < analysis.width <= u32::MAX,
        0 < analysis.height <= u32::MAX,
        0 < analysis.width * analysis.height < 0x100_0000,
    ensures
        component_confidence(analysis, more).at_least(component_confidence(analysis, less)),
{
    lemma_centrality_is_modest(analysis, more);
    let area = more.bounds().pixel_count() as nat;
    let m = more.pixel_count as nat;
    let l = less.pixel_count as nat;
    law_shares_are_compared_by_their_parts(m, l, area);
    lemma_fractions_are_modest(m, area);
    lemma_fractions_are_modest(l, area);
    law_parts_count_with_their_weight(fraction(m, area), fraction(l, area), 24);
    let a = weighted(component_fill(more), 24);
    let b = weighted(component_fill(less), 24);
    let base = fraction(42, 100);
    lemma_fractions_are_modest(42, 100);
    lemma_fractions_are_modest(24, 100);
    lemma_fractions_are_modest(18, 100);
    lemma_fractions_are_modest(16, 100);
    lemma_fractions_are_modest(60, 100);
    lemma_zero_is_modest();
    lemma_results_are_modest(component_fill(more), whole(1), 64);
    lemma_results_are_modest(component_fill(less), whole(1), 64);
    lemma_results_are_modest(component_fill(more).smaller(whole(1)), fraction(24, 100), 64);
    lemma_results_are_modest(component_fill(less).smaller(whole(1)), fraction(24, 100), 64);
    law_adding_keeps_the_order(a, b, base);
    lemma_sums_are_modest(base, a, 0x4000);
    lemma_sums_are_modest(base, b, 0x4000);
    let middle = centrality(analysis, more).times(fraction(18, 100));
    lemma_results_are_modest(centrality(analysis, more), fraction(18, 100), 0x4000);
    law_adding_keeps_the_order(base.plus(a), base.plus(b), middle);
    lemma_sums_are_modest(base.plus(a), middle, 0x8030);
    lemma_sums_are_modest(base.plus(b), middle, 0x8030);
    let all = (analysis.width * analysis.height) as nat;
    lemma_fractions_are_modest(area, all);
    let share = component_share(analysis, more).over(fraction(60, 100));
    lemma_results_are_modest(component_share(analysis, more), fraction(60, 100), 64);
    lemma_results_are_modest(share, whole(1), 176);
    lemma_results_are_modest(share.smaller(whole(1)), fraction(16, 100), 176);
    law_adding_keeps_the_order(
        base.plus(a).plus(middle),
        base.plus(b).plus(middle),
        weighted(share, 16),
    );
}

proof fn lemma_centrality_is_modest(analysis: Analysis, component: Component)
    requires
        0 <= analysis.width <= u32::MAX,
        0 <= analysis.height <= u32::MAX,
    ensures
        is_modest(centrality(analysis, component), 0x4000),
{
    let dx = off_center(component.min_x as int, component.max_x as int, analysis.width as nat);
    let dy = off_center(component.min_y as int, component.max_y as int, analysis.height as nat);
    lemma_off_center_is_modest(component.min_x, component.max_x, analysis.width as nat);
    lemma_off_center_is_modest(component.min_y, component.max_y, analysis.height as nat);
    lemma_results_are_modest(dx, dx, 1648);
    lemma_results_are_modest(dy, dy, 1648);
    lemma_sums_are_modest(dx.times(dx), dy.times(dy), 3344);
    let sum = dx.times(dx).plus(dy.times(dy));
    lemma_results_are_modest(sum, sum, 3392);
    lemma_naturals_are_modest(2);
    lemma_results_are_modest(whole(2), whole(2), 128);
    lemma_results_are_modest(sum.root(), whole(2).root(), 3440);
    let far = sum.root().over(whole(2).root());
    lemma_zero_is_modest();
    lemma_results_are_modest(far, zero(), 6928);
    lemma_results_are_modest(far.larger(zero()), whole(1), 6928);
    lemma_sums_are_modest(whole(1), far.held(zero(), whole(1)), 6928);
}

proof fn lemma_off_center_is_modest(low: u32, high: u32, length: nat)
    requires
        length <= u32::MAX,
    ensures
        is_modest(off_center(low as int, high as int, length), 1648),
{
    let sum = (low + high + 1) as nat;
    lemma_naturals_are_modest(sum);
    lemma_naturals_are_modest(length);
    lemma_naturals_are_modest(2);
    lemma_fractions_are_modest(50, 100);
    lemma_results_are_modest(whole(sum), whole(2), 128);
    let center = whole(sum).over(whole(2));
    lemma_results_are_modest(center, whole(length), 304);
    let place = center.over(whole(length));
    lemma_sums_are_modest(place, fraction(50, 100), 656);
    let off = place.minus(fraction(50, 100));
    lemma_results_are_modest(off, off, 800);
    lemma_results_are_modest(off.absolute(), whole(2), 800);
}

/// The pixels of a picture show a component, a projection or nothing: something whenever one
/// of the two is there, and nothing where the picture cannot be analysed.
pub proof fn law_pixels_show_a_component_or_a_projection(picture: Pixels)
    ensures
        analysis_of(picture) is None ==> visual_candidate(picture) is None,
        analysis_of(picture) is Some ==> {
            let component = component_content(picture, analysis_of(picture)->0);
            let projection = projected_content(picture, analysis_of(picture)->0);
            &&& visual_candidate(picture) is Some <==> component is Some || projection is Some
            &&& visual_candidate(picture) is Some ==> visual_candidate(picture) == component
                || visual_candidate(picture) == projection
            &&& component is None ==> visual_candidate(picture) == projection
            &&& projection is None ==> visual_candidate(picture) == component
        },
{
}

/// No connected part of the small copy that can be content is overlooked: the one that is
/// taken is at least as sure.
pub proof fn law_no_component_is_overlooked(picture: Pixels, analysis: Analysis, at: int)
    requires
        0 <= at < analysis.active.survey().len(),
        is_content_component(analysis, analysis.active.survey()[at]),
    ensures
        component_content(picture, analysis) is Some,
        component_content(picture, analysis)->0.confidence.at_least(
            component_candidate(picture, analysis, analysis.active.survey()[at])->0.confidence,
        ),
{
    let components = analysis.active.survey();
    law_the_surest_component_is_taken(picture, analysis, components, components.len());
    assert(component_candidate(picture, analysis, components[at]) is Some);
}

} // verus!
