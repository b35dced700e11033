//! Regions that surely show no content, and how they are cut off the edges of a rectangle.

use vstd::prelude::*;
use vstd::set_lib::*;

use crate::detector::projection::{between, is_between};
use crate::geometry::PixelRect;
use crate::numeric::{max_int, max_u32, min_int, min_u32, saturating_sum};
use crate::single::{
    fraction, law_larger_shares_reach_smaller_ones, law_shares_are_compared_by_their_parts,
    law_whole_share_is_one, ratio,
};

verus! {

/// A stretch of lines, from `start` to before `end`.
#[derive(Clone, Copy, Debug, PartialEq, Eq, Structural)]
pub struct Span {
    pub start: u32,
    pub end: u32,
}

impl Span {
    pub open spec fn has(self, line: int) -> bool {
        self.start <= line < self.end
    }
}

/// The lines that at least one of the spans covers.
pub open spec fn covered(spans: Seq<Span>) -> Set<int> {
    Set::new(|line: int| exists|k: int| 0 <= k < spans.len() && (#[trigger] spans[k]).has(line))
}

/// The spans are in the order of their starts.
pub open spec fn is_sorted(spans: Seq<Span>) -> bool {
    forall|k: int, l: int| 0 <= k <= l < spans.len() ==> spans[k].start <= spans[l].start
}

/// Puts a span into its place in a sorted list.
fn insert_sorted(spans: &mut Vec<Span>, span: Span)
    requires
        is_sorted(old(spans)@),
    ensures
        is_sorted(final(spans)@),
        final(spans)@.len() == old(spans)@.len() + 1,
        covered(final(spans)@) == covered(old(spans)@.push(span)),
        forall|k: int|
            0 <= k < final(spans)@.len() ==> (#[trigger] final(spans)@[k]) == span || old(
                spans,
            )@.contains(final(spans)@[k]),
{
    let mut at: usize = 0;
    while at < spans.len() && spans[at].start <= span.start
        invariant
            at <= spans@.len(),
            spans@ == old(spans)@,
            forall|k: int| 0 <= k < at ==> (#[trigger] spans@[k]).start <= span.start,
        decreases spans.len() - at,
    {
        at += 1;
    }
    let ghost before = spans@;
    spans.insert(at, span);
    proof {
        let after = spans@;
        let pushed = before.push(span);
        assert forall|k: int, l: int| 0 <= k <= l < after.len() implies after[k].start
            <= after[l].start by {
            if k < at && l > at {
                assert(before[k].start <= before[l - 1].start);
            } else if k > at {
                assert(before[k - 1].start <= before[l - 1].start);
            } else if k == at && l > at {
                assert(before[at as int].start <= before[l - 1].start);
            } else if l < at {
                assert(before[k].start <= before[l].start);
            }
        }
        assert forall|line: int| covered(after).contains(line) == covered(pushed).contains(
            line,
        ) by {
            if covered(after).contains(line) {
                let k = choose|k: int| 0 <= k < after.len() && (#[trigger] after[k]).has(line);
                if k < at {
                    assert(pushed[k].has(line));
                } else if k == at {
                    assert(pushed[before.len() as int].has(line));
                } else {
                    assert(pushed[k - 1].has(line));
                }
            }
            if covered(pushed).contains(line) {
                let k = choose|k: int| 0 <= k < pushed.len() && (#[trigger] pushed[k]).has(line);
                if k == before.len() {
                    assert(after[at as int].has(line));
                } else if k < at {
                    assert(after[k].has(line));
                } else {
                    assert(after[k + 1].has(line));
                }
            }
        }
        assert(covered(after) =~= covered(pushed));
    }
}

/// The lines covered so far: `total` lines before the current span, and that span.
spec fn is_tally(lines: Set<int>, total: int, current: Span) -> bool {
    &&& lines.finite()
    &&& current.start <= current.end
    &&& total <= current.start
    &&& lines.len() == total + (current.end - current.start)
    &&& forall|line: int| #[trigger] lines.contains(line) ==> 0 <= line < current.end
    &&& forall|line: int| current.has(line) ==> #[trigger] lines.contains(line)
}

proof fn lemma_tally_grows(lines: Set<int>, total: int, current: Span, next: Span)
    requires
        is_tally(lines, total, current),
        current.start <= next.start <= next.end,
    ensures
        next.start <= current.end && current.end < next.end ==> is_tally(
            lines.union(set_int_range(next.start as int, next.end as int)),
            total,
            Span { start: current.start, end: next.end },
        ),
        next.start <= current.end && next.end <= current.end ==> lines.union(
            set_int_range(next.start as int, next.end as int),
        ) == lines,
        current.end < next.start ==> is_tally(
            lines.union(set_int_range(next.start as int, next.end as int)),
            total + (current.end - current.start),
            next,
        ),
{
    let more = set_int_range(next.start as int, next.end as int);
    let both = lines.union(more);
    if next.start <= current.end && current.end < next.end {
        let rest = set_int_range(current.end as int, next.end as int);
        lemma_int_range(current.end as int, next.end as int);
        assert(both =~= lines.union(rest));
        assert(lines.disjoint(rest));
        lemma_set_disjoint_lens(lines, rest);
    } else if next.start <= current.end {
        assert(both =~= lines);
    } else {
        lemma_int_range(next.start as int, next.end as int);
        assert(lines.disjoint(more));
        lemma_set_disjoint_lens(lines, more);
        lemma_lines_are_few(lines, current.end as int);
    }
}

proof fn lemma_lines_are_few(lines: Set<int>, end: int)
    requires
        lines.finite(),
        end >= 0,
        forall|line: int| #[trigger] lines.contains(line) ==> 0 <= line < end,
    ensures
        lines.len() <= end,
{
    lemma_int_range(0, end);
    assert(lines.subset_of(set_int_range(0, end)));
    lemma_len_subset(lines, set_int_range(0, end));
}

proof fn lemma_covered_grows(spans: Seq<Span>, count: int)
    requires
        0 <= count < spans.len(),
    ensures
        covered(spans.take(count + 1)) == covered(spans.take(count)).union(
            set_int_range(spans[count].start as int, spans[count].end as int),
        ),
{
    let before = spans.take(count);
    let after = spans.take(count + 1);
    let range = set_int_range(spans[count].start as int, spans[count].end as int);
    assert forall|line: int| covered(after).contains(line) == covered(before).union(range).contains(
        line,
    ) by {
        if covered(after).contains(line) {
            let k = choose|k: int| 0 <= k < after.len() && (#[trigger] after[k]).has(line);
            if k < count {
                assert(before[k].has(line));
            }
        }
        if covered(before).contains(line) {
            let k = choose|k: int| 0 <= k < before.len() && (#[trigger] before[k]).has(line);
            assert(after[k].has(line));
        }
        if range.contains(line) {
            assert(after[count].has(line));
        }
    }
    assert(covered(after) =~= covered(before).union(range));
}

/// Counts the lines that at least one of the spans covers.
pub fn covered_length(spans: &Vec<Span>) -> (result: u32)
    requires
        forall|k: int|
            0 <= k < spans@.len() ==> (#[trigger] spans@[k]).start <= spans@[k].end,
    ensures
        covered(spans@).finite(),
        result == covered(spans@).len(),
{
    let mut sorted: Vec<Span> = Vec::new();
    let mut k: usize = 0;
    assert(spans@.take(0) =~= sorted@);
    while k < spans.len()
        invariant
            k <= spans@.len(),
            sorted@.len() == k,
            is_sorted(sorted@),
            covered(sorted@) == covered(spans@.take(k as int)),
            forall|i: int|
                0 <= i < spans@.len() ==> (#[trigger] spans@[i]).start <= spans@[i].end,
            forall|i: int|
                0 <= i < sorted@.len() ==> (#[trigger] sorted@[i]).start <= sorted@[i].end,
        decreases spans.len() - k,
    {
        let ghost before = sorted@;
        let span = spans[k];
        insert_sorted(&mut sorted, span);
        proof {
            lemma_covered_grows(spans@, k as int);
            lemma_covered_grows(before.push(span), before.len() as int);
            assert(before.push(span).take(before.len() as int) =~= before);
            assert(before.push(span).take((before.len() + 1) as int) =~= before.push(span));
            assert forall|i: int| 0 <= i < sorted@.len() implies (#[trigger] sorted@[i]).start
                <= sorted@[i].end by {
                if sorted@[i] != span {
                    let l = choose|l: int| 0 <= l < before.len() && before[l] == sorted@[i];
                    assert(before[l].start <= before[l].end);
                }
            }
        }
        k += 1;
    }
    assert(spans@.take(k as int) =~= spans@);
    count_sorted(&sorted)
}

fn count_sorted(sorted: &Vec<Span>) -> (result: u32)
    requires
        is_sorted(sorted@),
        forall|i: int|
            0 <= i < sorted@.len() ==> (#[trigger] sorted@[i]).start <= sorted@[i].end,
    ensures
        covered(sorted@).finite(),
        result == covered(sorted@).len(),
{
    if sorted.len() == 0 {
        assert(covered(sorted@) =~= Set::empty());
        return 0;
    }
    let mut total: u32 = 0;
    let mut current = sorted[0];
    let mut k: usize = 1;
    proof {
        assert(sorted@.take(0) =~= Seq::empty());
        assert(covered(sorted@.take(0)) =~= Set::empty());
        lemma_covered_grows(sorted@, 0);
        lemma_int_range(current.start as int, current.end as int);
        assert(covered(sorted@.take(1)) =~= set_int_range(
            current.start as int,
            current.end as int,
        ));
    }
    while k < sorted.len()
        invariant
            1 <= k <= sorted@.len(),
            is_sorted(sorted@),
            forall|i: int|
                0 <= i < sorted@.len() ==> (#[trigger] sorted@[i]).start <= sorted@[i].end,
            is_tally(covered(sorted@.take(k as int)), total as int, current),
            current.start <= sorted@[k - 1].start,
        decreases sorted.len() - k,
    {
        let next = sorted[k];
        proof {
            assert(sorted@[k - 1].start <= sorted@[k as int].start);
            lemma_covered_grows(sorted@, k as int);
            lemma_tally_grows(covered(sorted@.take(k as int)), total as int, current, next);
        }
        if next.start <= current.end {
            if current.end < next.end {
                current = Span { start: current.start, end: next.end };
            }
        } else {
            proof {
                lemma_lines_are_few(covered(sorted@.take(k as int)), current.end as int);
            }
            total = total + (current.end - current.start);
            current = next;
        }
        k += 1;
    }
    proof {
        assert(sorted@.take(k as int) =~= sorted@);
        lemma_lines_are_few(covered(sorted@), current.end as int);
    }
    total + (current.end - current.start)
}

/// An edge of a rectangle.
#[derive(Clone, Copy, Debug, PartialEq, Eq, Structural)]
pub enum RectEdge {
    Left,
    Right,
    Top,
    Bottom,
}

/// How near an exclusion has to come to a vertical edge.
pub open spec fn tolerance_x(rect: PixelRect) -> int {
    max_int(rect.width as int / 40, 4)
}

/// How near an exclusion has to come to a horizontal edge.
pub open spec fn tolerance_y(rect: PixelRect) -> int {
    max_int(rect.height as int / 40, 4)
}

/// The overlap of an exclusion with the rectangle is a band of some depth at an edge.
pub open spec fn is_band(rect: PixelRect, overlap: PixelRect, edge: RectEdge) -> bool {
    match edge {
        RectEdge::Left => between(fraction(overlap.width as nat, rect.width as nat), 4, 45)
            && overlap.x <= saturating_sum(rect.x as int, tolerance_x(rect)),
        RectEdge::Right => between(fraction(overlap.width as nat, rect.width as nat), 4, 45)
            && saturating_sum(overlap.right_edge(), tolerance_x(rect)) >= rect.right_edge(),
        RectEdge::Top => between(fraction(overlap.height as nat, rect.height as nat), 4, 35)
            && overlap.y <= saturating_sum(rect.y as int, tolerance_y(rect)),
        RectEdge::Bottom => between(fraction(overlap.height as nat, rect.height as nat), 4, 35)
            && saturating_sum(overlap.bottom_edge(), tolerance_y(rect)) >= rect.bottom_edge(),
    }
}

/// The exclusion is a band at an edge of the rectangle.
pub open spec fn blocks(rect: PixelRect, exclusion: PixelRect, edge: RectEdge) -> bool {
    match rect.common_part(exclusion) {
        Some(overlap) => is_band(rect, overlap, edge),
        None => false,
    }
}

/// The lines of the edge along which an exclusion blocks it.
pub open spec fn blocked_span(rect: PixelRect, exclusion: PixelRect, edge: RectEdge) -> Span {
    let overlap = rect.common_part(exclusion)->0;
    match edge {
        RectEdge::Left | RectEdge::Right => Span {
            start: overlap.y,
            end: overlap.bottom_edge() as u32,
        },
        RectEdge::Top | RectEdge::Bottom => Span {
            start: overlap.x,
            end: overlap.right_edge() as u32,
        },
    }
}

/// The lines of an edge that the first exclusions block.
pub open spec fn blocked_spans(
    rect: PixelRect,
    exclusions: Seq<PixelRect>,
    edge: RectEdge,
    first: nat,
) -> Seq<Span>
    decreases first,
{
    if first == 0 {
        Seq::empty()
    } else {
        let before = blocked_spans(rect, exclusions, edge, (first - 1) as nat);
        if blocks(rect, exclusions[first - 1], edge) {
            before.push(blocked_span(rect, exclusions[first - 1], edge))
        } else {
            before
        }
    }
}

/// Where an edge stands.
pub open spec fn edge_place(rect: PixelRect, edge: RectEdge) -> int {
    match edge {
        RectEdge::Left => rect.x as int,
        RectEdge::Right => rect.right_edge(),
        RectEdge::Top => rect.y as int,
        RectEdge::Bottom => rect.bottom_edge(),
    }
}

/// Where an edge stands when it is moved behind the first exclusions that block it.
pub open spec fn cut_place(
    rect: PixelRect,
    exclusions: Seq<PixelRect>,
    edge: RectEdge,
    first: nat,
) -> int
    decreases first,
{
    if first == 0 {
        edge_place(rect, edge)
    } else {
        let before = cut_place(rect, exclusions, edge, (first - 1) as nat);
        if blocks(rect, exclusions[first - 1], edge) {
            let overlap = rect.common_part(exclusions[first - 1])->0;
            match edge {
                RectEdge::Left => max_int(before, overlap.right_edge()),
                RectEdge::Right => min_int(before, overlap.x as int),
                RectEdge::Top => max_int(before, overlap.bottom_edge()),
                RectEdge::Bottom => min_int(before, overlap.y as int),
            }
        } else {
            before
        }
    }
}

/// Length of an edge.
pub open spec fn edge_length(rect: PixelRect, edge: RectEdge) -> int {
    match edge {
        RectEdge::Left | RectEdge::Right => rect.height as int,
        RectEdge::Top | RectEdge::Bottom => rect.width as int,
    }
}

/// Where an edge stands without the exclusions. It moves where they block enough of it.
pub open spec fn moved_place(rect: PixelRect, exclusions: Seq<PixelRect>, edge: RectEdge) -> int {
    if covered(blocked_spans(rect, exclusions, edge, exclusions.len())).len() * 100 < edge_length(
        rect,
        edge,
    ) * 45 {
        edge_place(rect, edge)
    } else {
        cut_place(rect, exclusions, edge, exclusions.len())
    }
}

/// The rectangle between the moved edges.
pub open spec fn between_moved_edges(rect: PixelRect, exclusions: Seq<PixelRect>) -> PixelRect {
    let left = moved_place(rect, exclusions, RectEdge::Left);
    let right = moved_place(rect, exclusions, RectEdge::Right);
    let top = moved_place(rect, exclusions, RectEdge::Top);
    let bottom = moved_place(rect, exclusions, RectEdge::Bottom);
    PixelRect {
        x: left as u32,
        y: top as u32,
        width: if right > left {
            (right - left) as u32
        } else {
            0
        },
        height: if bottom > top {
            (bottom - top) as u32
        } else {
            0
        },
    }
}

/// A rectangle without the exclusions at its edges, if enough of it is left.
pub open spec fn without_exclusions(rect: PixelRect, exclusions: Seq<PixelRect>) -> PixelRect {
    let part = between_moved_edges(rect, exclusions);
    if exclusions.len() == 0 || rect.width == 0 || rect.height == 0 || part.width * 100
        < rect.width * 45 || part.height * 100 < rect.height * 45 || part.pixel_count() * 100 < rect.pixel_count() * 50 {
        rect
    } else {
        part
    }
}

fn is_blocking(rect: PixelRect, overlap: PixelRect, edge: RectEdge) -> (result: bool)
    ensures
        result == is_band(rect, overlap, edge),
{
    let near_x: u32 = max_u32(rect.width / 40, 4);
    let near_y: u32 = max_u32(rect.height / 40, 4);
    match edge {
        RectEdge::Left => is_between(ratio(overlap.width as u64, rect.width as u64), 4, 45)
            && overlap.x <= rect.x.saturating_add(near_x),
        RectEdge::Right => is_between(ratio(overlap.width as u64, rect.width as u64), 4, 45)
            && overlap.right().saturating_add(near_x) >= rect.right(),
        RectEdge::Top => is_between(ratio(overlap.height as u64, rect.height as u64), 4, 35)
            && overlap.y <= rect.y.saturating_add(near_y),
        RectEdge::Bottom => is_between(ratio(overlap.height as u64, rect.height as u64), 4, 35)
            && overlap.bottom().saturating_add(near_y) >= rect.bottom(),
    }
}

/// Moves an edge behind the exclusions that block it.
fn move_edge(rect: PixelRect, exclusions: &Vec<PixelRect>, edge: RectEdge) -> (result: u32)
    ensures
        result == moved_place(rect, exclusions@, edge),
        edge is Left ==> rect.x <= result,
        edge is Top ==> rect.y <= result,
        edge is Right ==> result <= rect.right_edge(),
        edge is Bottom ==> result <= rect.bottom_edge(),
{
    let place: u32 = match edge {
        RectEdge::Left => rect.x,
        RectEdge::Right => rect.right(),
        RectEdge::Top => rect.y,
        RectEdge::Bottom => rect.bottom(),
    };
    let mut cut: u32 = place;
    let mut spans: Vec<Span> = Vec::new();
    let mut k: usize = 0;
    while k < exclusions.len()
        invariant
            k <= exclusions@.len(),
            place == edge_place(rect, edge),
            cut == cut_place(rect, exclusions@, edge, k as nat),
            spans@ == blocked_spans(rect, exclusions@, edge, k as nat),
            edge is Left || edge is Top ==> place <= cut,
            edge is Right || edge is Bottom ==> cut <= place,
            forall|i: int|
                0 <= i < spans@.len() ==> (#[trigger] spans@[i]).start <= spans@[i].end,
        decreases exclusions.len() - k,
    {
        match rect.intersection(exclusions[k]) {
            Some(overlap) => {
                if is_blocking(rect, overlap, edge) {
                    let span = match edge {
                        RectEdge::Left | RectEdge::Right => Span {
                            start: overlap.y,
                            end: overlap.bottom(),
                        },
                        RectEdge::Top | RectEdge::Bottom => Span {
                            start: overlap.x,
                            end: overlap.right(),
                        },
                    };
                    cut =
                    match edge {
                        RectEdge::Left => max_u32(cut, overlap.right()),
                        RectEdge::Right => min_u32(cut, overlap.x),
                        RectEdge::Top => max_u32(cut, overlap.bottom()),
                        RectEdge::Bottom => min_u32(cut, overlap.y),
                    };
                    spans.push(span);
                }
            },
            None => {},
        }
        k += 1;
    }
    let length: u32 = match edge {
        RectEdge::Left | RectEdge::Right => rect.height,
        RectEdge::Top | RectEdge::Bottom => rect.width,
    };
    if (covered_length(&spans) as u64 * 100) < length as u64 * 45 {
        place
    } else {
        cut
    }
}

/// Cuts the exclusions at its edges off a rectangle.
pub fn trim_excluded_edge_regions(rect: PixelRect, exclusions: &Vec<PixelRect>) -> (result:
    PixelRect)
    ensures
        result == without_exclusions(rect, exclusions@),
{
    if exclusions.len() == 0 || rect.width == 0 || rect.height == 0 {
        return rect;
    }
    let left: u32 = move_edge(rect, exclusions, RectEdge::Left);
    let right: u32 = move_edge(rect, exclusions, RectEdge::Right);
    let top: u32 = move_edge(rect, exclusions, RectEdge::Top);
    let bottom: u32 = move_edge(rect, exclusions, RectEdge::Bottom);
    let width: u32 = if right > left { right - left } else { 0 };
    let height: u32 = if bottom > top { bottom - top } else { 0 };
    let part = PixelRect::new(left, top, width, height);
    if part.width as u64 * 100 >= rect.width as u64 * 45 && part.height as u64 * 100
        >= rect.height as u64 * 45 && part.area() as u128 * 100 >= rect.area() as u128 * 50 {
        part
    } else {
        rect
    }
}

proof fn lemma_cut_place(rect: PixelRect, exclusions: Seq<PixelRect>, edge: RectEdge, first: nat)
    ensures
        edge is Left || edge is Top ==> edge_place(rect, edge) <= cut_place(
            rect,
            exclusions,
            edge,
            first,
        ) <= u32::MAX,
        edge is Right || edge is Bottom ==> 0 <= cut_place(rect, exclusions, edge, first)
            <= edge_place(rect, edge),
    decreases first,
{
    if first > 0 {
        lemma_cut_place(rect, exclusions, edge, (first - 1) as nat);
    }
}

/// A rectangle without its exclusions lies inside it and keeps at least half of its area.
pub proof fn law_little_is_excluded(rect: PixelRect, exclusions: Seq<PixelRect>)
    requires
        rect.x + rect.width <= u32::MAX,
        rect.y + rect.height <= u32::MAX,
    ensures
        without_exclusions(rect, exclusions).lies_in(rect),
        without_exclusions(rect, exclusions).pixel_count() * 2 >= rect.pixel_count(),
{
    lemma_cut_place(rect, exclusions, RectEdge::Left, exclusions.len());
    lemma_cut_place(rect, exclusions, RectEdge::Right, exclusions.len());
    lemma_cut_place(rect, exclusions, RectEdge::Top, exclusions.len());
    lemma_cut_place(rect, exclusions, RectEdge::Bottom, exclusions.len());
    assert(rect.pixel_count() >= 0) by (nonlinear_arith)
        requires
            rect.pixel_count() == rect.width * rect.height,
    ;
}

/// Exclusions that do not overlap a rectangle leave it as it is.
pub proof fn law_distant_exclusions_change_nothing(rect: PixelRect, exclusions: Seq<PixelRect>)
    requires
        rect.x + rect.width <= u32::MAX,
        rect.y + rect.height <= u32::MAX,
        forall|k: int|
            0 <= k < exclusions.len() ==> rect.common_part(#[trigger] exclusions[k]) is None,
    ensures
        without_exclusions(rect, exclusions) == rect,
{
    lemma_nothing_is_blocked(rect, exclusions, RectEdge::Left, exclusions.len());
    lemma_nothing_is_blocked(rect, exclusions, RectEdge::Right, exclusions.len());
    lemma_nothing_is_blocked(rect, exclusions, RectEdge::Top, exclusions.len());
    lemma_nothing_is_blocked(rect, exclusions, RectEdge::Bottom, exclusions.len());
}

proof fn lemma_nothing_is_blocked(
    rect: PixelRect,
    exclusions: Seq<PixelRect>,
    edge: RectEdge,
    first: nat,
)
    requires
        first <= exclusions.len(),
        forall|k: int|
            0 <= k < exclusions.len() ==> rect.common_part(#[trigger] exclusions[k]) is None,
    ensures
        cut_place(rect, exclusions, edge, first) == edge_place(rect, edge),
    decreases first,
{
    if first > 0 {
        lemma_nothing_is_blocked(rect, exclusions, edge, (first - 1) as nat);
        assert(rect.common_part(exclusions[first - 1]) is None);
    }
}

/// The lines that a band blocks are counted once each.
proof fn lemma_one_span_covers(span: Span)
    requires
        span.start <= span.end,
    ensures
        covered(seq![span]).len() == span.end - span.start,
{
    let lines = set_int_range(span.start as int, span.end as int);
    lemma_int_range(span.start as int, span.end as int);
    let spans = seq![span];
    assert forall|line: int| covered(spans).contains(line) == lines.contains(line) by {
        if lines.contains(line) {
            assert(spans[0].has(line));
        }
    }
    assert(covered(spans) =~= lines);
}

/// A line is covered where a span has it, so that more spans never cover less.
pub proof fn law_spans_cover_their_lines(spans: Seq<Span>, span: Span, line: int)
    ensures
        covered(spans.push(span)).contains(line) <==> covered(spans).contains(line) || (span.start
            <= line && line < span.end),
        !covered(Seq::<Span>::empty()).contains(line),
{
    let more = spans.push(span);
    if covered(spans).contains(line) {
        let k = choose|k: int| 0 <= k < spans.len() && (#[trigger] spans[k]).has(line);
        assert(more[k].has(line));
    }
    if span.has(line) {
        assert(more[spans.len() as int].has(line));
    }
    if covered(more).contains(line) {
        let k = choose|k: int| 0 <= k < more.len() && (#[trigger] more[k]).has(line);
        if k < spans.len() {
            assert(spans[k].has(line));
        }
    }
}

/// A band over a whole edge of a rectangle, between 4 and 45 hundredths of its width or between
/// 4 and 35 of its height, is cut off it, and nothing else is.
pub proof fn law_bands_are_cut_off(rect: PixelRect, depth: u32)
    requires
        8 <= rect.width < 0x100_0000,
        8 <= rect.height < 0x100_0000,
        rect.x + rect.width <= u32::MAX,
        rect.y + rect.height <= u32::MAX,
    ensures
        depth * 100 >= rect.width * 4 && depth * 100 <= rect.width * 45 ==> without_exclusions(
            rect,
            seq![(PixelRect { width: depth, ..rect })],
        ) == (PixelRect {
            x: (rect.x + depth) as u32,
            width: (rect.width - depth) as u32,
            ..rect
        }),
        depth * 100 >= rect.width * 4 && depth * 100 <= rect.width * 45 ==> without_exclusions(
            rect,
            seq![
                (PixelRect { x: (rect.x + rect.width - depth) as u32, width: depth, ..rect }),
            ],
        ) == (PixelRect { width: (rect.width - depth) as u32, ..rect }),
        depth * 100 >= rect.height * 4 && depth * 100 <= rect.height * 35 ==> without_exclusions(
            rect,
            seq![(PixelRect { height: depth, ..rect })],
        ) == (PixelRect {
            y: (rect.y + depth) as u32,
            height: (rect.height - depth) as u32,
            ..rect
        }),
        depth * 100 >= rect.height * 4 && depth * 100 <= rect.height * 35 ==> without_exclusions(
            rect,
            seq![
                (PixelRect { y: (rect.y + rect.height - depth) as u32, height: depth, ..rect }),
            ],
        ) == (PixelRect { height: (rect.height - depth) as u32, ..rect }),
{
    if depth * 100 >= rect.width * 4 && depth * 100 <= rect.width * 45 {
        lemma_one_band(rect, PixelRect { width: depth, ..rect }, RectEdge::Left, depth);
        lemma_one_band(
            rect,
            PixelRect { x: (rect.x + rect.width - depth) as u32, width: depth, ..rect },
            RectEdge::Right,
            depth,
        );
    }
    if depth * 100 >= rect.height * 4 && depth * 100 <= rect.height * 35 {
        lemma_one_band(rect, PixelRect { height: depth, ..rect }, RectEdge::Top, depth);
        lemma_one_band(
            rect,
            PixelRect { y: (rect.y + rect.height - depth) as u32, height: depth, ..rect },
            RectEdge::Bottom,
            depth,
        );
    }
}

proof fn lemma_whole_is_no_band(length: nat)
    requires
        0 < length < 0x100_0000,
    ensures
        !between(fraction(length, length), 4, 35),
        !between(fraction(length, length), 4, 45),
{
    law_whole_share_is_one(length);
    law_whole_share_is_one(100);
    law_shares_are_compared_by_their_parts(35, 100, 100);
    law_shares_are_compared_by_their_parts(45, 100, 100);
}

proof fn lemma_one_band(rect: PixelRect, band: PixelRect, edge: RectEdge, depth: u32)
    requires
        8 <= rect.width < 0x100_0000,
        8 <= rect.height < 0x100_0000,
        rect.x + rect.width <= u32::MAX,
        rect.y + rect.height <= u32::MAX,
        match edge {
            RectEdge::Left => depth * 100 >= rect.width * 4 && depth * 100 <= rect.width * 45
                && band == (PixelRect { width: depth, ..rect }),
            RectEdge::Right => depth * 100 >= rect.width * 4 && depth * 100 <= rect.width * 45
                && band == (PixelRect {
                x: (rect.x + rect.width - depth) as u32,
                width: depth,
                ..rect
            }),
            RectEdge::Top => depth * 100 >= rect.height * 4 && depth * 100 <= rect.height * 35
                && band == (PixelRect { height: depth, ..rect }),
            RectEdge::Bottom => depth * 100 >= rect.height * 4 && depth * 100 <= rect.height * 35
                && band == (PixelRect {
                y: (rect.y + rect.height - depth) as u32,
                height: depth,
                ..rect
            }),
        },
    ensures
        without_exclusions(rect, seq![band]) == match edge {
            RectEdge::Left => (PixelRect {
                x: (rect.x + depth) as u32,
                width: (rect.width - depth) as u32,
                ..rect
            }),
            RectEdge::Right => (PixelRect { width: (rect.width - depth) as u32, ..rect }),
            RectEdge::Top => (PixelRect {
                y: (rect.y + depth) as u32,
                height: (rect.height - depth) as u32,
                ..rect
            }),
            RectEdge::Bottom => (PixelRect { height: (rect.height - depth) as u32, ..rect }),
        },
{
    let bands = seq![band];
    assert(depth > 0);
    assert(rect.common_part(band) == Some(band));
    lemma_whole_is_no_band(rect.width as nat);
    lemma_whole_is_no_band(rect.height as nat);
    let d = depth as nat;
    let horizontal = edge is Left || edge is Right;
    if horizontal {
        law_larger_shares_reach_smaller_ones(4, 100, d, rect.width as nat);
        law_larger_shares_reach_smaller_ones(d, rect.width as nat, 45, 100);
    } else {
        law_larger_shares_reach_smaller_ones(4, 100, d, rect.height as nat);
        law_larger_shares_reach_smaller_ones(d, rect.height as nat, 35, 100);
    }
    assert(blocks(rect, band, RectEdge::Left) == (edge is Left));
    assert(blocks(rect, band, RectEdge::Right) == (edge is Right));
    assert(blocks(rect, band, RectEdge::Top) == (edge is Top));
    assert(blocks(rect, band, RectEdge::Bottom) == (edge is Bottom));
    lemma_single_place(rect, band, RectEdge::Left);
    lemma_single_place(rect, band, RectEdge::Right);
    lemma_single_place(rect, band, RectEdge::Top);
    lemma_single_place(rect, band, RectEdge::Bottom);
    let w = rect.width as int;
    let h = rect.height as int;
    let t = depth as int;
    assert(((w - t) * h) * 100 >= (w * h) * 50 || !horizontal) by (nonlinear_arith)
        requires
            horizontal ==> t * 100 <= w * 45,
            w > 0,
            h > 0,
    ;
    assert((w * (h - t)) * 100 >= (w * h) * 50 || horizontal) by (nonlinear_arith)
        requires
            !horizontal ==> t * 100 <= h * 35,
            w > 0,
            h > 0,
    ;
}

proof fn lemma_single_place(rect: PixelRect, band: PixelRect, edge: RectEdge)
    requires
        rect.common_part(band) == Some(band),
        rect.width > 0,
        rect.height > 0,
        blocks(rect, band, edge) ==> match edge {
            RectEdge::Left | RectEdge::Right => band.y == rect.y && band.height == rect.height
                && rect.y + rect.height <= u32::MAX,
            RectEdge::Top | RectEdge::Bottom => band.x == rect.x && band.width == rect.width
                && rect.x + rect.width <= u32::MAX,
        },
    ensures
        moved_place(rect, seq![band], edge) == if blocks(rect, band, edge) {
            match edge {
                RectEdge::Left => max_int(rect.x as int, band.right_edge()),
                RectEdge::Right => min_int(rect.right_edge(), band.x as int),
                RectEdge::Top => max_int(rect.y as int, band.bottom_edge()),
                RectEdge::Bottom => min_int(rect.bottom_edge(), band.y as int),
            }
        } else {
            edge_place(rect, edge)
        },
{
    reveal_with_fuel(blocked_spans, 2);
    reveal_with_fuel(cut_place, 2);
    let bands = seq![band];
    let spans = blocked_spans(rect, bands, edge, 1);
    if blocks(rect, band, edge) {
        let span = blocked_span(rect, band, edge);
        assert(spans =~= seq![span]);
        lemma_one_span_covers(span);
    } else {
        assert(cut_place(rect, bands, edge, 1) == edge_place(rect, edge));
    }
}

} // verus!
