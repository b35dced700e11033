//! How sure an element of the accessibility tree is to show shared content.

use vstd::prelude::*;

use crate::accessibility::ControlType;
use crate::detector::projection::{between, is_between, ContentCandidate};
use crate::geometry::{PixelRect, WindowGeometry};
use crate::numeric::{max_int, max_u32, min_int, min_u32, saturating_sum};
use crate::single::{
    fraction, from_int, is_modest, law_adding_keeps_the_order, law_fractions_are_not_negative,
    law_larger_shares_reach_smaller_ones, law_multiplying_keeps_the_order,
    law_negation_turns_the_order, law_numbers_cancel, law_order_is_transitive,
    law_shares_are_compared_by_their_parts, law_small_integers_add, law_small_integers_are_kept,
    law_small_integers_divide, lemma_canonical_is_kept, lemma_fractions_are_modest,
    lemma_half_of_a_length, lemma_naturals_are_modest, lemma_nothing_off_the_middle,
    lemma_results_are_modest, lemma_sums_are_modest, lemma_zero_is_modest, ratio, whole, zero,
    Single,
};
use crate::text::{
    chars_of_string, contains_chars, has_part, joined, lowercase_text, occurs_at, str_to_lowercase,
};

verus! {

/// What an element is, as far as content is concerned.
#[derive(Clone, Copy, Debug, PartialEq, Eq, Structural)]
pub enum ElementRole {
    Image,
    Document,
    Custom,
    Pane,
    Group,
    Other,
    Text,
    Interactive,
    Chrome,
}

/// Elements that are used, not looked at.
pub open spec fn is_interactive(control_type: ControlType) -> bool {
    ||| control_type == ControlType::Button
    ||| control_type == ControlType::CheckBox
    ||| control_type == ControlType::ComboBox
    ||| control_type == ControlType::Edit
    ||| control_type == ControlType::Hyperlink
    ||| control_type == ControlType::ListItem
    ||| control_type == ControlType::RadioButton
    ||| control_type == ControlType::Slider
    ||| control_type == ControlType::Spinner
    ||| control_type == ControlType::SplitButton
    ||| control_type == ControlType::TabItem
    ||| control_type == ControlType::TreeItem
    ||| control_type == ControlType::DataItem
    ||| control_type == ControlType::Thumb
}

/// Elements of the frame of a window.
pub open spec fn is_chrome(control_type: ControlType) -> bool {
    ||| control_type == ControlType::ToolBar
    ||| control_type == ControlType::Menu
    ||| control_type == ControlType::MenuBar
    ||| control_type == ControlType::MenuItem
    ||| control_type == ControlType::StatusBar
    ||| control_type == ControlType::TitleBar
    ||| control_type == ControlType::Header
    ||| control_type == ControlType::HeaderItem
    ||| control_type == ControlType::ScrollBar
    ||| control_type == ControlType::Separator
    ||| control_type == ControlType::ToolTip
    ||| control_type == ControlType::AppBar
}

/// The role of an element by its control type.
pub open spec fn role_of(control_type: Option<ControlType>) -> ElementRole {
    match control_type {
        Some(ControlType::Image) => ElementRole::Image,
        Some(ControlType::Document) => ElementRole::Document,
        Some(ControlType::Custom) => ElementRole::Custom,
        Some(ControlType::Pane) => ElementRole::Pane,
        Some(ControlType::Group) => ElementRole::Group,
        Some(ControlType::Text) => ElementRole::Text,
        Some(other) => if is_interactive(other) {
            ElementRole::Interactive
        } else if is_chrome(other) {
            ElementRole::Chrome
        } else {
            ElementRole::Other
        },
        None => ElementRole::Other,
    }
}

pub fn element_role(control_type: Option<ControlType>) -> (result: ElementRole)
    ensures
        result == role_of(control_type),
{
    match control_type {
        Some(ControlType::Image) => ElementRole::Image,
        Some(ControlType::Document) => ElementRole::Document,
        Some(ControlType::Custom) => ElementRole::Custom,
        Some(ControlType::Pane) => ElementRole::Pane,
        Some(ControlType::Group) => ElementRole::Group,
        Some(ControlType::Text) => ElementRole::Text,
        Some(
            ControlType::Button | ControlType::CheckBox | ControlType::ComboBox | ControlType::Edit
            | ControlType::Hyperlink | ControlType::ListItem | ControlType::RadioButton
            | ControlType::Slider | ControlType::Spinner | ControlType::SplitButton
            | ControlType::TabItem | ControlType::TreeItem | ControlType::DataItem
            | ControlType::Thumb,
        ) => ElementRole::Interactive,
        Some(
            ControlType::ToolBar | ControlType::Menu | ControlType::MenuBar | ControlType::MenuItem
            | ControlType::StatusBar | ControlType::TitleBar | ControlType::Header
            | ControlType::HeaderItem | ControlType::ScrollBar | ControlType::Separator
            | ControlType::ToolTip | ControlType::AppBar,
        ) => ElementRole::Chrome,
        _ => ElementRole::Other,
    }
}

/// The text by which an element is searched: what it says of itself, in lower case.
pub open spec fn search_text(
    name: Seq<char>,
    automation_id: Seq<char>,
    class_name: Seq<char>,
    item_type: Seq<char>,
    help_text: Seq<char>,
) -> Seq<char> {
    lowercase_text(
        name + " "@ + automation_id + " "@ + class_name + " "@ + item_type + " "@ + help_text,
    )
}

pub fn element_search_text(
    name: &str,
    automation_id: &str,
    class_name: &str,
    item_type: &str,
    help_text: &str,
) -> (result: String)
    ensures
        result@ == search_text(
            name@,
            automation_id@,
            class_name@,
            item_type@,
            help_text@,
        ),
        result@ == lowercase_text(
            name@ + " "@ + automation_id@ + " "@ + class_name@ + " "@ + item_type@ + " "@
                + help_text@,
        ),
{
    let text = joined(name, " ");
    let text = joined(text.as_str(), automation_id);
    let text = joined(text.as_str(), " ");
    let text = joined(text.as_str(), class_name);
    let text = joined(text.as_str(), " ");
    let text = joined(text.as_str(), item_type);
    let text = joined(text.as_str(), " ");
    let text = joined(text.as_str(), help_text);
    str_to_lowercase(text.as_str())
}

/// The text speaks of shared content.
pub open spec fn is_strong_hint(text: Seq<char>) -> bool {
    ||| has_part(text, "shared content"@)
    ||| has_part(text, "shared screen"@)
    ||| has_part(text, "screen share"@)
    ||| has_part(text, "screen sharing"@)
    ||| has_part(text, "presented content"@)
    ||| has_part(text, "presentation content"@)
    ||| has_part(text, "remote content"@)
    ||| has_part(text, "remote screen"@)
    ||| has_part(text, "powerpoint live"@)
    ||| has_part(text, "content stage"@)
    ||| has_part(text, "sharing content"@)
    ||| has_part(text, "共有コンテンツ"@)
    ||| has_part(text, "共有画面"@)
    ||| has_part(text, "画面共有"@)
    ||| has_part(text, "共有中の画面"@)
    ||| has_part(text, "共有された画面"@)
    ||| has_part(text, "発表者の画面"@)
    ||| has_part(text, "ホワイトボード"@)
}

fn has_strong_hint(text: &Vec<char>) -> (result: bool)
    ensures
        result == is_strong_hint(text@),
{
    contains_chars(text, "shared content")
        || contains_chars(text, "shared screen")
        || contains_chars(text, "screen share")
        || contains_chars(text, "screen sharing")
        || contains_chars(text, "presented content")
        || contains_chars(text, "presentation content")
        || contains_chars(text, "remote content")
        || contains_chars(text, "remote screen")
        || contains_chars(text, "powerpoint live")
        || contains_chars(text, "content stage")
        || contains_chars(text, "sharing content")
        || contains_chars(text, "共有コンテンツ")
        || contains_chars(text, "共有画面")
        || contains_chars(text, "画面共有")
        || contains_chars(text, "共有中の画面")
        || contains_chars(text, "共有された画面")
        || contains_chars(text, "発表者の画面")
        || contains_chars(text, "ホワイトボード")
}

/// The text may speak of shared content.
pub open spec fn is_weak_hint(text: Seq<char>) -> bool {
    ||| has_part(text, "share"@)
    ||| has_part(text, "present"@)
    ||| has_part(text, "presentation"@)
    ||| has_part(text, "content"@)
    ||| has_part(text, "screen"@)
    ||| has_part(text, "stage"@)
    ||| has_part(text, "canvas"@)
    ||| has_part(text, "remote"@)
    ||| has_part(text, "slide"@)
    ||| has_part(text, "共有"@)
    ||| has_part(text, "画面"@)
    ||| has_part(text, "発表"@)
    ||| has_part(text, "プレゼン"@)
    ||| has_part(text, "コンテンツ"@)
    ||| has_part(text, "スライド"@)
}

fn has_weak_hint(text: &Vec<char>) -> (result: bool)
    ensures
        result == is_weak_hint(text@),
{
    contains_chars(text, "share")
        || contains_chars(text, "present")
        || contains_chars(text, "presentation")
        || contains_chars(text, "content")
        || contains_chars(text, "screen")
        || contains_chars(text, "stage")
        || contains_chars(text, "canvas")
        || contains_chars(text, "remote")
        || contains_chars(text, "slide")
        || contains_chars(text, "共有")
        || contains_chars(text, "画面")
        || contains_chars(text, "発表")
        || contains_chars(text, "プレゼン")
        || contains_chars(text, "コンテンツ")
        || contains_chars(text, "スライド")
}

/// The text speaks of something else in the window.
pub open spec fn is_negative_hint(text: Seq<char>) -> bool {
    ||| has_part(text, "toolbar"@)
    ||| has_part(text, "meeting controls"@)
    ||| has_part(text, "control bar"@)
    ||| has_part(text, "chat"@)
    ||| has_part(text, "participants"@)
    ||| has_part(text, "people"@)
    ||| has_part(text, "reactions"@)
    ||| has_part(text, "captions"@)
    ||| has_part(text, "transcript"@)
    ||| has_part(text, "navigation"@)
    ||| has_part(text, "sidebar"@)
    ||| has_part(text, "filmstrip"@)
    ||| has_part(text, "gallery"@)
    ||| has_part(text, "camera preview"@)
    ||| has_part(text, "microphone"@)
    ||| has_part(text, "leave button"@)
    ||| has_part(text, "title bar"@)
    ||| has_part(text, "ツールバー"@)
    ||| has_part(text, "会議コントロール"@)
    ||| has_part(text, "チャット"@)
    ||| has_part(text, "参加者"@)
    ||| has_part(text, "リアクション"@)
    ||| has_part(text, "字幕"@)
    ||| has_part(text, "トランスクリプト"@)
    ||| has_part(text, "ナビゲーション"@)
    ||| has_part(text, "サイドバー"@)
    ||| has_part(text, "退出"@)
}

fn has_negative_hint(text: &Vec<char>) -> (result: bool)
    ensures
        result == is_negative_hint(text@),
{
    contains_chars(text, "toolbar")
        || contains_chars(text, "meeting controls")
        || contains_chars(text, "control bar")
        || contains_chars(text, "chat")
        || contains_chars(text, "participants")
        || contains_chars(text, "people")
        || contains_chars(text, "reactions")
        || contains_chars(text, "captions")
        || contains_chars(text, "transcript")
        || contains_chars(text, "navigation")
        || contains_chars(text, "sidebar")
        || contains_chars(text, "filmstrip")
        || contains_chars(text, "gallery")
        || contains_chars(text, "camera preview")
        || contains_chars(text, "microphone")
        || contains_chars(text, "leave button")
        || contains_chars(text, "title bar")
        || contains_chars(text, "ツールバー")
        || contains_chars(text, "会議コントロール")
        || contains_chars(text, "チャット")
        || contains_chars(text, "参加者")
        || contains_chars(text, "リアクション")
        || contains_chars(text, "字幕")
        || contains_chars(text, "トランスクリプト")
        || contains_chars(text, "ナビゲーション")
        || contains_chars(text, "サイドバー")
        || contains_chars(text, "退出")
}

/// What was gathered of elements at one place.
#[derive(Clone, Debug)]
pub struct UiaAccumulator {
    pub rect: PixelRect,
    pub hits: u32,
    pub nearest_leaf_distance: u32,
    pub role: ElementRole,
    pub text: String,
    pub is_content_element: bool,
}

/// Key under which elements of nearly the same place are gathered.
pub type CandidateKey = (u32, u32, u32, u32);

pub fn candidate_key(rect: PixelRect) -> (result: CandidateKey)
    ensures
        result == (rect.x / 3, rect.y / 3, rect.width / 3, rect.height / 3),
{
    (rect.x / 3, rect.y / 3, rect.width / 3, rect.height / 3)
}

/// The rectangle is large enough to show content. In an image without pixels its size alone
/// counts.
pub open spec fn is_large(rect: PixelRect, width: u32, height: u32) -> bool {
    &&& rect.width >= max_int(width as int / 10, 80)
    &&& rect.height >= max_int(height as int / 10, 45)
    &&& width * height == 0 || fraction(
        rect.pixel_count() as nat,
        (width * height) as nat,
    ).at_least(fraction(4, 100))
}

pub fn is_uia_candidate_rect(rect: PixelRect, geometry: WindowGeometry) -> (result: bool)
    ensures
        result == is_large(rect, geometry.image_width, geometry.image_height),
{
    let min_width: u32 = max_u32(geometry.image_width / 10, 80);
    let min_height: u32 = max_u32(geometry.image_height / 10, 45);
    if rect.width < min_width || rect.height < min_height {
        return false;
    }
    let area: u64 = PixelRect::new(0, 0, geometry.image_width, geometry.image_height).area();
    area == 0 || ratio(rect.area(), area).ge(ratio(4, 100))
}

/// Number of edges of the image that a rectangle nearly touches.
pub open spec fn touched_edges(rect: PixelRect, width: u32, height: u32) -> int {
    let tolerance_x = max_int(width as int / 100, 2);
    let tolerance_y = max_int(height as int / 100, 2);
    (if rect.x <= tolerance_x {
        1int
    } else {
        0
    }) + (if rect.y <= tolerance_y {
        1int
    } else {
        0
    }) + (if saturating_sum(rect.right_edge(), tolerance_x) >= width {
        1int
    } else {
        0
    }) + (if saturating_sum(rect.bottom_edge(), tolerance_y) >= height {
        1int
    } else {
        0
    })
}

pub fn touching_edge_count(rect: PixelRect, geometry: WindowGeometry) -> (result: u8)
    ensures
        result == touched_edges(rect, geometry.image_width, geometry.image_height),
        result <= 4,
{
    let tolerance_x: u32 = max_u32(geometry.image_width / 100, 2);
    let tolerance_y: u32 = max_u32(geometry.image_height / 100, 2);
    let mut count: u8 = 0;
    if rect.x <= tolerance_x {
        count += 1;
    }
    if rect.y <= tolerance_y {
        count += 1;
    }
    if rect.right().saturating_add(tolerance_x) >= geometry.image_width {
        count += 1;
    }
    if rect.bottom().saturating_add(tolerance_y) >= geometry.image_height {
        count += 1;
    }
    count
}

/// Distance of the middle of a stretch from the middle of the whole, up to one.
pub open spec fn off_middle(start: u32, length: u32, whole_length: u32) -> Single {
    whole(start as nat).plus(whole(length as nat).over(whole(2))).over(
        whole(whole_length as nat),
    ).minus(fraction(50, 100)).absolute().times(whole(2))
}

fn measure_off_middle(start: u32, length: u32, whole_length: u32) -> (result: Single)
    ensures
        result == off_middle(start, length, whole_length),
{
    from_int(start as u64).add(from_int(length as u64).div(from_int(2))).div(
        from_int(whole_length as u64),
    ).sub(ratio(50, 100)).abs().mul(from_int(2))
}

/// How near the middle of the image a rectangle stands.
pub open spec fn middleness(rect: PixelRect, width: u32, height: u32) -> Single {
    let dx = off_middle(rect.x, rect.width, width);
    let dy = off_middle(rect.y, rect.height, height);
    whole(1).minus(
        dx.times(dx).plus(dy.times(dy)).root().over(whole(2).root()).held(zero(), whole(1)),
    )
}

/// What the share of the image counts.
pub open spec fn area_weight(share: Single) -> Single {
    if between(share, 10, 92) {
        fraction(14, 100)
    } else if between(share, 5, 98) {
        fraction(6, 100)
    } else {
        fraction(15, 100).negated()
    }
}

/// What the role of the element counts.
pub open spec fn role_weight(role: ElementRole) -> Single {
    match role {
        ElementRole::Image => fraction(14, 100),
        ElementRole::Document => fraction(13, 100),
        ElementRole::Custom => fraction(10, 100),
        ElementRole::Pane => fraction(8, 100),
        ElementRole::Group => fraction(6, 100),
        ElementRole::Other => fraction(2, 100),
        ElementRole::Text => fraction(18, 100).negated(),
        ElementRole::Interactive => fraction(22, 100).negated(),
        ElementRole::Chrome => fraction(35, 100).negated(),
    }
}

fn weigh_area(share: Single) -> (result: Single)
    ensures
        result == area_weight(share),
{
    if is_between(share, 10, 92) {
        ratio(14, 100)
    } else if is_between(share, 5, 98) {
        ratio(6, 100)
    } else {
        ratio(15, 100).neg()
    }
}

fn weigh_role(role: ElementRole) -> (result: Single)
    ensures
        result == role_weight(role),
{
    match role {
        ElementRole::Image => ratio(14, 100),
        ElementRole::Document => ratio(13, 100),
        ElementRole::Custom => ratio(10, 100),
        ElementRole::Pane => ratio(8, 100),
        ElementRole::Group => ratio(6, 100),
        ElementRole::Other => ratio(2, 100),
        ElementRole::Text => ratio(18, 100).neg(),
        ElementRole::Interactive => ratio(22, 100).neg(),
        ElementRole::Chrome => ratio(35, 100).neg(),
    }
}

/// A confidence with some hundredths more, where a condition holds.
pub open spec fn raised(confidence: Single, condition: bool, hundredths: nat) -> Single {
    if condition {
        confidence.plus(fraction(hundredths, 100))
    } else {
        confidence
    }
}

/// A confidence with some hundredths less, where a condition holds.
pub open spec fn lowered(confidence: Single, condition: bool, hundredths: nat) -> Single {
    if condition {
        confidence.minus(fraction(hundredths, 100))
    } else {
        confidence
    }
}

fn raise(confidence: Single, condition: bool, hundredths: u64) -> (result: Single)
    ensures
        result == raised(confidence, condition, hundredths as nat),
{
    if condition {
        confidence.add(ratio(hundredths, 100))
    } else {
        confidence
    }
}

fn lower(confidence: Single, condition: bool, hundredths: u64) -> (result: Single)
    ensures
        result == lowered(confidence, condition, hundredths as nat),
{
    if condition {
        confidence.sub(ratio(hundredths, 100))
    } else {
        confidence
    }
}

/// What place, size, hits and depth of an element say.
pub open spec fn place_confidence(
    rect: PixelRect,
    hits: u32,
    leaf_distance: u32,
    width: u32,
    height: u32,
) -> Single {
    let share = fraction(rect.pixel_count() as nat, (width * height) as nat);
    fraction(5, 100).plus(area_weight(share)).plus(
        fraction(7, 100).times(
            whole(1).minus(
                share.minus(fraction(48, 100)).absolute().over(fraction(48, 100)).smaller(whole(1)),
            ),
        ),
    ).plus(middleness(rect, width, height).times(fraction(12, 100))).plus(
        fraction(min_int(hits as int, 18) as nat, 18).times(fraction(20, 100)),
    ).plus(
        fraction(12, 100).over(
            whole(1).plus(whole(leaf_distance as nat).times(fraction(55, 100))),
        ),
    )
}

fn rate_place(rect: PixelRect, hits: u32, leaf_distance: u32, width: u32, height: u32) -> (result:
    Single)
    requires
        width > 0,
        height > 0,
    ensures
        result == place_confidence(rect, hits, leaf_distance, width, height),
{
    let share = ratio(rect.area(), PixelRect::new(0, 0, width, height).area());
    let dx = measure_off_middle(rect.x, rect.width, width);
    let dy = measure_off_middle(rect.y, rect.height, height);
    let middle = from_int(1).sub(
        dx.mul(dx).add(dy.mul(dy)).sqrt().div(from_int(2).sqrt()).clamp(from_int(0), from_int(1)),
    );
    ratio(5, 100).add(weigh_area(share)).add(
        ratio(7, 100).mul(
            from_int(1).sub(
                share.sub(ratio(48, 100)).abs().div(ratio(48, 100)).min(from_int(1)),
            ),
        ),
    ).add(middle.mul(ratio(12, 100))).add(
        ratio(min_u32(hits, 18) as u64, 18).mul(ratio(20, 100)),
    ).add(
        ratio(12, 100).div(
            from_int(1).add(from_int(leaf_distance as u64).mul(ratio(55, 100))),
        ),
    )
}

/// How sure an element is to show shared content, by what it is, where it stands and what it
/// says of itself.
pub open spec fn element_confidence(
    rect: PixelRect,
    hits: u32,
    leaf_distance: u32,
    role: ElementRole,
    text: Seq<char>,
    is_content: bool,
    width: u32,
    height: u32,
) -> Single {
    let share = fraction(rect.pixel_count() as nat, (width * height) as nat);
    let strong = is_strong_hint(text);
    let edges = touched_edges(rect, width, height);
    let placed = place_confidence(rect, hits, leaf_distance, width, height).plus(
        role_weight(role),
    );
    let content = raised(placed, is_content, 5);
    let wide = raised(
        content,
        fraction(rect.width as nat, width as nat).at_least(fraction(35, 100)),
        4,
    );
    let high = raised(
        wide,
        fraction(rect.height as nat, height as nat).at_least(fraction(35, 100)),
        4,
    );
    let hinted = raised(raised(high, strong, 38), !strong && is_weak_hint(text), 13);
    let contradicted = lowered(hinted, is_negative_hint(text), 32);
    let inner = lowered(
        lowered(lowered(contradicted, edges >= 3, 28), edges == 2, 12),
        edges == 1,
        3,
    );
    lowered(inner, fraction(96, 100).less(share) && !strong, 20)
}

/// The candidate that a gathered element gives in a window.
pub fn candidate_to_content_candidate(candidate: &UiaAccumulator, geometry: WindowGeometry) -> (result:
    Option<ContentCandidate>)
    ensures
        geometry.image_width == 0 || geometry.image_height == 0 ==> result is None,
        geometry.image_width > 0 && geometry.image_height > 0 ==> result == Some(
            ContentCandidate::held(
                candidate.rect,
                element_confidence(
                    candidate.rect,
                    candidate.hits,
                    candidate.nearest_leaf_distance,
                    candidate.role,
                    candidate.text@,
                    candidate.is_content_element,
                    geometry.image_width,
                    geometry.image_height,
                ),
            ),
        ),
{
    let width: u32 = geometry.image_width;
    let height: u32 = geometry.image_height;
    if width == 0 || height == 0 {
        return None;
    }
    let rect = candidate.rect;
    let share = ratio(rect.area(), PixelRect::new(0, 0, width, height).area());
    let text = chars_of_string(&candidate.text);
    let strong = has_strong_hint(&text);
    let weak = has_weak_hint(&text);
    let negative = has_negative_hint(&text);
    let placed = rate_place(
        rect,
        candidate.hits,
        candidate.nearest_leaf_distance,
        width,
        height,
    ).add(weigh_role(candidate.role));
    let content = raise(placed, candidate.is_content_element, 5);
    let wide = raise(content, ratio(rect.width as u64, width as u64).ge(ratio(35, 100)), 4);
    let high = raise(wide, ratio(rect.height as u64, height as u64).ge(ratio(35, 100)), 4);
    let hinted = raise(raise(high, strong, 38), !strong && weak, 13);
    let contradicted = lower(hinted, negative, 32);
    let edges: u8 = touching_edge_count(rect, geometry);
    let inner = lower(lower(lower(contradicted, edges >= 3, 28), edges == 2, 12), edges == 1, 3);
    let confidence = lower(inner, ratio(96, 100).lt(share) && !strong, 20);
    Some(ContentCandidate::new(rect, confidence))
}

/// Every kind of element has the role that suits it: what can be operated is no content, nor
/// is what frames a window, and only pictures, documents, custom elements, panes and groups
/// have roles of their own.
pub proof fn law_roles_follow_the_kind(control_type: ControlType)
    ensures
        role_of(None) is Other,
        role_of(Some(control_type)) is Image <==> control_type is Image,
        role_of(Some(control_type)) is Document <==> control_type is Document,
        role_of(Some(control_type)) is Custom <==> control_type is Custom,
        role_of(Some(control_type)) is Pane <==> control_type is Pane,
        role_of(Some(control_type)) is Group <==> control_type is Group,
        role_of(Some(control_type)) is Text <==> control_type is Text,
        control_type is Button || control_type is Edit || control_type is ListItem || control_type
            is CheckBox || control_type is ComboBox || control_type is Hyperlink || control_type
            is RadioButton || control_type is Slider || control_type is Spinner || control_type
            is SplitButton || control_type is TabItem || control_type is TreeItem || control_type
            is DataItem || control_type is Thumb <==> role_of(Some(control_type)) is Interactive,
        control_type is ToolBar || control_type is Menu || control_type is MenuBar || control_type
            is MenuItem || control_type is StatusBar || control_type is TitleBar || control_type
            is Header || control_type is HeaderItem || control_type is ScrollBar || control_type
            is Separator || control_type is ToolTip || control_type is AppBar <==> role_of(
            Some(control_type),
        ) is Chrome,
{
}

/// A hint counts wherever it stands in the text: what follows or goes before it does not
/// take it away.
pub proof fn law_hints_are_found_anywhere(before: Seq<char>, text: Seq<char>, after: Seq<char>)
    ensures
        is_strong_hint(text) ==> is_strong_hint(before + text + after),
        is_weak_hint(text) ==> is_weak_hint(before + text + after),
        is_negative_hint(text) ==> is_negative_hint(before + text + after),
{
    assert forall|part: Seq<char>| has_part(text, part) implies #[trigger] has_part(
        before + text + after,
        part,
    ) by {
        let at = choose|at: int| #[trigger] occurs_at(text, part, at);
        let longer = before + text + after;
        let place = before.len() + at;
        assert(longer.subrange(place, place + part.len()) =~= text.subrange(at, at + part.len()));
        assert(occurs_at(longer, part, place));
    }
}

/// An element is large enough where it takes a tenth of the window each way, no less than 80
/// by 45 pixels, and a 25th of its area; a smaller one is not.
pub proof fn law_large_elements_take_a_tenth(rect: PixelRect, width: u32, height: u32)
    requires
        width * height < 0x100_0000,
        rect.pixel_count() < 0x100_0000,
    ensures
        rect.width >= 80 && rect.height >= 45 && rect.width * 10 >= width && rect.height * 10
            >= height && rect.pixel_count() * 25 >= width * height ==> is_large(
            rect,
            width,
            height,
        ),
        rect.width < 80 || rect.height < 45 ==> !is_large(rect, width, height),
        rect.width * 10 + 10 <= width || rect.height * 10 + 10 <= height ==> !is_large(
            rect,
            width,
            height,
        ),
{
    let area = (width * height) as nat;
    assert(width * height >= 0) by (nonlinear_arith);
    assert(rect.pixel_count() >= 0) by (nonlinear_arith)
        requires
            rect.pixel_count() == rect.width * rect.height,
    ;
    if area > 0 && rect.pixel_count() * 25 >= area {
        law_larger_shares_reach_smaller_ones(4, 100, rect.pixel_count() as nat, area);
    }
}

/// An edge is touched from two pixels or a hundredth of the window on; an element in the
/// middle touches none, one that fills the window all.
pub proof fn law_edges_are_touched_from_near(rect: PixelRect, width: u32, height: u32)
    requires
        rect.x + rect.width <= width,
        rect.y + rect.height <= height,
    ensures
        0 <= touched_edges(rect, width, height) <= 4,
        rect.x == 0 && rect.y == 0 && rect.width == width && rect.height == height
            ==> touched_edges(rect, width, height) == 4,
        rect.x > 2 && rect.y > 2 && rect.x > width / 100 && rect.y > height / 100 && rect.x
            + rect.width + 2 < width && rect.y + rect.height + 2 < height && rect.x + rect.width
            + width / 100 < width && rect.y + rect.height + height / 100 < height
            ==> touched_edges(rect, width, height) == 0,
        rect.x <= 2 ==> touched_edges(rect, width, height) >= 1,
        rect.x <= 2 && rect.y <= 2 ==> touched_edges(rect, width, height) >= 2,
        rect.x <= 2 && rect.y <= 2 && rect.x + rect.width + 2 >= width ==> touched_edges(
            rect,
            width,
            height,
        ) >= 3,
{
}

/// Roles are worth less and less from pictures to what frames a window, and below nothing
/// from text on.
pub proof fn law_pictures_are_worth_most()
    ensures
        role_weight(ElementRole::Image).at_least(role_weight(ElementRole::Document)),
        role_weight(ElementRole::Document).at_least(role_weight(ElementRole::Custom)),
        role_weight(ElementRole::Custom).at_least(role_weight(ElementRole::Pane)),
        role_weight(ElementRole::Pane).at_least(role_weight(ElementRole::Group)),
        role_weight(ElementRole::Group).at_least(role_weight(ElementRole::Other)),
        role_weight(ElementRole::Other).at_least(zero()),
        role_weight(ElementRole::Other).at_least(role_weight(ElementRole::Text)),
        zero().at_least(role_weight(ElementRole::Text)),
        role_weight(ElementRole::Text).at_least(role_weight(ElementRole::Interactive)),
        role_weight(ElementRole::Interactive).at_least(role_weight(ElementRole::Chrome)),
        role_weight(ElementRole::Image).at_least(fraction(13, 100)),
{
    law_shares_are_compared_by_their_parts(14, 13, 100);
    law_shares_are_compared_by_their_parts(13, 10, 100);
    law_shares_are_compared_by_their_parts(10, 8, 100);
    law_shares_are_compared_by_their_parts(8, 6, 100);
    law_shares_are_compared_by_their_parts(6, 2, 100);
    law_shares_are_compared_by_their_parts(22, 18, 100);
    law_shares_are_compared_by_their_parts(35, 22, 100);
    lemma_weights_are_modest();
    lemma_zero_is_modest();
    law_fractions_are_not_negative(2, 100);
    law_fractions_are_not_negative(18, 100);
    law_negation_turns_the_order(fraction(2, 100), fraction(18, 100));
    law_negation_turns_the_order(zero(), fraction(18, 100));
    law_negation_turns_the_order(fraction(22, 100), fraction(18, 100));
    law_negation_turns_the_order(fraction(35, 100), fraction(22, 100));
}

proof fn lemma_weights_are_modest()
    ensures
        is_modest(fraction(2, 100), 64),
        is_modest(fraction(18, 100), 64),
        is_modest(fraction(22, 100), 64),
        is_modest(fraction(35, 100), 64),
{
    lemma_fractions_are_modest(2, 100);
    lemma_fractions_are_modest(18, 100);
    lemma_fractions_are_modest(22, 100);
    lemma_fractions_are_modest(35, 100);
}

/// Middle sizes are worth most, and sizes near nothing or everything less than nothing.
pub proof fn law_middle_sizes_are_worth_most(part: nat, middle: nat, area: nat)
    requires
        0 < area < 0x100_0000,
        part < 0x100_0000,
        middle < 0x100_0000,
        middle * 10 >= area,
        middle * 100 <= area * 92,
    ensures
        area_weight(fraction(middle, area)).at_least(area_weight(fraction(part, area))),
        area_weight(fraction(middle, area)) == fraction(14, 100),
        part * 20 >= area && part * 100 <= area * 98 ==> area_weight(
            fraction(part, area),
        ).at_least(fraction(6, 100)),
{
    assert(10 * area <= middle * 100) by (nonlinear_arith)
        requires
            middle * 10 >= area,
    ;
    law_larger_shares_reach_smaller_ones(10, 100, middle, area);
    law_larger_shares_reach_smaller_ones(middle, area, 92, 100);
    law_shares_are_compared_by_their_parts(14, 6, 100);
    law_shares_are_compared_by_their_parts(14, 14, 100);
    law_shares_are_compared_by_their_parts(6, 6, 100);
    lemma_fractions_are_modest(14, 100);
    lemma_fractions_are_modest(15, 100);
    law_fractions_are_not_negative(14, 100);
    law_fractions_are_not_negative(15, 100);
    law_negation_turns_the_order(fraction(14, 100), fraction(15, 100));
    if part * 20 >= area && part * 100 <= area * 98 {
        assert(5 * area <= part * 100) by (nonlinear_arith)
            requires
                part * 20 >= area,
        ;
        law_larger_shares_reach_smaller_ones(5, 100, part, area);
        law_larger_shares_reach_smaller_ones(part, area, 98, 100);
    }
}

proof fn lemma_raised_in_order(
    large: Single,
    small: Single,
    more: bool,
    less: bool,
    hundredths: nat,
    bound: int,
)
    requires
        is_modest(large, bound),
        is_modest(small, bound),
        64 <= bound <= 0xff00,
        large.at_least(small),
        less ==> more,
        hundredths < 100,
    ensures
        raised(large, more, hundredths).at_least(raised(small, less, hundredths)),
        is_modest(raised(large, more, hundredths), bound + 48),
        is_modest(raised(small, less, hundredths), bound + 48),
{
    let step = fraction(hundredths, 100);
    lemma_fractions_are_modest(hundredths, 100);
    lemma_sums_are_modest(large, step, bound);
    lemma_sums_are_modest(small, step, bound);
    law_adding_keeps_the_order(large, small, step);
    law_fractions_are_not_negative(hundredths, 100);
    lemma_zero_is_modest();
    law_adding_keeps_the_order(step, zero(), large);
    law_numbers_cancel(large);
    if more && !less {
        law_order_is_transitive(large.plus(step), large, small);
    }
}

proof fn lemma_lowered_in_order(
    large: Single,
    small: Single,
    less: bool,
    more: bool,
    hundredths: nat,
    bound: int,
)
    requires
        is_modest(large, bound),
        is_modest(small, bound),
        64 <= bound <= 0xff00,
        large.at_least(small),
        less ==> more,
        hundredths < 100,
    ensures
        lowered(large, less, hundredths).at_least(lowered(small, more, hundredths)),
        is_modest(lowered(large, less, hundredths), bound + 48),
        is_modest(lowered(small, more, hundredths), bound + 48),
{
    let step = fraction(hundredths, 100);
    lemma_fractions_are_modest(hundredths, 100);
    lemma_sums_are_modest(large, step, bound);
    lemma_sums_are_modest(small, step, bound);
    law_adding_keeps_the_order(large, small, step);
    law_fractions_are_not_negative(hundredths, 100);
    lemma_zero_is_modest();
    law_negation_turns_the_order(zero(), step);
    law_negation_turns_the_order(step, zero());
    law_adding_keeps_the_order(zero(), step.negated(), small);
    law_numbers_cancel(small);
    if more && !less {
        law_order_is_transitive(large, small, small.minus(step));
    }
}

/// Of two elements at the same place the one with the better signs is at least as sure: a
/// better role, being content, a strong hint before a weak one before none, and nothing that
/// speaks against it.
pub proof fn law_better_signs_are_surer(
    rect: PixelRect,
    hits: u32,
    leaf_distance: u32,
    better: ElementRole,
    other: ElementRole,
    text: Seq<char>,
    other_text: Seq<char>,
    is_content: bool,
    other_is_content: bool,
    width: u32,
    height: u32,
)
    requires
        role_weight(better).at_least(role_weight(other)),
        other_is_content ==> is_content,
        is_strong_hint(other_text) ==> is_strong_hint(text),
        is_weak_hint(other_text) ==> is_weak_hint(text) || is_strong_hint(text),
        is_negative_hint(text) ==> is_negative_hint(other_text),
    ensures
        element_confidence(
            rect,
            hits,
            leaf_distance,
            better,
            text,
            is_content,
            width,
            height,
        ).at_least(
            element_confidence(
                rect,
                hits,
                leaf_distance,
                other,
                other_text,
                other_is_content,
                width,
                height,
            ),
        ),
{
    let base = place_confidence(rect, hits, leaf_distance, width, height);
    let share = fraction(rect.pixel_count() as nat, (width * height) as nat);
    let edges = touched_edges(rect, width, height);
    let is_wide = fraction(rect.width as nat, width as nat).at_least(fraction(35, 100));
    let is_high = fraction(rect.height as nat, height as nat).at_least(fraction(35, 100));
    let strong = is_strong_hint(text);
    let other_strong = is_strong_hint(other_text);
    let weak = !strong && is_weak_hint(text);
    let other_weak = !other_strong && is_weak_hint(other_text);
    lemma_place_is_modest(rect, hits, leaf_distance, width, height);
    lemma_roles_are_modest(better);
    lemma_roles_are_modest(other);
    law_adding_keeps_the_order(role_weight(better), role_weight(other), base);
    lemma_sums_are_modest(base, role_weight(better), 0x4000);
    lemma_sums_are_modest(base, role_weight(other), 0x4000);
    let a0 = base.plus(role_weight(better));
    let b0 = base.plus(role_weight(other));
    let k = 0x4030int;
    lemma_raised_in_order(a0, b0, is_content, other_is_content, 5, k);
    let a1 = raised(a0, is_content, 5);
    let b1 = raised(b0, other_is_content, 5);
    lemma_raised_in_order(a1, b1, is_wide, is_wide, 4, k + 48);
    let a2 = raised(a1, is_wide, 4);
    let b2 = raised(b1, is_wide, 4);
    lemma_raised_in_order(a2, b2, is_high, is_high, 4, k + 96);
    let a3 = raised(a2, is_high, 4);
    let b3 = raised(b2, is_high, 4);
    lemma_hints_in_order(a3, b3, strong, other_strong, weak, other_weak, k + 144);
    let a4 = raised(raised(a3, strong, 38), weak, 13);
    let b4 = raised(raised(b3, other_strong, 38), other_weak, 13);
    let m: int = k + 240;
    lemma_lowered_in_order(
        a4,
        b4,
        is_negative_hint(text),
        is_negative_hint(other_text),
        32,
        m,
    );
    let a5 = lowered(a4, is_negative_hint(text), 32);
    let b5 = lowered(b4, is_negative_hint(other_text), 32);
    lemma_lowered_in_order(a5, b5, edges >= 3, edges >= 3, 28, m + 48);
    let a6 = lowered(a5, edges >= 3, 28);
    let b6 = lowered(b5, edges >= 3, 28);
    lemma_lowered_in_order(a6, b6, edges == 2, edges == 2, 12, m + 96);
    let a7 = lowered(a6, edges == 2, 12);
    let b7 = lowered(b6, edges == 2, 12);
    lemma_lowered_in_order(a7, b7, edges == 1, edges == 1, 3, m + 144);
    let a8 = lowered(a7, edges == 1, 3);
    let b8 = lowered(b7, edges == 1, 3);
    let fills = fraction(96, 100).less(share);
    lemma_lowered_in_order(a8, b8, fills && !strong, fills && !other_strong, 20, m + 192);
}

proof fn lemma_roles_are_modest(role: ElementRole)
    ensures
        is_modest(role_weight(role), 0x1000),
{
    lemma_weights_are_modest();
    lemma_fractions_are_modest(14, 100);
    lemma_fractions_are_modest(13, 100);
    lemma_fractions_are_modest(10, 100);
    lemma_fractions_are_modest(8, 100);
    lemma_fractions_are_modest(6, 100);
    lemma_canonical_is_kept(fraction(18, 100));
    lemma_canonical_is_kept(fraction(22, 100));
    lemma_canonical_is_kept(fraction(35, 100));
}

proof fn lemma_hints_in_order(
    large: Single,
    small: Single,
    strong: bool,
    other_strong: bool,
    weak: bool,
    other_weak: bool,
    bound: int,
)
    requires
        is_modest(large, bound),
        is_modest(small, bound),
        64 <= bound <= 0xf000,
        large.at_least(small),
        other_strong ==> strong,
        other_weak ==> weak || strong,
        !(strong && weak),
        !(other_strong && other_weak),
    ensures
        raised(raised(large, strong, 38), weak, 13).at_least(
            raised(raised(small, other_strong, 38), other_weak, 13),
        ),
        is_modest(raised(raised(large, strong, 38), weak, 13), bound + 96),
        is_modest(raised(raised(small, other_strong, 38), other_weak, 13), bound + 96),
{
    let a = raised(large, strong, 38);
    let b = raised(small, other_strong, 38);
    lemma_raised_in_order(large, small, strong, other_strong, 38, bound);
    if other_weak && !weak {
        // A strong hint against a weak one.
        let much = fraction(38, 100);
        let little = fraction(13, 100);
        lemma_fractions_are_modest(38, 100);
        lemma_fractions_are_modest(13, 100);
        law_shares_are_compared_by_their_parts(38, 13, 100);
        law_adding_keeps_the_order(much, little, large);
        law_adding_keeps_the_order(large, small, little);
        lemma_sums_are_modest(large, little, bound);
        lemma_sums_are_modest(small, little, bound);
        law_order_is_transitive(large.plus(much), large.plus(little), small.plus(little));
    } else {
        lemma_raised_in_order(a, b, weak, other_weak, 13, bound + 48);
    }
}

/// What the place of an element says is a modest number.
proof fn lemma_place_is_modest(
    rect: PixelRect,
    hits: u32,
    leaf_distance: u32,
    width: u32,
    height: u32,
)
    ensures
        is_modest(place_confidence(rect, hits, leaf_distance, width, height), 0x4000),
        is_modest(before_hits(rect, width, height), 0x3800),
        is_modest(hits_part(hits), 0x1000),
        is_modest(leaf_part(leaf_distance), 0x1000),
{
    let area = (width * height) as nat;
    let share = fraction(rect.pixel_count() as nat, area);
    assert(0 <= width * height <= 0xffff_ffff * 0xffff_ffff) by (nonlinear_arith)
        requires
            0 <= width <= 0xffff_ffff,
            0 <= height <= 0xffff_ffff,
    ;
    assert(0 <= rect.pixel_count() <= 0xffff_ffff * 0xffff_ffff) by (nonlinear_arith)
        requires
            rect.pixel_count() == rect.width * rect.height,
            0 <= rect.width <= 0xffff_ffff,
            0 <= rect.height <= 0xffff_ffff,
    ;
    lemma_naturals_are_modest(rect.pixel_count() as nat);
    lemma_naturals_are_modest(area);
    lemma_results_are_modest(whole(rect.pixel_count() as nat), whole(area), 128);
    lemma_fractions_are_modest(48, 100);
    lemma_fractions_are_modest(5, 100);
    lemma_fractions_are_modest(6, 100);
    lemma_fractions_are_modest(7, 100);
    lemma_fractions_are_modest(12, 100);
    lemma_fractions_are_modest(14, 100);
    lemma_fractions_are_modest(15, 100);
    lemma_fractions_are_modest(20, 100);
    lemma_fractions_are_modest(55, 100);
    lemma_zero_is_modest();
    lemma_canonical_is_kept(fraction(15, 100));
    let off = share.minus(fraction(48, 100));
    lemma_sums_are_modest(share, fraction(48, 100), 304);
    lemma_results_are_modest(off, off, 352);
    let far = off.absolute().over(fraction(48, 100));
    lemma_results_are_modest(off.absolute(), fraction(48, 100), 352);
    lemma_results_are_modest(far, whole(1), 752);
    let near = whole(1).minus(far.smaller(whole(1)));
    lemma_sums_are_modest(whole(1), far.smaller(whole(1)), 752);
    let sized = fraction(7, 100).times(near);
    lemma_results_are_modest(fraction(7, 100), near, 800);
    lemma_sums_are_modest(fraction(5, 100), area_weight(share), 64);
    let first = fraction(5, 100).plus(area_weight(share));
    lemma_sums_are_modest(first, sized, 1648);
    lemma_middle_is_modest(rect, width, height);
    let middle = middleness(rect, width, height).times(fraction(12, 100));
    lemma_results_are_modest(middleness(rect, width, height), fraction(12, 100), 6976);
    lemma_sums_are_modest(first.plus(sized), middle, 14000);
    let count = min_int(hits as int, 18) as nat;
    lemma_fractions_are_modest(count, 18);
    lemma_results_are_modest(fraction(count, 18), fraction(20, 100), 64);
    lemma_naturals_are_modest(leaf_distance as nat);
    lemma_results_are_modest(whole(leaf_distance as nat), fraction(55, 100), 128);
    let step = whole(leaf_distance as nat).times(fraction(55, 100));
    lemma_sums_are_modest(whole(1), step, 304);
    lemma_results_are_modest(fraction(12, 100), whole(1).plus(step), 352);
    let before = before_hits(rect, width, height);
    lemma_sums_are_modest(before, hits_part(hits), 14048);
    lemma_sums_are_modest(before.plus(hits_part(hits)), leaf_part(leaf_distance), 14096);
}

proof fn lemma_middle_is_modest(rect: PixelRect, width: u32, height: u32)
    ensures
        is_modest(middleness(rect, width, height), 6976),
{
    let dx = off_middle(rect.x, rect.width, width);
    let dy = off_middle(rect.y, rect.height, height);
    lemma_off_middle_is_modest(rect.x, rect.width, width);
    lemma_off_middle_is_modest(rect.y, rect.height, height);
    lemma_results_are_modest(dx, dx, 1648);
    lemma_results_are_modest(dy, dy, 1648);
    lemma_sums_are_modest(dx.times(dx), dy.times(dy), 3344);
    let sum = dx.times(dx).plus(dy.times(dy));
    lemma_results_are_modest(sum, sum, 3392);
    lemma_naturals_are_modest(2);
    lemma_results_are_modest(whole(2), whole(2), 128);
    lemma_results_are_modest(sum.root(), whole(2).root(), 3440);
    let far = sum.root().over(whole(2).root());
    lemma_zero_is_modest();
    lemma_results_are_modest(far, zero(), 6928);
    lemma_results_are_modest(far.larger(zero()), whole(1), 6928);
    lemma_sums_are_modest(whole(1), far.held(zero(), whole(1)), 6928);
}

proof fn lemma_off_middle_is_modest(start: u32, length: u32, whole_length: u32)
    ensures
        is_modest(off_middle(start, length, whole_length), 1648),
{
    lemma_naturals_are_modest(start as nat);
    lemma_naturals_are_modest(length as nat);
    lemma_naturals_are_modest(whole_length as nat);
    lemma_naturals_are_modest(2);
    lemma_fractions_are_modest(50, 100);
    lemma_results_are_modest(whole(length as nat), whole(2), 128);
    let half = whole(length as nat).over(whole(2));
    lemma_sums_are_modest(whole(start as nat), half, 304);
    let center = whole(start as nat).plus(half);
    lemma_results_are_modest(center, whole(whole_length as nat), 352);
    let place = center.over(whole(whole_length as nat));
    lemma_sums_are_modest(place, fraction(50, 100), 752);
    let off = place.minus(fraction(50, 100));
    lemma_results_are_modest(off, off, 800);
    lemma_results_are_modest(off.absolute(), whole(2), 800);
}

spec fn before_hits(rect: PixelRect, width: u32, height: u32) -> Single {
    let share = fraction(rect.pixel_count() as nat, (width * height) as nat);
    fraction(5, 100).plus(area_weight(share)).plus(
        fraction(7, 100).times(
            whole(1).minus(
                share.minus(fraction(48, 100)).absolute().over(fraction(48, 100)).smaller(whole(1)),
            ),
        ),
    ).plus(middleness(rect, width, height).times(fraction(12, 100)))
}

spec fn hits_part(hits: u32) -> Single {
    fraction(min_int(hits as int, 18) as nat, 18).times(fraction(20, 100))
}

spec fn leaf_part(leaf_distance: u32) -> Single {
    fraction(12, 100).over(whole(1).plus(whole(leaf_distance as nat).times(fraction(55, 100))))
}

/// An element that was hit more often is at least as sure, up to 18 hits.
pub proof fn law_hits_are_worth_something(
    rect: PixelRect,
    hits: u32,
    more: u32,
    leaf_distance: u32,
    width: u32,
    height: u32,
)
    requires
        hits <= more,
    ensures
        place_confidence(rect, more, leaf_distance, width, height).at_least(
            place_confidence(rect, hits, leaf_distance, width, height),
        ),
        hits >= 18 ==> place_confidence(rect, more, leaf_distance, width, height)
            == place_confidence(rect, hits, leaf_distance, width, height),
{
    let x = min_int(hits as int, 18) as nat;
    let y = min_int(more as int, 18) as nat;
    law_shares_are_compared_by_their_parts(y, x, 18);
    lemma_fractions_are_modest(x, 18);
    lemma_fractions_are_modest(y, 18);
    lemma_fractions_are_modest(20, 100);
    law_fractions_are_not_negative(20, 100);
    law_multiplying_keeps_the_order(fraction(y, 18), fraction(x, 18), fraction(20, 100));
    lemma_place_is_modest(rect, hits, leaf_distance, width, height);
    lemma_place_is_modest(rect, more, leaf_distance, width, height);
    let before = before_hits(rect, width, height);
    law_adding_keeps_the_order(hits_part(more), hits_part(hits), before);
    lemma_sums_are_modest(before, hits_part(more), 0x3800);
    lemma_sums_are_modest(before, hits_part(hits), 0x3800);
    law_adding_keeps_the_order(
        before.plus(hits_part(more)),
        before.plus(hits_part(hits)),
        leaf_part(leaf_distance),
    );
}

/// Whatever names shared content outright is a strong hint, wherever it stands in the text.
pub proof fn law_sharing_words_are_strong_hints(text: Seq<char>)
    ensures
        has_part(text, "shared content"@) ==> is_strong_hint(text),
        has_part(text, "shared screen"@) ==> is_strong_hint(text),
        has_part(text, "screen share"@) ==> is_strong_hint(text),
        has_part(text, "screen sharing"@) ==> is_strong_hint(text),
        has_part(text, "presented content"@) ==> is_strong_hint(text),
        has_part(text, "presentation content"@) ==> is_strong_hint(text),
        has_part(text, "remote content"@) ==> is_strong_hint(text),
        has_part(text, "remote screen"@) ==> is_strong_hint(text),
        has_part(text, "powerpoint live"@) ==> is_strong_hint(text),
        has_part(text, "content stage"@) ==> is_strong_hint(text),
        has_part(text, "sharing content"@) ==> is_strong_hint(text),
        has_part(text, "共有コンテンツ"@) ==> is_strong_hint(text),
        has_part(text, "共有画面"@) ==> is_strong_hint(text),
        has_part(text, "画面共有"@) ==> is_strong_hint(text),
        has_part(text, "共有中の画面"@) ==> is_strong_hint(text),
        has_part(text, "共有された画面"@) ==> is_strong_hint(text),
        has_part(text, "発表者の画面"@) ==> is_strong_hint(text),
        has_part(text, "ホワイトボード"@) ==> is_strong_hint(text),
{
}

/// A single word about sharing, presenting or content is a weak hint.
pub proof fn law_single_words_are_weak_hints(text: Seq<char>)
    ensures
        has_part(text, "share"@) ==> is_weak_hint(text),
        has_part(text, "present"@) ==> is_weak_hint(text),
        has_part(text, "presentation"@) ==> is_weak_hint(text),
        has_part(text, "content"@) ==> is_weak_hint(text),
        has_part(text, "screen"@) ==> is_weak_hint(text),
        has_part(text, "stage"@) ==> is_weak_hint(text),
        has_part(text, "canvas"@) ==> is_weak_hint(text),
        has_part(text, "remote"@) ==> is_weak_hint(text),
        has_part(text, "slide"@) ==> is_weak_hint(text),
        has_part(text, "共有"@) ==> is_weak_hint(text),
        has_part(text, "画面"@) ==> is_weak_hint(text),
        has_part(text, "発表"@) ==> is_weak_hint(text),
        has_part(text, "プレゼン"@) ==> is_weak_hint(text),
        has_part(text, "コンテンツ"@) ==> is_weak_hint(text),
        has_part(text, "スライド"@) ==> is_weak_hint(text),
{
}

/// The names of the other parts of a meeting window speak against content.
pub proof fn law_other_parts_of_the_window_are_negative_hints(text: Seq<char>)
    ensures
        has_part(text, "toolbar"@) ==> is_negative_hint(text),
        has_part(text, "meeting controls"@) ==> is_negative_hint(text),
        has_part(text, "control bar"@) ==> is_negative_hint(text),
        has_part(text, "chat"@) ==> is_negative_hint(text),
        has_part(text, "participants"@) ==> is_negative_hint(text),
        has_part(text, "people"@) ==> is_negative_hint(text),
        has_part(text, "reactions"@) ==> is_negative_hint(text),
        has_part(text, "captions"@) ==> is_negative_hint(text),
        has_part(text, "transcript"@) ==> is_negative_hint(text),
        has_part(text, "navigation"@) ==> is_negative_hint(text),
        has_part(text, "sidebar"@) ==> is_negative_hint(text),
        has_part(text, "filmstrip"@) ==> is_negative_hint(text),
        has_part(text, "gallery"@) ==> is_negative_hint(text),
        has_part(text, "camera preview"@) ==> is_negative_hint(text),
        has_part(text, "microphone"@) ==> is_negative_hint(text),
        has_part(text, "leave button"@) ==> is_negative_hint(text),
        has_part(text, "title bar"@) ==> is_negative_hint(text),
        has_part(text, "ツールバー"@) ==> is_negative_hint(text),
        has_part(text, "会議コントロール"@) ==> is_negative_hint(text),
        has_part(text, "チャット"@) ==> is_negative_hint(text),
        has_part(text, "参加者"@) ==> is_negative_hint(text),
        has_part(text, "リアクション"@) ==> is_negative_hint(text),
        has_part(text, "字幕"@) ==> is_negative_hint(text),
        has_part(text, "トランスクリプト"@) ==> is_negative_hint(text),
        has_part(text, "ナビゲーション"@) ==> is_negative_hint(text),
        has_part(text, "サイドバー"@) ==> is_negative_hint(text),
        has_part(text, "退出"@) ==> is_negative_hint(text),
{
}

/// An element in the middle of the window is wholly in the middle.
pub proof fn law_the_middle_is_in_the_middle(
    rect: PixelRect,
    half_width: u32,
    half_height: u32,
    half_rect: u32,
    half_rect_height: u32,
)
    requires
        0 < half_width < 0x80_0000,
        0 < half_height < 0x80_0000,
        rect.width == 2 * half_rect,
        rect.height == 2 * half_rect_height,
        rect.x + half_rect == half_width,
        rect.y + half_rect_height == half_height,
    ensures
        middleness(rect, (2 * half_width) as u32, (2 * half_height) as u32) == whole(1),
{
    lemma_center(rect.x, half_rect, half_width);
    lemma_center(rect.y, half_rect_height, half_height);
    lemma_nothing_off_the_middle();
}

proof fn lemma_center(start: u32, half: u32, middle: u32)
    requires
        0 < middle < 0x80_0000,
        start + half == middle,
    ensures
        off_middle(start, (2 * half) as u32, (2 * middle) as u32) == zero(),
{
    law_small_integers_divide(half as nat, 2);
    assert(half * 2 == 2 * half);
    law_small_integers_are_kept(start as int);
    law_small_integers_are_kept(half as int);
    law_small_integers_are_kept(middle as int);
    law_small_integers_add(start as int, half as int);
    lemma_half_of_a_length(middle as nat);
}

} // verus!
