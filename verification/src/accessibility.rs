//! What the accessibility tree says of Teams' elements.

use vstd::prelude::*;

use crate::text::{
    chars_of, contains_chars, folded, has_part, is_white_space, is_whitespace, push_lowercase,
};

verus! {

/// Kinds of accessible elements.
#[derive(Clone, Copy, Debug, PartialEq, Eq, Structural)]
pub enum ControlType {
    AppBar,
    Button,
    Calendar,
    CheckBox,
    ComboBox,
    Custom,
    DataGrid,
    DataItem,
    Document,
    Edit,
    Group,
    Header,
    HeaderItem,
    Hyperlink,
    Image,
    List,
    ListItem,
    Menu,
    MenuBar,
    MenuItem,
    Pane,
    ProgressBar,
    RadioButton,
    ScrollBar,
    SemanticZoom,
    Separator,
    Slider,
    Spinner,
    SplitButton,
    StatusBar,
    Tab,
    TabItem,
    Table,
    Text,
    Thumb,
    TitleBar,
    ToolBar,
    ToolTip,
    Tree,
    TreeItem,
    Window,
}

/// Characters that are left out of a normalized element name.
pub open spec fn is_name_separator(character: char) -> bool {
    ||| is_white_space(character)
    ||| character == '_'
    ||| character == '-'
    ||| character == '–'
    ||| character == '—'
    ||| character == '・'
    ||| character == '/'
    ||| character == '\\'
}

/// An element name in lower case, without separators.
pub open spec fn normalized_name(name: Seq<char>) -> Seq<char> {
    folded(name, |character: char| is_name_separator(character))
}

/// Normalizes an element name.
pub fn normalize_accessible_name(name: &str) -> (result: String)
    ensures
        result@ == normalized_name(name@),
{
    let chars = chars_of(name);
    let ghost dropped = |character: char| is_name_separator(character);
    let mut result = String::new();
    let mut i: usize = 0;
    assert(chars@.take(0) =~= Seq::<char>::empty());
    while i < chars.len()
        invariant
            i <= chars.len(),
            dropped == (|character: char| is_name_separator(character)),
            result@ == folded(chars@.take(i as int), dropped),
        decreases chars.len() - i,
    {
        let character = chars[i];
        assert(chars@.take(i + 1).drop_last() =~= chars@.take(i as int));
        assert(chars@.take(i + 1).last() == character);
        if !(is_whitespace(character) || character == '_' || character == '-' || character == '–'
            || character == '—' || character == '・' || character == '/' || character == '\\') {
            push_lowercase(&mut result, character);
        }
        i += 1;
    }
    assert(chars@.take(i as int) =~= chars@);
    result
}

/// How strongly a normalized name says that an element is the shared content.
pub open spec fn name_rank(normalized: Seq<char>) -> Option<u8> {
    if (has_part(normalized, "共有"@) && has_part(normalized, "コンテンツ"@)) || has_part(
        normalized,
        "sharedcontent"@,
    ) || has_part(normalized, "presentedcontent"@) || has_part(normalized, "presentationcontent"@)
        || has_part(normalized, "sharingcontent"@) {
        Some(4)
    } else if has_part(normalized, "sharedscreen"@) || has_part(normalized, "screensharing"@) {
        Some(3)
    } else {
        None
    }
}

/// Ranks an element name that has been normalized.
pub fn normalized_name_rank(normalized: &str) -> (result: Option<u8>)
    ensures
        result == name_rank(normalized@),
{
    let chars = chars_of(normalized);
    if contains_chars(&chars, "共有") && contains_chars(&chars, "コンテンツ") {
        return Some(4);
    }
    if contains_chars(&chars, "sharedcontent") || contains_chars(&chars, "presentedcontent")
        || contains_chars(&chars, "presentationcontent") || contains_chars(
        &chars,
        "sharingcontent",
    ) {
        return Some(4);
    }
    if contains_chars(&chars, "sharedscreen") || contains_chars(&chars, "screensharing") {
        return Some(3);
    }
    None
}

/// Ranks an element name.
pub fn authoritative_name_rank(name: &str) -> (result: Option<u8>)
    ensures
        result == name_rank(normalized_name(name@)),
{
    let normalized = normalize_accessible_name(name);
    normalized_name_rank(normalized.as_str())
}

/// How well an element of a kind can be the shared content.
pub open spec fn control_rank(control_type: ControlType) -> Option<u8> {
    match control_type {
        ControlType::MenuItem => Some(5u8),
        ControlType::Document => Some(4u8),
        ControlType::Pane => Some(3u8),
        ControlType::Custom => Some(3u8),
        ControlType::Group => Some(3u8),
        ControlType::Image => Some(3u8),
        _ => None,
    }
}

pub fn authoritative_control_rank(control_type: ControlType) -> (result: Option<u8>)
    ensures
        result == control_rank(control_type),
{
    match control_type {
        ControlType::MenuItem => Some(5),
        ControlType::Document => Some(4),
        ControlType::Pane | ControlType::Custom | ControlType::Group | ControlType::Image => Some(
            3,
        ),
        _ => None,
    }
}

/// `part` stands in a text round it.
proof fn lemma_part_between(before: Seq<char>, part: Seq<char>, after: Seq<char>)
    ensures
        has_part(before + part + after, part),
{
    let text = before + part + after;
    let at = before.len() as int;
    assert(text.subrange(at, at + part.len()) =~= part);
    assert(crate::text::occurs_at(text, part, at));
}

/// A part of a part is a part.
proof fn lemma_part_of_part(text: Seq<char>, middle: Seq<char>, part: Seq<char>)
    requires
        has_part(text, middle),
        has_part(middle, part),
    ensures
        has_part(text, part),
{
    let outer = choose|at: int| crate::text::occurs_at(text, middle, at);
    let inner = choose|at: int| crate::text::occurs_at(middle, part, at);
    let at = outer + inner;
    let whole = text.subrange(outer, outer + middle.len());
    assert(whole == middle);
    assert(text.subrange(at, at + part.len()) =~= whole.subrange(inner, inner + part.len()));
    assert(crate::text::occurs_at(text, part, at));
}

/// Every name that speaks of sharing and of content names the shared content, whatever
/// stands before, between and behind the two words, and whichever comes first.
pub proof fn law_sharing_and_content_name_the_shared_content(
    before: Seq<char>,
    between: Seq<char>,
    after: Seq<char>,
)
    ensures
        name_rank(before + "共有"@ + between + "コンテンツ"@ + after) == Some(4u8),
        name_rank(before + "コンテンツ"@ + between + "共有"@ + after) == Some(4u8),
{
    let sharing = "共有"@;
    let content = "コンテンツ"@;
    lemma_part_between(before, sharing, between + content + after);
    lemma_part_between(before + sharing + between, content, after);
    assert(before + sharing + between + content + after =~= before + sharing + (between + content
        + after));
    lemma_part_between(before, content, between + sharing + after);
    lemma_part_between(before + content + between, sharing, after);
    assert(before + content + between + sharing + after =~= before + content + (between + sharing
        + after));
}

/// Every English name of the shared content is known, whatever stands round it. A shared
/// screen ranks below shared content.
pub proof fn law_english_names_are_known(before: Seq<char>, after: Seq<char>)
    ensures
        name_rank(before + "sharedcontent"@ + after) == Some(4u8),
        name_rank(before + "presentedcontent"@ + after) == Some(4u8),
        name_rank(before + "presentationcontent"@ + after) == Some(4u8),
        name_rank(before + "sharingcontent"@ + after) == Some(4u8),
        name_rank(before + "sharedscreen"@ + after) is Some,
        name_rank(before + "screensharing"@ + after) is Some,
        name_rank(before + "sharedscreen"@ + after)->0 >= 3,
        name_rank(before + "screensharing"@ + after)->0 >= 3,
{
    lemma_part_between(before, "sharedcontent"@, after);
    lemma_part_between(before, "presentedcontent"@, after);
    lemma_part_between(before, "presentationcontent"@, after);
    lemma_part_between(before, "sharingcontent"@, after);
    lemma_part_between(before, "sharedscreen"@, after);
    lemma_part_between(before, "screensharing"@, after);
}

/// A name without any of these words is not taken for shared content, and one that speaks of
/// a screen only ranks below those that speak of content.
pub proof fn law_other_names_are_not_taken(name: Seq<char>)
    requires
        !has_part(name, "共有"@) || !has_part(name, "コンテンツ"@),
        !has_part(name, "sharedcontent"@),
        !has_part(name, "presentedcontent"@),
        !has_part(name, "presentationcontent"@),
        !has_part(name, "sharingcontent"@),
    ensures
        name_rank(name) != Some(4u8),
        has_part(name, "sharedscreen"@) || has_part(name, "screensharing"@) ==> name_rank(name)
            == Some(3u8),
        !has_part(name, "sharedscreen"@) && !has_part(name, "screensharing"@) ==> name_rank(name)
            is None,
{
}

/// More text in a name never makes it rank lower.
pub proof fn law_longer_names_rank_no_lower(before: Seq<char>, name: Seq<char>, after: Seq<char>)
    requires
        name_rank(name) is Some,
    ensures
        name_rank(before + name + after) is Some,
        name_rank(before + name + after)->0 >= name_rank(name)->0,
{
    let longer = before + name + after;
    lemma_part_between(before, name, after);
    if has_part(name, "共有"@) {
        lemma_part_of_part(longer, name, "共有"@);
    }
    if has_part(name, "コンテンツ"@) {
        lemma_part_of_part(longer, name, "コンテンツ"@);
    }
    if has_part(name, "sharedcontent"@) {
        lemma_part_of_part(longer, name, "sharedcontent"@);
    }
    if has_part(name, "presentedcontent"@) {
        lemma_part_of_part(longer, name, "presentedcontent"@);
    }
    if has_part(name, "presentationcontent"@) {
        lemma_part_of_part(longer, name, "presentationcontent"@);
    }
    if has_part(name, "sharingcontent"@) {
        lemma_part_of_part(longer, name, "sharingcontent"@);
    }
    if has_part(name, "sharedscreen"@) {
        lemma_part_of_part(longer, name, "sharedscreen"@);
    }
    if has_part(name, "screensharing"@) {
        lemma_part_of_part(longer, name, "screensharing"@);
    }
}

/// Spaces, hyphens, dashes, dots, slashes and underscores do not matter in a name, wherever
/// they stand.
pub proof fn law_separators_do_not_matter(before: Seq<char>, separator: char, after: Seq<char>)
    requires
        is_white_space(separator) || separator == '_' || separator == '-' || separator == '–'
            || separator == '—' || separator == '・' || separator == '/' || separator == '\\',
    ensures
        normalized_name(before.push(separator) + after) == normalized_name(before + after),
    decreases after.len(),
{
    if after.len() == 0 {
        assert(before.push(separator) + after =~= before.push(separator));
        assert(before.push(separator).drop_last() =~= before);
        assert(before + after =~= before);
    } else {
        law_separators_do_not_matter(before, separator, after.drop_last());
        let with = before.push(separator) + after;
        let without = before + after;
        assert(with.drop_last() =~= before.push(separator) + after.drop_last());
        assert(without.drop_last() =~= before + after.drop_last());
        assert(with.last() == after.last());
        assert(without.last() == after.last());
    }
}

/// Every other character of a name is kept, in lower case and in its place.
pub proof fn law_other_characters_are_kept(name: Seq<char>, character: char)
    requires
        !is_white_space(character),
        character != '_' && character != '-' && character != '–' && character != '—',
        character != '・' && character != '/' && character != '\\',
    ensures
        normalized_name(name.push(character)) == normalized_name(name)
            + crate::text::lowercase_of(character),
        normalized_name(Seq::empty()) == Seq::<char>::empty(),
{
    assert(name.push(character).drop_last() =~= name);
    assert(name.push(character).last() == character);
}

/// Menu items show shared content best, documents next, then panes, groups, images and
/// custom elements; no other kind of element does.
pub proof fn law_few_kinds_show_content(kind: ControlType)
    ensures
        control_rank(kind) is Some <==> (kind is MenuItem || kind is Document || kind is Pane
            || kind is Custom || kind is Group || kind is Image),
        control_rank(ControlType::MenuItem)->0 > control_rank(ControlType::Document)->0,
        control_rank(ControlType::Document)->0 > control_rank(ControlType::Pane)->0,
        kind is Pane || kind is Custom || kind is Group || kind is Image ==> control_rank(kind)
            == control_rank(ControlType::Pane),
        kind is MenuItem ==> control_rank(kind)->0 == 5,
        kind is Document ==> control_rank(kind)->0 == 4,
        kind is Pane ==> control_rank(kind)->0 == 3,
{
}

} // verus!
