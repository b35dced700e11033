//! Names and identifiers of Teams' windows and controls.

use vstd::prelude::*;

use crate::accessibility::{is_name_separator, ControlType};
use crate::text::{
    chars_of, contains_chars, ends_with, eq_ignore_ascii_case, equal_ignoring_ascii_case, folded,
    has_part, has_prefix, has_suffix, is_whitespace, law_parts_are_found_anywhere, lowercase_text,
    push_lowercase, same_text, starts_with, str_to_lowercase, trim, trimmed,
};

verus! {

/// Characters that are left out of a normalized name: separators and apostrophes.
pub open spec fn is_dropped(character: char) -> bool {
    is_name_separator(character) || character == '\'' || character == '’'
}

/// A name in lower case, without separators and apostrophes.
pub open spec fn normalized(name: Seq<char>) -> Seq<char> {
    folded(name, |character: char| is_dropped(character))
}

/// Normalizes a name.
pub fn normalize_name(value: &str) -> (result: String)
    ensures
        result@ == normalized(value@),
{
    let chars = chars_of(value);
    let ghost dropped = |character: char| is_dropped(character);
    let mut result = String::new();
    let mut i: usize = 0;
    assert(chars@.take(0) =~= Seq::<char>::empty());
    while i < chars.len()
        invariant
            i <= chars.len(),
            dropped == (|character: char| is_dropped(character)),
            result@ == folded(chars@.take(i as int), dropped),
        decreases chars.len() - i,
    {
        let character = chars[i];
        assert(chars@.take(i + 1).drop_last() =~= chars@.take(i as int));
        assert(chars@.take(i + 1).last() == character);
        if !(is_whitespace(character) || character == '_' || character == '-' || character == '–'
            || character == '—' || character == '・' || character == '/' || character == '\\'
            || character == '\'' || character == '’') {
            push_lowercase(&mut result, character);
        }
        i += 1;
    }
    assert(chars@.take(i as int) =~= chars@);
    result
}

/// Elements of these kinds can be pressed.
pub open spec fn is_pressable(control_type: Option<ControlType>) -> bool {
    ||| control_type == Some(ControlType::Button)
    ||| control_type == Some(ControlType::SplitButton)
    ||| control_type == Some(ControlType::MenuItem)
}

pub fn is_button(control_type: Option<ControlType>) -> (result: bool)
    ensures
        result == is_pressable(control_type),
{
    match control_type {
        Some(ControlType::Button) => true,
        Some(ControlType::SplitButton) => true,
        Some(ControlType::MenuItem) => true,
        _ => false,
    }
}

/// A normalized name of a control that leaves the call.
pub open spec fn is_leave_name(name: Seq<char>) -> bool {
    ||| has_part(name, "退出"@)
    ||| has_part(name, "通話を終了"@)
    ||| has_part(name, "通話終了"@)
    ||| has_part(name, "会議を終了"@)
    ||| has_part(name, "leavecall"@)
    ||| has_part(name, "leavemeeting"@)
    ||| has_part(name, "leaveconference"@)
    ||| has_part(name, "hangup"@)
    ||| has_part(name, "endcall"@)
}

/// Whether an element leaves the call. `name` is normalized.
pub fn is_leave_control(name: &str, control_type: Option<ControlType>) -> (result: bool)
    ensures
        result == (is_pressable(control_type) && is_leave_name(name@)),
{
    if !is_button(control_type) {
        return false;
    }
    let chars = chars_of(name);
    contains_chars(&chars, "退出") || contains_chars(&chars, "通話を終了") || contains_chars(
        &chars,
        "通話終了",
    ) || contains_chars(&chars, "会議を終了") || contains_chars(&chars, "leavecall")
        || contains_chars(&chars, "leavemeeting") || contains_chars(&chars, "leaveconference")
        || contains_chars(&chars, "hangup") || contains_chars(&chars, "endcall")
}

/// The identifier belongs to a control that only a call has.
pub open spec fn is_call_id(automation_id: Seq<char>, control_type: Option<ControlType>) -> bool {
    let id = trimmed(automation_id);
    ||| equal_ignoring_ascii_case(id, "hangup-button"@) && is_pressable(control_type)
    ||| equal_ignoring_ascii_case(id, "call-duration-custom"@) && control_type == Some(
        ControlType::Text,
    )
}

/// Whether an element belongs to a call.
pub fn is_call_control(automation_id: &str, control_type: Option<ControlType>) -> (result: bool)
    ensures
        result == is_call_id(automation_id@, control_type),
{
    let id = trim(automation_id);
    let is_text = match control_type {
        Some(ControlType::Text) => true,
        _ => false,
    };
    (eq_ignore_ascii_case(id.as_str(), "hangup-button") && is_button(control_type)) || (
    eq_ignore_ascii_case(id.as_str(), "call-duration-custom") && is_text)
}

/// A normalized name of shared content.
pub open spec fn is_shared_name(name: Seq<char>) -> bool {
    ||| has_part(name, "共有"@) && has_part(name, "コンテンツ"@)
    ||| has_part(name, "sharedcontent"@)
    ||| has_part(name, "presentedcontent"@)
    ||| has_part(name, "presentationcontent"@)
    ||| has_part(name, "sharingcontent"@)
    ||| has_part(name, "sharedscreen"@)
    ||| has_part(name, "screensharing"@)
}

/// Whether a normalized name is one of shared content.
pub fn is_shared_content_name(name: &str) -> (result: bool)
    ensures
        result == is_shared_name(name@),
{
    let chars = chars_of(name);
    (contains_chars(&chars, "共有") && contains_chars(&chars, "コンテンツ")) || contains_chars(
        &chars,
        "sharedcontent",
    ) || contains_chars(&chars, "presentedcontent") || contains_chars(&chars, "presentationcontent")
        || contains_chars(&chars, "sharingcontent") || contains_chars(&chars, "sharedscreen")
        || contains_chars(&chars, "screensharing")
}

/// A normalized name of an action that stops sharing.
pub open spec fn is_stop_name(name: Seq<char>) -> bool {
    ||| has_part(name, "共有"@) && (has_part(name, "停止"@) || has_part(name, "終了"@))
    ||| has_part(name, "stopsharing"@)
    ||| has_part(name, "stopshare"@)
    ||| has_part(name, "endsharing"@)
    ||| has_part(name, "stoppresenting"@)
}

/// A normalized name that says that something is shared from here.
pub open spec fn is_sharing_status(name: Seq<char>) -> bool {
    ||| has_part(name, "共有しています"@) && (has_part(name, "画面"@) || has_part(
        name,
        "スクリーン"@,
    ) || has_part(name, "ウィンドウ"@))
    ||| has_part(name, "sharingyourscreen"@)
    ||| has_part(name, "sharingyourwindow"@)
    ||| has_part(name, "youaresharing"@)
    ||| has_part(name, "youresharing"@)
}

/// An element of the presenter toolbar proves that something is shared from here.
pub open spec fn confirms_local_share(
    name: Seq<char>,
    automation_id: Seq<char>,
    control_type: Option<ControlType>,
) -> bool {
    is_pressable(control_type) && ((equal_ignoring_ascii_case(automation_id, "share-button"@)
        && is_stop_name(name)) || is_sharing_status(name))
}

/// Whether an element of the presenter toolbar proves that something is shared from
/// here. `name` is normalized.
pub fn presenter_element_confirms_local_share(
    name: &str,
    automation_id: &str,
    control_type: Option<ControlType>,
) -> (result: bool)
    ensures
        result == confirms_local_share(name@, automation_id@, control_type),
{
    if !is_button(control_type) {
        return false;
    }
    let chars = chars_of(name);
    let stop_action = (contains_chars(&chars, "共有") && (contains_chars(&chars, "停止")
        || contains_chars(&chars, "終了"))) || contains_chars(&chars, "stopsharing")
        || contains_chars(&chars, "stopshare") || contains_chars(&chars, "endsharing")
        || contains_chars(&chars, "stoppresenting");
    let sharing_status = (contains_chars(&chars, "共有しています") && (contains_chars(
        &chars,
        "画面",
    ) || contains_chars(&chars, "スクリーン") || contains_chars(&chars, "ウィンドウ")))
        || contains_chars(&chars, "sharingyourscreen") || contains_chars(
        &chars,
        "sharingyourwindow",
    ) || contains_chars(&chars, "youaresharing") || contains_chars(&chars, "youresharing");
    (eq_ignore_ascii_case(automation_id, "share-button") && stop_action) || sharing_status
}

/// A normalized window title of the presenter toolbar.
pub open spec fn is_toolbar_title(title: Seq<char>) -> bool {
    ||| has_part(title, "共有コントロールバー"@)
    ||| has_part(title, "共有ツールバー"@)
    ||| has_part(title, "発表者ツールバー"@)
    ||| has_part(title, "sharecontrolbar"@)
    ||| has_part(title, "sharingcontrolbar"@)
    ||| has_part(title, "sharingtoolbar"@)
    ||| has_part(title, "presentertoolbar"@)
    ||| has_part(title, "presentationtoolbar"@)
}

/// Whether a normalized window title is one of the presenter toolbar.
pub fn is_presenter_toolbar_title(title: &str) -> (result: bool)
    ensures
        result == is_toolbar_title(title@),
{
    let chars = chars_of(title);
    contains_chars(&chars, "共有コントロールバー") || contains_chars(&chars, "共有ツールバー")
        || contains_chars(&chars, "発表者ツールバー") || contains_chars(&chars, "sharecontrolbar")
        || contains_chars(&chars, "sharingcontrolbar") || contains_chars(&chars, "sharingtoolbar")
        || contains_chars(&chars, "presentertoolbar") || contains_chars(
        &chars,
        "presentationtoolbar",
    )
}

/// Lower-case names of a window of Teams: the program's name says so, or the title is
/// the program's or ends or starts with it.
pub open spec fn is_teams_name(app: Seq<char>, title: Seq<char>) -> bool {
    ||| has_part(app, "ms-teams"@)
    ||| has_part(app, "teams"@)
    ||| title == "microsoft teams"@
    ||| has_suffix(title, " | microsoft teams"@)
    ||| has_suffix(title, " - microsoft teams"@)
    ||| has_prefix(title, "microsoft teams |"@)
    ||| has_prefix(title, "microsoft teams -"@)
}

/// Whether lower-case names belong to a window of Teams.
pub fn is_teams_lowercase(app: &str, title: &str) -> (result: bool)
    ensures
        result == is_teams_name(app@, title@),
{
    let app = chars_of(app);
    contains_chars(&app, "ms-teams") || contains_chars(&app, "teams") || same_text(
        title,
        "microsoft teams",
    ) || ends_with(title, " | microsoft teams") || ends_with(title, " - microsoft teams")
        || starts_with(title, "microsoft teams |") || starts_with(title, "microsoft teams -")
}

/// Whether a window belongs to Teams.
pub fn is_teams_window(app_name: &str, title: &str) -> (result: bool)
    ensures
        result == is_teams_name(lowercase_text(app_name@), lowercase_text(title@)),
{
    let app = str_to_lowercase(app_name);
    let title = str_to_lowercase(title);
    is_teams_lowercase(app.as_str(), title.as_str())
}

/// What the classes of a window's children tell.
#[derive(Clone, Copy, Debug, PartialEq, Eq, Structural)]
pub struct ChildClassEvidence {
    pub has_webview: bool,
    pub has_video: bool,
}

impl ChildClassEvidence {
    pub fn new() -> (result: Self)
        ensures
            result == (ChildClassEvidence { has_webview: false, has_video: false }),
    {
        ChildClassEvidence { has_webview: false, has_video: false }
    }

    /// The evidence after a child of the lower-case class `class` was seen.
    pub open spec fn with_class(self, class: Seq<char>) -> ChildClassEvidence {
        ChildClassEvidence {
            has_webview: self.has_webview || has_part(class, "teamswebview"@),
            has_video: self.has_video || has_part(class, "teamsvideo"@),
        }
    }

    /// Notes a child of a lower-case class.
    pub fn note_lowercase(&mut self, class: &str)
        ensures
            *final(self) == old(self).with_class(class@),
    {
        let chars = chars_of(class);
        let webview = contains_chars(&chars, "teamswebview");
        let video = contains_chars(&chars, "teamsvideo");
        self.has_webview = self.has_webview || webview;
        self.has_video = self.has_video || video;
    }

    /// Notes a child of a class.
    pub fn note(&mut self, class: &str)
        ensures
            *final(self) == old(self).with_class(lowercase_text(class@)),
    {
        let class = str_to_lowercase(class);
        self.note_lowercase(class.as_str());
    }
}

/// Every name that speaks of leaving or ending a call is one of a control that leaves it,
/// whatever stands round the words.
pub proof fn law_leaving_is_known_by_its_words(before: Seq<char>, after: Seq<char>)
    ensures
        is_leave_name(before + "退出"@ + after),
        is_leave_name(before + "通話を終了"@ + after),
        is_leave_name(before + "通話終了"@ + after),
        is_leave_name(before + "会議を終了"@ + after),
        is_leave_name(before + "leavecall"@ + after),
        is_leave_name(before + "leavemeeting"@ + after),
        is_leave_name(before + "leaveconference"@ + after),
        is_leave_name(before + "hangup"@ + after),
        is_leave_name(before + "endcall"@ + after),
{
    law_parts_are_found_anywhere(before, "退出"@, after);
    law_parts_are_found_anywhere(before, "通話を終了"@, after);
    law_parts_are_found_anywhere(before, "通話終了"@, after);
    law_parts_are_found_anywhere(before, "会議を終了"@, after);
    law_parts_are_found_anywhere(before, "leavecall"@, after);
    law_parts_are_found_anywhere(before, "leavemeeting"@, after);
    law_parts_are_found_anywhere(before, "leaveconference"@, after);
    law_parts_are_found_anywhere(before, "hangup"@, after);
    law_parts_are_found_anywhere(before, "endcall"@, after);
}

/// A name without any of these words does not leave the call.
pub proof fn law_other_names_do_not_leave(name: Seq<char>)
    requires
        !has_part(name, "退出"@),
        !has_part(name, "通話を終了"@),
        !has_part(name, "通話終了"@),
        !has_part(name, "会議を終了"@),
        !has_part(name, "leavecall"@),
        !has_part(name, "leavemeeting"@),
        !has_part(name, "leaveconference"@),
        !has_part(name, "hangup"@),
        !has_part(name, "endcall"@),
    ensures
        !is_leave_name(name),
{
}

/// Every English name of shared content is known, whatever stands round it.
pub proof fn law_english_sharing_is_known_by_its_words(before: Seq<char>, after: Seq<char>)
    ensures
        is_shared_name(before + "sharedcontent"@ + after),
        is_shared_name(before + "presentedcontent"@ + after),
        is_shared_name(before + "presentationcontent"@ + after),
        is_shared_name(before + "sharingcontent"@ + after),
        is_shared_name(before + "sharedscreen"@ + after),
        is_shared_name(before + "screensharing"@ + after),
{
    law_parts_are_found_anywhere(before, "sharedcontent"@, after);
    law_parts_are_found_anywhere(before, "presentedcontent"@, after);
    law_parts_are_found_anywhere(before, "presentationcontent"@, after);
    law_parts_are_found_anywhere(before, "sharingcontent"@, after);
    law_parts_are_found_anywhere(before, "sharedscreen"@, after);
    law_parts_are_found_anywhere(before, "screensharing"@, after);
}

/// A name that speaks of sharing and of content is one of shared content, whatever stands
/// before, between and behind the words.
pub proof fn law_sharing_and_content_are_known_together(
    before: Seq<char>,
    between: Seq<char>,
    after: Seq<char>,
)
    ensures
        is_shared_name(before + "共有"@ + between + "コンテンツ"@ + after),
        is_shared_name(before + "コンテンツ"@ + between + "共有"@ + after),
{
    lemma_two_parts(before, "共有"@, between, "コンテンツ"@, after);
    lemma_two_parts(before, "コンテンツ"@, between, "共有"@, after);
}

proof fn lemma_two_parts(
    before: Seq<char>,
    first: Seq<char>,
    between: Seq<char>,
    second: Seq<char>,
    after: Seq<char>,
)
    ensures
        has_part(before + first + between + second + after, first),
        has_part(before + first + between + second + after, second),
{
    law_parts_are_found_anywhere(before, first, between + second + after);
    law_parts_are_found_anywhere(before + first + between, second, after);
    assert(before + first + between + second + after =~= before + first + (between + second
        + after));
}

/// A name that speaks of sharing alone, or of content alone, is not one of shared content.
pub proof fn law_other_names_are_not_shared_content(name: Seq<char>)
    requires
        !has_part(name, "共有"@) || !has_part(name, "コンテンツ"@),
        !has_part(name, "sharedcontent"@),
        !has_part(name, "presentedcontent"@),
        !has_part(name, "presentationcontent"@),
        !has_part(name, "sharingcontent"@),
        !has_part(name, "sharedscreen"@),
        !has_part(name, "screensharing"@),
    ensures
        !is_shared_name(name),
{
}

/// Every English name of an action that stops sharing is known.
pub proof fn law_stopping_is_known_by_its_words(before: Seq<char>, after: Seq<char>)
    ensures
        is_stop_name(before + "stopsharing"@ + after),
        is_stop_name(before + "stopshare"@ + after),
        is_stop_name(before + "endsharing"@ + after),
        is_stop_name(before + "stoppresenting"@ + after),
{
    law_parts_are_found_anywhere(before, "stopsharing"@, after);
    law_parts_are_found_anywhere(before, "stopshare"@, after);
    law_parts_are_found_anywhere(before, "endsharing"@, after);
    law_parts_are_found_anywhere(before, "stoppresenting"@, after);
}

/// A name that speaks of sharing and of stopping or ending stops sharing; one that speaks of
/// neither in Japanese nor of stopping in English does not.
pub proof fn law_sharing_stops_in_either_order(
    before: Seq<char>,
    between: Seq<char>,
    after: Seq<char>,
)
    ensures
        is_stop_name(before + "共有"@ + between + "停止"@ + after),
        is_stop_name(before + "停止"@ + between + "共有"@ + after),
        is_stop_name(before + "共有"@ + between + "終了"@ + after),
        is_stop_name(before + "終了"@ + between + "共有"@ + after),
{
    lemma_two_parts(before, "共有"@, between, "停止"@, after);
    lemma_two_parts(before, "停止"@, between, "共有"@, after);
    lemma_two_parts(before, "共有"@, between, "終了"@, after);
    lemma_two_parts(before, "終了"@, between, "共有"@, after);
}

/// A name without these words does not stop sharing.
pub proof fn law_other_names_do_not_stop_sharing(name: Seq<char>)
    requires
        !has_part(name, "共有"@) || (!has_part(name, "停止"@) && !has_part(name, "終了"@)),
        !has_part(name, "stopsharing"@),
        !has_part(name, "stopshare"@),
        !has_part(name, "endsharing"@),
        !has_part(name, "stoppresenting"@),
    ensures
        !is_stop_name(name),
{
}

/// Every English phrase for sharing from here is known.
pub proof fn law_sharing_is_told_in_english(before: Seq<char>, after: Seq<char>)
    ensures
        is_sharing_status(before + "sharingyourscreen"@ + after),
        is_sharing_status(before + "sharingyourwindow"@ + after),
        is_sharing_status(before + "youaresharing"@ + after),
        is_sharing_status(before + "youresharing"@ + after),
{
    law_parts_are_found_anywhere(before, "sharingyourscreen"@, after);
    law_parts_are_found_anywhere(before, "sharingyourwindow"@, after);
    law_parts_are_found_anywhere(before, "youaresharing"@, after);
    law_parts_are_found_anywhere(before, "youresharing"@, after);
}

/// A name that says that something is being shared, and that it is a screen or a window,
/// tells of sharing from here.
pub proof fn law_sharing_is_told_in_japanese(
    before: Seq<char>,
    between: Seq<char>,
    after: Seq<char>,
)
    ensures
        is_sharing_status(before + "画面"@ + between + "共有しています"@ + after),
        is_sharing_status(before + "スクリーン"@ + between + "共有しています"@ + after),
        is_sharing_status(before + "ウィンドウ"@ + between + "共有しています"@ + after),
        is_sharing_status(before + "共有しています"@ + between + "画面"@ + after),
{
    lemma_two_parts(before, "画面"@, between, "共有しています"@, after);
    lemma_two_parts(before, "スクリーン"@, between, "共有しています"@, after);
    lemma_two_parts(before, "ウィンドウ"@, between, "共有しています"@, after);
    lemma_two_parts(before, "共有しています"@, between, "画面"@, after);
}

/// A name that says that something is shared, but neither a screen nor a window, tells of no
/// sharing from here; nor does one without these words.
pub proof fn law_other_names_tell_of_no_sharing(name: Seq<char>)
    requires
        !has_part(name, "共有しています"@) || (!has_part(name, "画面"@) && !has_part(
            name,
            "スクリーン"@,
        ) && !has_part(name, "ウィンドウ"@)),
        !has_part(name, "sharingyourscreen"@),
        !has_part(name, "sharingyourwindow"@),
        !has_part(name, "youaresharing"@),
        !has_part(name, "youresharing"@),
    ensures
        !is_sharing_status(name),
{
}

/// Every title of the presenter toolbar is known, whatever stands round it.
pub proof fn law_toolbars_are_known_by_their_titles(before: Seq<char>, after: Seq<char>)
    ensures
        is_toolbar_title(before + "共有コントロールバー"@ + after),
        is_toolbar_title(before + "共有ツールバー"@ + after),
        is_toolbar_title(before + "発表者ツールバー"@ + after),
        is_toolbar_title(before + "sharecontrolbar"@ + after),
        is_toolbar_title(before + "sharingcontrolbar"@ + after),
        is_toolbar_title(before + "sharingtoolbar"@ + after),
        is_toolbar_title(before + "presentertoolbar"@ + after),
        is_toolbar_title(before + "presentationtoolbar"@ + after),
{
    law_parts_are_found_anywhere(before, "共有コントロールバー"@, after);
    law_parts_are_found_anywhere(before, "共有ツールバー"@, after);
    law_parts_are_found_anywhere(before, "発表者ツールバー"@, after);
    law_parts_are_found_anywhere(before, "sharecontrolbar"@, after);
    law_parts_are_found_anywhere(before, "sharingcontrolbar"@, after);
    law_parts_are_found_anywhere(before, "sharingtoolbar"@, after);
    law_parts_are_found_anywhere(before, "presentertoolbar"@, after);
    law_parts_are_found_anywhere(before, "presentationtoolbar"@, after);
}

/// A title without any of these words is not that of the presenter toolbar.
pub proof fn law_other_titles_are_no_toolbars(name: Seq<char>)
    requires
        !has_part(name, "共有コントロールバー"@),
        !has_part(name, "共有ツールバー"@),
        !has_part(name, "発表者ツールバー"@),
        !has_part(name, "sharecontrolbar"@),
        !has_part(name, "sharingcontrolbar"@),
        !has_part(name, "sharingtoolbar"@),
        !has_part(name, "presentertoolbar"@),
        !has_part(name, "presentationtoolbar"@),
    ensures
        !is_toolbar_title(name),
{
}

/// Only what can be pressed proves sharing from here: a share button that stops sharing, or
/// anything that says that something is shared.
pub proof fn law_sharing_is_proved_by_what_can_be_pressed(
    name: Seq<char>,
    automation_id: Seq<char>,
    kind: Option<ControlType>,
)
    ensures
        confirms_local_share(name, automation_id, kind) ==> {
            &&& kind == Some(ControlType::Button) || kind == Some(ControlType::SplitButton) || kind
                == Some(ControlType::MenuItem)
            &&& is_sharing_status(name) || (equal_ignoring_ascii_case(
                automation_id,
                "share-button"@,
            ) && is_stop_name(name))
        },
        kind == Some(ControlType::Button) || kind == Some(ControlType::SplitButton) || kind == Some(
            ControlType::MenuItem,
        ) ==> is_pressable(kind) && (is_sharing_status(name) ==> confirms_local_share(
            name,
            automation_id,
            kind,
        )) && (is_stop_name(name) && equal_ignoring_ascii_case(automation_id, "share-button"@)
            ==> confirms_local_share(name, automation_id, kind)),
        kind is None ==> !is_pressable(kind),
{
}

/// A control belongs to a call by its identifier alone, whatever the case of its letters and
/// the space round it: the button that hangs up, or the text that shows the duration.
pub proof fn law_call_controls_are_known_by_their_identifiers(
    id: Seq<char>,
    kind: Option<ControlType>,
)
    ensures
        is_call_id(id, kind) ==> {
            ||| equal_ignoring_ascii_case(trimmed(id), "hangup-button"@) && (kind == Some(
                ControlType::Button,
            ) || kind == Some(ControlType::SplitButton) || kind == Some(ControlType::MenuItem))
            ||| equal_ignoring_ascii_case(trimmed(id), "call-duration-custom"@) && kind == Some(
                ControlType::Text,
            )
        },
        equal_ignoring_ascii_case(trimmed(id), "hangup-button"@) ==> is_call_id(
            id,
            Some(ControlType::Button),
        ) && is_call_id(id, Some(ControlType::SplitButton)) && is_call_id(
            id,
            Some(ControlType::MenuItem),
        ),
        equal_ignoring_ascii_case(trimmed(id), "call-duration-custom"@) ==> is_call_id(
            id,
            Some(ControlType::Text),
        ),
{
}

/// A window belongs to Teams by its program, whatever its title, or by a title that is, ends
/// with or starts with the program's name.
pub proof fn law_teams_is_known_by_program_or_title(
    before: Seq<char>,
    after: Seq<char>,
    other: Seq<char>,
)
    ensures
        is_teams_name(before + "teams"@ + after, other),
        is_teams_name(before + "ms-teams"@ + after, other),
        is_teams_name(other, "microsoft teams"@),
        is_teams_name(other, before + " | microsoft teams"@),
        is_teams_name(other, before + " - microsoft teams"@),
        is_teams_name(other, "microsoft teams |"@ + after),
        is_teams_name(other, "microsoft teams -"@ + after),
{
    law_parts_are_found_anywhere(before, "teams"@, after);
    law_parts_are_found_anywhere(before, "ms-teams"@, after);
    law_parts_are_found_anywhere(before, " | microsoft teams"@, after);
    law_parts_are_found_anywhere(before, " - microsoft teams"@, after);
    law_parts_are_found_anywhere(before, "microsoft teams |"@, after);
    law_parts_are_found_anywhere(before, "microsoft teams -"@, after);
}

/// Every other window does not belong to Teams.
pub proof fn law_other_windows_are_not_teams(app: Seq<char>, title: Seq<char>)
    requires
        !has_part(app, "ms-teams"@) && !has_part(app, "teams"@),
        title != "microsoft teams"@,
        !has_suffix(title, " | microsoft teams"@) && !has_suffix(title, " - microsoft teams"@),
        !has_prefix(title, "microsoft teams |"@) && !has_prefix(title, "microsoft teams -"@),
    ensures
        !is_teams_name(app, title),
{
}

/// What was seen of a window's children is not forgotten, and each class tells of one thing
/// only.
pub proof fn law_children_are_remembered(seen: ChildClassEvidence, class: Seq<char>)
    ensures
        seen.has_webview ==> seen.with_class(class).has_webview,
        seen.has_video ==> seen.with_class(class).has_video,
        has_part(class, "teamswebview"@) ==> seen.with_class(class).has_webview,
        has_part(class, "teamsvideo"@) ==> seen.with_class(class).has_video,
        !seen.has_webview && !has_part(class, "teamswebview"@) ==> !seen.with_class(
            class,
        ).has_webview,
        !seen.has_video && !has_part(class, "teamsvideo"@) ==> !seen.with_class(class).has_video,
{
}

/// Separators and apostrophes do not matter in a name; everything else is kept in lower case.
pub proof fn law_names_are_compared_without_separators(name: Seq<char>, character: char)
    ensures
        character == '\'' || character == '’' || character == ' ' || character == '_' || character
            == '-' || character == '–' || character == '—' || character == '・' || character == '/'
            || character == '\\' || crate::text::is_white_space(character) ==> normalized(
            name.push(character),
        ) == normalized(name),
        !(character == '\'' || character == '’' || character == '_' || character == '-' || character
            == '–' || character == '—' || character == '・' || character == '/' || character
            == '\\' || crate::text::is_white_space(character)) ==> normalized(
            name.push(character),
        ) == normalized(name) + crate::text::lowercase_of(character),
{
    assert(name.push(character).drop_last() =~= name);
    assert(name.push(character).last() == character);
}

} // verus!
