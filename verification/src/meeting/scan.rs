//! One look at all windows: which of them belong to a meeting, and how much each tells.

use vstd::prelude::*;

use crate::accessibility::ControlType;
use crate::geometry::ScreenPoint;
use crate::meeting::debounce::MeetingEvidence;
use crate::meeting::names::{
    confirms_local_share, is_button, is_call_control, is_call_id, is_leave_control, is_leave_name,
    is_pressable, is_shared_content_name, is_shared_name, is_teams_name, is_teams_window,
    is_toolbar_title, normalize_name, normalized, presenter_element_confirms_local_share,
    ChildClassEvidence,
};
use crate::meeting::toolbar::{presenter_toolbar_score, toolbar_score, PresenterToolbarEvidence};
use crate::numeric::{clamp_to_i32, max_int, min_int};
use crate::source::CaptureTarget;
use crate::text::lowercase_text;

verus! {

/// Pause after a provider was woken up, in nanoseconds.
pub const PROVIDER_WARMUP_DELAY: u64 = 40_000_000;

/// What was read of an element of a meeting window. A text that could not be read is
/// empty.
#[derive(Debug)]
pub struct MeetingElement {
    pub offscreen: Option<bool>,
    pub name: String,
    pub automation_id: String,
    pub control_type: Option<ControlType>,
}

/// What the elements of a window tell of a meeting.
#[derive(Clone, Copy, Debug, PartialEq, Eq, Structural)]
pub struct MeetingUiaEvidence {
    pub has_leave_control: bool,
    pub has_call_control: bool,
    pub has_shared_content: bool,
    /// The window shows ordinary controls, so that its provider answers.
    pub provider_has_controls: bool,
}

impl Default for MeetingUiaEvidence {
    fn default() -> (result: Self)
        ensures
            result == MeetingUiaEvidence::nothing(),
    {
        MeetingUiaEvidence {
            has_leave_control: false,
            has_call_control: false,
            has_shared_content: false,
            provider_has_controls: false,
        }
    }
}

impl MeetingElement {
    pub open spec fn is_visible(&self) -> bool {
        self.offscreen == Some(false)
    }

    fn visible(&self) -> (result: bool)
        ensures
            result == self.is_visible(),
    {
        match self.offscreen {
            Some(offscreen) => !offscreen,
            None => false,
        }
    }

    /// An ordinary control with a name, here given normalized, or an identifier.
    pub open spec fn is_ordinary_control(&self, name: Seq<char>) -> bool {
        (name.len() > 0 || self.automation_id@.len() > 0) && (is_pressable(self.control_type)
            || self.control_type == Some(ControlType::Text))
    }
}

impl MeetingUiaEvidence {
    pub open spec fn nothing() -> MeetingUiaEvidence {
        MeetingUiaEvidence {
            has_leave_control: false,
            has_call_control: false,
            has_shared_content: false,
            provider_has_controls: false,
        }
    }

    pub open spec fn tells_something(self) -> bool {
        self.has_leave_control || self.has_call_control || self.has_shared_content
    }

    /// Nothing more can be learned.
    pub open spec fn is_complete(self) -> bool {
        self.has_leave_control && self.has_call_control && self.has_shared_content
    }

    pub fn has_signal(self) -> (result: bool)
        ensures
            result == self.tells_something(),
    {
        self.has_leave_control || self.has_call_control || self.has_shared_content
    }

    /// A window without any control is looked at once more, after its provider was woken
    /// up. Ordinary controls prove that it answers, though not that there is a meeting.
    pub fn needs_provider_warmup(self) -> (result: bool)
        ensures
            result == (!self.tells_something() && !self.provider_has_controls),
    {
        !self.has_signal() && !self.provider_has_controls
    }

    /// The evidence after an element whose name is `name` once normalized.
    pub open spec fn with_named_element(
        self,
        element: MeetingElement,
        name: Seq<char>,
    ) -> MeetingUiaEvidence {
        if !element.is_visible() {
            self
        } else {
            MeetingUiaEvidence {
                has_leave_control: self.has_leave_control || (is_pressable(element.control_type)
                    && is_leave_name(name)),
                has_call_control: self.has_call_control || is_call_id(
                    element.automation_id@,
                    element.control_type,
                ),
                has_shared_content: self.has_shared_content || is_shared_name(name),
                provider_has_controls: self.provider_has_controls || element.is_ordinary_control(
                    name,
                ),
            }
        }
    }

    /// Takes an element whose name has been normalized.
    pub fn note_named_element(&mut self, element: &MeetingElement, name: &str)
        ensures
            *final(self) == old(self).with_named_element(*element, name@),
    {
        if !element.visible() {
            return ;
        }
        let is_text = match element.control_type {
            Some(ControlType::Text) => true,
            _ => false,
        };
        if (!name.is_empty() || !element.automation_id.as_str().is_empty()) && (is_button(
            element.control_type,
        ) || is_text) {
            self.provider_has_controls = true;
        }
        if is_leave_control(name, element.control_type) {
            self.has_leave_control = true;
        }
        if is_call_control(element.automation_id.as_str(), element.control_type) {
            self.has_call_control = true;
        }
        if is_shared_content_name(name) {
            self.has_shared_content = true;
        }
    }

    /// The evidence after the elements, in order. The look ends once nothing more can be
    /// learned.
    pub open spec fn of_elements(elements: Seq<MeetingElement>) -> MeetingUiaEvidence
        decreases elements.len(),
    {
        if elements.len() == 0 {
            Self::nothing()
        } else {
            let before = Self::of_elements(elements.drop_last());
            if before.is_complete() {
                before
            } else {
                before.with_named_element(elements.last(), normalized(elements.last().name@))
            }
        }
    }

}

proof fn lemma_complete_stays(elements: Seq<MeetingElement>, seen: int)
    requires
        0 <= seen <= elements.len(),
        MeetingUiaEvidence::of_elements(elements.take(seen)).is_complete(),
    ensures
        MeetingUiaEvidence::of_elements(elements) == MeetingUiaEvidence::of_elements(
            elements.take(seen),
        ),
    decreases elements.len(),
{
    if seen < elements.len() {
        let shorter = elements.drop_last();
        assert(shorter.take(seen) =~= elements.take(seen));
        lemma_complete_stays(shorter, seen);
    } else {
        assert(elements.take(seen) =~= elements);
    }
}

/// Reads the evidence of a meeting from the elements of a window.
pub fn scan_meeting_uia(elements: &Vec<MeetingElement>) -> (result: MeetingUiaEvidence)
    ensures
        result == MeetingUiaEvidence::of_elements(elements@),
{
    let mut evidence = MeetingUiaEvidence::default();
    let mut i: usize = 0;
    assert(elements@.take(0) =~= Seq::<MeetingElement>::empty());
    while i < elements.len()
        invariant
            i <= elements.len(),
            evidence == MeetingUiaEvidence::of_elements(elements@.take(i as int)),
        decreases elements.len() - i,
    {
        if evidence.has_leave_control && evidence.has_call_control && evidence.has_shared_content {
            proof {
                lemma_complete_stays(elements@, i as int);
            }
            return evidence;
        }
        assert(elements@.take(i + 1).drop_last() =~= elements@.take(i as int));
        assert(elements@.take(i + 1).last() == elements@[i as int]);
        if elements[i].visible() {
            let name = normalize_name(elements[i].name.as_str());
            evidence.note_named_element(&elements[i], name.as_str());
        }
        i += 1;
    }
    assert(elements@.take(i as int) =~= elements@);
    evidence
}

/// The elements of a presenter toolbar prove that something is shared from here.
pub open spec fn proves_local_share(elements: Seq<MeetingElement>) -> bool {
    exists|k: int|
        0 <= k < elements.len() && (#[trigger] elements[k]).is_visible() && confirms_local_share(
            normalized(elements[k].name@),
            elements[k].automation_id@,
            elements[k].control_type,
        )
}

/// Looks for that proof.
pub fn inspect_presenter_toolbar(elements: &Vec<MeetingElement>) -> (result: bool)
    ensures
        result == proves_local_share(elements@),
{
    let mut i: usize = 0;
    while i < elements.len()
        invariant
            i <= elements.len(),
            forall|k: int|
                0 <= k < i ==> !((#[trigger] elements@[k]).is_visible() && confirms_local_share(
                    normalized(elements@[k].name@),
                    elements@[k].automation_id@,
                    elements@[k].control_type,
                )),
        decreases elements.len() - i,
    {
        if elements[i].visible() {
            let name = normalize_name(elements[i].name.as_str());
            if presenter_element_confirms_local_share(
                name.as_str(),
                elements[i].automation_id.as_str(),
                elements[i].control_type,
            ) {
                assert(elements@[i as int].is_visible());
                return true;
            }
        }
        i += 1;
    }
    false
}

/// The point at which a meeting window is touched to wake its provider: the middle of
/// its width, three quarters down.
pub fn warmup_point(x: i32, y: i32, width: u32, height: u32) -> (result: ScreenPoint)
    ensures
        result == (ScreenPoint {
            x: min_int(x + width as int / 2, i32::MAX as int) as i32,
            y: min_int(y + min_int(height * 3, u32::MAX as int) / 4, i32::MAX as int) as i32,
        }),
{
    let tripled: u32 = if height > 0x5555_5555 { u32::MAX } else { height * 3 };
    ScreenPoint {
        x: clamp_to_i32(x as i64 + (width / 2) as i64),
        y: clamp_to_i32(y as i64 + (tripled / 4) as i64),
    }
}

/// What was read of a top-level window.
#[derive(Debug)]
pub struct WindowSight {
    pub id: u32,
    pub title: String,
    pub app_name: String,
    /// The number still names a window.
    pub exists: bool,
    pub minimized: bool,
    pub visible: bool,
    pub focused: bool,
    pub width: u32,
    pub height: u32,
    pub topmost: bool,
    pub display_affinity: Option<u32>,
}

/// What a top-level window is taken for.
#[derive(Clone, Copy, Debug, PartialEq, Eq, Structural)]
pub enum WindowKind {
    /// Not a window of Teams.
    Other,
    /// A presenter toolbar, and how much speaks for it.
    Toolbar(i32),
    /// A window that may show a meeting.
    Meeting,
}

impl WindowSight {
    /// The toolbar score of the window.
    pub open spec fn as_toolbar(&self) -> Option<i32> {
        toolbar_score(
            is_toolbar_title(normalized(self.title@)),
            min_int(self.width as int, i32::MAX as int) as i32,
            min_int(self.height as int, i32::MAX as int) as i32,
            self.visible,
            self.topmost,
            self.display_affinity,
        )
    }

    pub open spec fn kind(&self) -> WindowKind {
        if !self.exists || !is_teams_name(
            lowercase_text(self.app_name@),
            lowercase_text(self.title@),
        ) {
            WindowKind::Other
        } else {
            match self.as_toolbar() {
                Some(score) => WindowKind::Toolbar(score),
                None => WindowKind::Meeting,
            }
        }
    }

    /// Decides what a window is taken for.
    pub fn classify(&self) -> (result: WindowKind)
        ensures
            result == self.kind(),
    {
        if !is_teams_window(self.app_name.as_str(), self.title.as_str()) || !self.exists {
            return WindowKind::Other;
        }
        let width: i32 = if self.width > 0x7fff_ffff { i32::MAX } else { self.width as i32 };
        let height: i32 = if self.height > 0x7fff_ffff { i32::MAX } else { self.height as i32 };
        match presenter_toolbar_score(
            self.title.as_str(),
            width,
            height,
            self.visible,
            self.topmost,
            self.display_affinity,
        ) {
            Some(score) => WindowKind::Toolbar(score),
            None => WindowKind::Meeting,
        }
    }
}

pub open spec fn points(holds: bool, value: int) -> int {
    if holds {
        value
    } else {
        0
    }
}

/// How much a window tells of a meeting. Windows further up count for more.
pub open spec fn meeting_score(
    sight: WindowSight,
    classes: ChildClassEvidence,
    uia: MeetingUiaEvidence,
    z_index: int,
) -> int {
    points(uia.has_leave_control, 130) + points(uia.has_call_control, 110) + points(
        classes.has_video,
        85,
    ) + points(uia.has_shared_content, 55) + points(classes.has_webview, 20) + points(
        sight.focused,
        18,
    ) + points(sight.visible, 8) + points(!sight.minimized, 5) + max_int(20 - z_index, 0)
}

/// What one look at all windows found.
#[derive(Debug)]
pub struct TeamsScan {
    pub meetings: Vec<MeetingEvidence>,
    pub presenter_toolbars: Vec<PresenterToolbarEvidence>,
}

/// The order of meetings: by score, and by focus, visibility and web view where the
/// scores are equal.
pub open spec fn meeting_rank(evidence: MeetingEvidence) -> int {
    evidence.score * 8 + points(evidence.focused, 4) + points(evidence.visible, 2) + points(
        evidence.has_webview,
        1,
    )
}

/// `item` behind every entry of the list that ranks at least as high.
pub open spec fn with_meeting(list: Seq<MeetingEvidence>, item: MeetingEvidence) -> Seq<
    MeetingEvidence,
>
    decreases list.len(),
{
    if list.len() == 0 || meeting_rank(list.last()) >= meeting_rank(item) {
        list.push(item)
    } else {
        with_meeting(list.drop_last(), item).push(list.last())
    }
}

/// The meetings by falling rank. Those of equal rank keep their order.
pub open spec fn ranked_meetings(list: Seq<MeetingEvidence>) -> Seq<MeetingEvidence>
    decreases list.len(),
{
    if list.len() == 0 {
        Seq::empty()
    } else {
        with_meeting(ranked_meetings(list.drop_last()), list.last())
    }
}

/// `item` behind every entry of the list that scores at least as high.
pub open spec fn with_toolbar(
    list: Seq<PresenterToolbarEvidence>,
    item: PresenterToolbarEvidence,
) -> Seq<PresenterToolbarEvidence>
    decreases list.len(),
{
    if list.len() == 0 || list.last().score >= item.score {
        list.push(item)
    } else {
        with_toolbar(list.drop_last(), item).push(list.last())
    }
}

/// The toolbars by falling score. Those of equal score keep their order.
pub open spec fn ranked_toolbars(list: Seq<PresenterToolbarEvidence>) -> Seq<
    PresenterToolbarEvidence,
>
    decreases list.len(),
{
    if list.len() == 0 {
        Seq::empty()
    } else {
        with_toolbar(ranked_toolbars(list.drop_last()), list.last())
    }
}

fn meeting_precedes(left: &MeetingEvidence, right: &MeetingEvidence) -> (result: bool)
    ensures
        result == (meeting_rank(*left) >= meeting_rank(*right)),
{
    if left.score != right.score {
        return left.score > right.score;
    }
    if left.focused != right.focused {
        return left.focused;
    }
    if left.visible != right.visible {
        return left.visible;
    }
    left.has_webview || !right.has_webview
}

/// Inserting at `at` is what `with_meeting` does, where everything before ranks at least
/// as high and everything behind ranks lower.
proof fn lemma_meeting_place(list: Seq<MeetingEvidence>, item: MeetingEvidence, at: int)
    requires
        0 <= at <= list.len(),
        at > 0 ==> meeting_rank(list[at - 1]) >= meeting_rank(item),
        forall|k: int|
            at <= k < list.len() ==> meeting_rank(#[trigger] list[k]) < meeting_rank(item),
    ensures
        with_meeting(list, item) == list.insert(at, item),
    decreases list.len(),
{
    if at < list.len() {
        let shorter = list.drop_last();
        assert(list.last() == list[list.len() - 1]);
        assert forall|k: int| at <= k < shorter.len() implies meeting_rank(#[trigger] shorter[k])
            < meeting_rank(item) by {
            assert(shorter[k] == list[k]);
        }
        if at > 0 {
            assert(shorter[at - 1] == list[at - 1]);
        }
        lemma_meeting_place(shorter, item, at);
        assert(shorter.insert(at, item).push(list.last()) =~= list.insert(at, item));
    } else {
        assert(list.insert(at, item) =~= list.push(item));
    }
}

proof fn lemma_toolbar_place(
    list: Seq<PresenterToolbarEvidence>,
    item: PresenterToolbarEvidence,
    at: int,
)
    requires
        0 <= at <= list.len(),
        at > 0 ==> list[at - 1].score >= item.score,
        forall|k: int| at <= k < list.len() ==> (#[trigger] list[k]).score < item.score,
    ensures
        with_toolbar(list, item) == list.insert(at, item),
    decreases list.len(),
{
    if at < list.len() {
        let shorter = list.drop_last();
        assert(list.last() == list[list.len() - 1]);
        assert forall|k: int| at <= k < shorter.len() implies (#[trigger] shorter[k]).score
            < item.score by {
            assert(shorter[k] == list[k]);
        }
        if at > 0 {
            assert(shorter[at - 1] == list[at - 1]);
        }
        lemma_toolbar_place(shorter, item, at);
        assert(shorter.insert(at, item).push(list.last()) =~= list.insert(at, item));
    } else {
        assert(list.insert(at, item) =~= list.push(item));
    }
}

/// The ranked list holds the same meetings, and none ranks higher than the one before it.
pub proof fn law_meetings_are_ranked(list: Seq<MeetingEvidence>)
    ensures
        ranked_meetings(list).to_multiset() == list.to_multiset(),
        forall|i: int, j: int|
            0 <= i <= j < ranked_meetings(list).len() ==> meeting_rank(
                #[trigger] ranked_meetings(list)[i],
            ) >= meeting_rank(#[trigger] ranked_meetings(list)[j]),
    decreases list.len(),
{
    broadcast use vstd::seq_lib::group_to_multiset_ensures;

    if list.len() > 0 {
        law_meetings_are_ranked(list.drop_last());
        lemma_with_meeting_keeps_order(ranked_meetings(list.drop_last()), list.last());
        assert(list =~= list.drop_last().push(list.last()));
    }
}

proof fn lemma_with_meeting_keeps_order(list: Seq<MeetingEvidence>, item: MeetingEvidence)
    requires
        forall|i: int, j: int|
            0 <= i <= j < list.len() ==> meeting_rank(#[trigger] list[i]) >= meeting_rank(
                #[trigger] list[j],
            ),
    ensures
        ({
            let result = with_meeting(list, item);
            &&& result.to_multiset() == list.to_multiset().insert(item)
            &&& result.len() == list.len() + 1
            &&& forall|i: int, j: int|
                0 <= i <= j < result.len() ==> meeting_rank(#[trigger] result[i]) >= meeting_rank(
                    #[trigger] result[j],
                )
            &&& forall|i: int|
                0 <= i < result.len() && list.len() > 0 ==> meeting_rank(#[trigger] result[i])
                    >= meeting_rank(list.last()) || meeting_rank(result[i]) >= meeting_rank(item)
        }),
    decreases list.len(),
{
    broadcast use vstd::seq_lib::group_to_multiset_ensures;

    let result = with_meeting(list, item);
    if list.len() == 0 || meeting_rank(list.last()) >= meeting_rank(item) {
        assert(list.len() > 0 ==> list.last() == list[list.len() - 1]);
        assert forall|i: int, j: int| 0 <= i <= j < result.len() implies meeting_rank(
            #[trigger] result[i],
        ) >= meeting_rank(#[trigger] result[j]) by {
            if j == list.len() && i < list.len() {
                assert(meeting_rank(list[i]) >= meeting_rank(list[list.len() - 1]));
            }
        }
    } else {
        let shorter = list.drop_last();
        assert forall|i: int, j: int| 0 <= i <= j < shorter.len() implies meeting_rank(
            #[trigger] shorter[i],
        ) >= meeting_rank(#[trigger] shorter[j]) by {
            assert(shorter[i] == list[i] && shorter[j] == list[j]);
        }
        lemma_with_meeting_keeps_order(shorter, item);
        let inner = with_meeting(shorter, item);
        assert(list =~= shorter.push(list.last()));
        assert(result.to_multiset() =~= list.to_multiset().insert(item));
        assert forall|i: int| 0 <= i < inner.len() implies meeting_rank(#[trigger] inner[i])
            >= meeting_rank(list.last()) by {
            if shorter.len() > 0 {
                assert(shorter.last() == list[list.len() - 2]);
                assert(meeting_rank(list[list.len() - 2]) >= meeting_rank(list[list.len() - 1]));
            }
        }
    }
}

/// The ranked list holds the same toolbars, and none scores higher than the one before it.
pub proof fn law_toolbars_are_ranked(list: Seq<PresenterToolbarEvidence>)
    ensures
        ranked_toolbars(list).to_multiset() == list.to_multiset(),
        forall|i: int, j: int|
            0 <= i <= j < ranked_toolbars(list).len() ==> (#[trigger] ranked_toolbars(list)[i]).score
                >= (#[trigger] ranked_toolbars(list)[j]).score,
    decreases list.len(),
{
    broadcast use vstd::seq_lib::group_to_multiset_ensures;

    if list.len() > 0 {
        law_toolbars_are_ranked(list.drop_last());
        lemma_with_toolbar_keeps_order(ranked_toolbars(list.drop_last()), list.last());
        assert(list =~= list.drop_last().push(list.last()));
    }
}

proof fn lemma_with_toolbar_keeps_order(
    list: Seq<PresenterToolbarEvidence>,
    item: PresenterToolbarEvidence,
)
    requires
        forall|i: int, j: int|
            0 <= i <= j < list.len() ==> (#[trigger] list[i]).score >= (#[trigger] list[j]).score,
    ensures
        ({
            let result = with_toolbar(list, item);
            &&& result.to_multiset() == list.to_multiset().insert(item)
            &&& result.len() == list.len() + 1
            &&& forall|i: int, j: int|
                0 <= i <= j < result.len() ==> (#[trigger] result[i]).score >= (
                #[trigger] result[j]).score
            &&& forall|i: int|
                0 <= i < result.len() && list.len() > 0 ==> (#[trigger] result[i]).score
                    >= list.last().score || result[i].score >= item.score
        }),
    decreases list.len(),
{
    broadcast use vstd::seq_lib::group_to_multiset_ensures;

    let result = with_toolbar(list, item);
    if list.len() == 0 || list.last().score >= item.score {
        assert(list.len() > 0 ==> list.last() == list[list.len() - 1]);
        assert forall|i: int, j: int| 0 <= i <= j < result.len() implies (
        #[trigger] result[i]).score >= (#[trigger] result[j]).score by {
            if j == list.len() && i < list.len() {
                assert(list[i].score >= list[list.len() - 1].score);
            }
        }
    } else {
        let shorter = list.drop_last();
        assert forall|i: int, j: int| 0 <= i <= j < shorter.len() implies (
        #[trigger] shorter[i]).score >= (#[trigger] shorter[j]).score by {
            assert(shorter[i] == list[i] && shorter[j] == list[j]);
        }
        lemma_with_toolbar_keeps_order(shorter, item);
        let inner = with_toolbar(shorter, item);
        assert(list =~= shorter.push(list.last()));
        assert(result.to_multiset() =~= list.to_multiset().insert(item));
        assert forall|i: int| 0 <= i < inner.len() implies (#[trigger] inner[i]).score
            >= list.last().score by {
            if shorter.len() > 0 {
                assert(shorter.last() == list[list.len() - 2]);
                assert(list[list.len() - 2].score >= list[list.len() - 1].score);
            }
        }
    }
}

impl TeamsScan {
    pub fn new() -> (result: Self)
        ensures
            result.meetings@.len() == 0,
            result.presenter_toolbars@.len() == 0,
    {
        TeamsScan { meetings: Vec::new(), presenter_toolbars: Vec::new() }
    }

    /// Adds a presenter toolbar. One that proves local sharing counts for more.
    pub fn add_toolbar(&mut self, id: u32, score: i32, local_share_active: bool)
        requires
            score <= i32::MAX - 40,
        ensures
            final(self).meetings@ == old(self).meetings@,
            final(self).presenter_toolbars@ == old(self).presenter_toolbars@.push(
                PresenterToolbarEvidence {
                    id,
                    score: (score + points(local_share_active, 40)) as i32,
                    local_share_active,
                },
            ),
    {
        let score: i32 = if local_share_active { score + 40 } else { score };
        self.presenter_toolbars.push(PresenterToolbarEvidence { id, score, local_share_active });
    }

    /// Adds a window that may show a meeting. `z_index` is its place among all windows,
    /// counted from the top.
    pub fn add_meeting(
        &mut self,
        sight: WindowSight,
        classes: ChildClassEvidence,
        uia: MeetingUiaEvidence,
        z_index: usize,
    )
        ensures
            final(self).presenter_toolbars@ == old(self).presenter_toolbars@,
            final(self).meetings@ == old(self).meetings@.push(
                MeetingEvidence {
                    target: CaptureTarget {
                        id: sight.id,
                        title: sight.title,
                        app_name: sight.app_name,
                    },
                    minimized: sight.minimized,
                    visible: sight.visible,
                    focused: sight.focused,
                    has_webview: classes.has_webview,
                    has_video: classes.has_video,
                    has_leave_control: uia.has_leave_control,
                    has_call_control: uia.has_call_control,
                    has_shared_content: uia.has_shared_content,
                    score: meeting_score(sight, classes, uia, z_index as int) as i32,
                },
            ),
    {
        let mut score: i32 = 0;
        if uia.has_leave_control {
            score += 130;
        }
        if uia.has_call_control {
            score += 110;
        }
        if classes.has_video {
            score += 85;
        }
        if uia.has_shared_content {
            score += 55;
        }
        if classes.has_webview {
            score += 20;
        }
        if sight.focused {
            score += 18;
        }
        if sight.visible {
            score += 8;
        }
        if !sight.minimized {
            score += 5;
        }
        let depth: usize = if z_index > 20 { 20 } else { z_index };
        score += 20 - depth as i32;
        self.meetings.push(
            MeetingEvidence {
                target: CaptureTarget {
                    id: sight.id,
                    title: sight.title,
                    app_name: sight.app_name,
                },
                minimized: sight.minimized,
                visible: sight.visible,
                focused: sight.focused,
                has_webview: classes.has_webview,
                has_video: classes.has_video,
                has_leave_control: uia.has_leave_control,
                has_call_control: uia.has_call_control,
                has_shared_content: uia.has_shared_content,
                score,
            },
        );
    }

    /// Puts the meetings and the toolbars in order.
    pub fn sort(&mut self)
        ensures
            final(self).meetings@ == ranked_meetings(old(self).meetings@),
            final(self).presenter_toolbars@ == ranked_toolbars(old(self).presenter_toolbars@),
    {
        sort_meetings(&mut self.meetings);
        sort_toolbars(&mut self.presenter_toolbars);
    }
}

/// A top-level window, and what was read of its inside where `classify` asks for it.
#[derive(Debug)]
pub struct InspectedWindow {
    /// `None` for a window that has no number any more.
    pub sight: Option<WindowSight>,
    /// For a presenter toolbar: its elements prove that something is shared from here.
    pub local_share_active: bool,
    /// For a window that may show a meeting.
    pub classes: ChildClassEvidence,
    pub uia: MeetingUiaEvidence,
}

impl InspectedWindow {
    /// The meeting that the window tells of, at this place among all windows.
    pub open spec fn meeting(&self, z_index: int) -> Option<MeetingEvidence> {
        if self.sight is Some && self.sight->0.kind() is Meeting {
            let sight = self.sight->0;
            Some(
                MeetingEvidence {
                    target: CaptureTarget {
                        id: sight.id,
                        title: sight.title,
                        app_name: sight.app_name,
                    },
                    minimized: sight.minimized,
                    visible: sight.visible,
                    focused: sight.focused,
                    has_webview: self.classes.has_webview,
                    has_video: self.classes.has_video,
                    has_leave_control: self.uia.has_leave_control,
                    has_call_control: self.uia.has_call_control,
                    has_shared_content: self.uia.has_shared_content,
                    score: meeting_score(sight, self.classes, self.uia, z_index) as i32,
                },
            )
        } else {
            None
        }
    }

    /// The presenter toolbar that the window is.
    pub open spec fn toolbar(&self) -> Option<PresenterToolbarEvidence> {
        if self.sight is Some && self.sight->0.kind() is Toolbar {
            Some(
                PresenterToolbarEvidence {
                    id: self.sight->0.id,
                    score: (self.sight->0.kind()->Toolbar_0 + points(self.local_share_active, 40))
                        as i32,
                    local_share_active: self.local_share_active,
                },
            )
        } else {
            None
        }
    }
}

/// The meetings among the windows, from the top down.
pub open spec fn meetings_of(windows: Seq<InspectedWindow>) -> Seq<MeetingEvidence>
    decreases windows.len(),
{
    if windows.len() == 0 {
        Seq::empty()
    } else {
        match windows.last().meeting(windows.len() - 1) {
            Some(meeting) => meetings_of(windows.drop_last()).push(meeting),
            None => meetings_of(windows.drop_last()),
        }
    }
}

/// The presenter toolbars among the windows, from the top down.
pub open spec fn toolbars_of(windows: Seq<InspectedWindow>) -> Seq<PresenterToolbarEvidence>
    decreases windows.len(),
{
    if windows.len() == 0 {
        Seq::empty()
    } else {
        match windows.last().toolbar() {
            Some(toolbar) => toolbars_of(windows.drop_last()).push(toolbar),
            None => toolbars_of(windows.drop_last()),
        }
    }
}

/// Takes a look at all windows, given from the top down.
pub fn scan_meeting_windows(windows: Vec<InspectedWindow>) -> (result: TeamsScan)
    ensures
        result.meetings@ == ranked_meetings(meetings_of(windows@)),
        result.presenter_toolbars@ == ranked_toolbars(toolbars_of(windows@)),
{
    let ghost all = windows@;
    let mut rest = windows;
    let mut scan = TeamsScan::new();
    let mut z_index: usize = 0;
    let count: usize = rest.len();
    assert(all.take(0) =~= Seq::<InspectedWindow>::empty());
    assert(all.skip(0) =~= all);
    while rest.len() > 0
        invariant
            z_index <= count,
            count == all.len(),
            rest@ == all.skip(z_index as int),
            scan.meetings@ == meetings_of(all.take(z_index as int)),
            scan.presenter_toolbars@ == toolbars_of(all.take(z_index as int)),
        decreases rest.len(),
    {
        let window = rest.remove(0);
        proof {
            assert(window == all[z_index as int]);
            assert(all.take(z_index + 1).drop_last() =~= all.take(z_index as int));
            assert(all.take(z_index + 1).last() == window);
            assert(rest@ =~= all.skip(z_index + 1));
        }
        if let Some(sight) = window.sight {
            match sight.classify() {
                WindowKind::Other => {},
                WindowKind::Toolbar(score) => {
                    scan.add_toolbar(sight.id, score, window.local_share_active);
                },
                WindowKind::Meeting => {
                    scan.add_meeting(sight, window.classes, window.uia, z_index);
                },
            }
        }
        z_index += 1;
    }
    assert(all.take(z_index as int) =~= all);
    scan.sort();
    scan
}

fn sort_meetings(list: &mut Vec<MeetingEvidence>)
    ensures
        final(list)@ == ranked_meetings(old(list)@),
{
    let ghost before = list@;
    let mut sorted: Vec<MeetingEvidence> = Vec::new();
    let ghost mut done: int = 0;
    assert(before.take(0) =~= Seq::<MeetingEvidence>::empty());
    assert(before.skip(0) =~= before);
    while list.len() > 0
        invariant
            0 <= done <= before.len(),
            list@ == before.skip(done),
            sorted@ == ranked_meetings(before.take(done)),
        decreases list.len(),
    {
        let item = list.remove(0);
        let ghost target = sorted@;
        let mut at: usize = sorted.len();
        while at > 0 && !meeting_precedes(&sorted[at - 1], &item)
            invariant
                at <= sorted.len(),
                sorted@ == target,
                forall|k: int|
                    at <= k < sorted.len() ==> meeting_rank(#[trigger] sorted@[k]) < meeting_rank(
                        item,
                    ),
            decreases at,
        {
            at -= 1;
        }
        proof {
            lemma_meeting_place(target, item, at as int);
            assert(before.take(done + 1).drop_last() =~= before.take(done));
            assert(before.take(done + 1).last() == item);
            done = done + 1;
        }
        sorted.insert(at, item);
        assert(list@ =~= before.skip(done));
    }
    assert(before.take(done) =~= before);
    *list = sorted;
}

fn sort_toolbars(list: &mut Vec<PresenterToolbarEvidence>)
    ensures
        final(list)@ == ranked_toolbars(old(list)@),
{
    let ghost before = list@;
    let mut sorted: Vec<PresenterToolbarEvidence> = Vec::new();
    let mut i: usize = 0;
    assert(before.take(0) =~= Seq::<PresenterToolbarEvidence>::empty());
    while i < list.len()
        invariant
            i <= list.len(),
            list@ == before,
            sorted@ == ranked_toolbars(before.take(i as int)),
        decreases list.len() - i,
    {
        let item = list[i];
        let ghost target = sorted@;
        let mut at: usize = sorted.len();
        while at > 0 && sorted[at - 1].score < item.score
            invariant
                at <= sorted.len(),
                sorted@ == target,
                forall|k: int|
                    at <= k < sorted.len() ==> (#[trigger] sorted@[k]).score < item.score,
            decreases at,
        {
            at -= 1;
        }
        proof {
            lemma_toolbar_place(target, item, at as int);
            assert(before.take(i + 1).drop_last() =~= before.take(i as int));
            assert(before.take(i + 1).last() == item);
        }
        sorted.insert(at, item);
        i += 1;
    }
    assert(before.take(i as int) =~= before);
    *list = sorted;
}

/// Each sign of a call is found exactly where some visible element shows it: a control that
/// leaves it, a control that only a call has, a name of shared content.
pub proof fn law_signs_are_found_in_visible_elements(elements: Seq<MeetingElement>)
    ensures
        ({
            let evidence = MeetingUiaEvidence::of_elements(elements);
            &&& evidence.has_leave_control <==> exists|k: int|
                0 <= k < elements.len() && (#[trigger] elements[k]).offscreen == Some(false)
                    && is_pressable(elements[k].control_type) && is_leave_name(
                    normalized(elements[k].name@),
                )
            &&& evidence.has_call_control <==> exists|k: int|
                0 <= k < elements.len() && (#[trigger] elements[k]).offscreen == Some(false)
                    && is_call_id(elements[k].automation_id@, elements[k].control_type)
            &&& evidence.has_shared_content <==> exists|k: int|
                0 <= k < elements.len() && (#[trigger] elements[k]).offscreen == Some(false)
                    && is_shared_name(normalized(elements[k].name@))
            &&& evidence.provider_has_controls ==> exists|k: int|
                0 <= k < elements.len() && (#[trigger] elements[k]).offscreen == Some(false) && (
                is_pressable(elements[k].control_type) || elements[k].control_type == Some(
                    ControlType::Text,
                )) && (normalized(elements[k].name@).len() > 0
                    || elements[k].automation_id@.len() > 0)
            &&& evidence.tells_something() <==> evidence.has_leave_control
                || evidence.has_call_control || evidence.has_shared_content
        }),
    decreases elements.len(),
{
    if elements.len() > 0 {
        let before = elements.drop_last();
        let last = elements.len() - 1;
        law_signs_are_found_in_visible_elements(before);
        assert forall|k: int| 0 <= k < before.len() implies before[k] == #[trigger] elements[k] by {}
        let evidence = MeetingUiaEvidence::of_elements(elements);
        let earlier = MeetingUiaEvidence::of_elements(before);
        if earlier.has_leave_control {
            let k = choose|k: int|
                0 <= k < before.len() && (#[trigger] before[k]).offscreen == Some(false)
                    && is_pressable(before[k].control_type) && is_leave_name(
                    normalized(before[k].name@),
                );
            assert(elements[k] == before[k]);
        }
        if earlier.has_call_control {
            let k = choose|k: int|
                0 <= k < before.len() && (#[trigger] before[k]).offscreen == Some(false)
                    && is_call_id(before[k].automation_id@, before[k].control_type);
            assert(elements[k] == before[k]);
        }
        if earlier.has_shared_content {
            let k = choose|k: int|
                0 <= k < before.len() && (#[trigger] before[k]).offscreen == Some(false)
                    && is_shared_name(normalized(before[k].name@));
            assert(elements[k] == before[k]);
        }
        if earlier.provider_has_controls {
            let k = choose|k: int|
                0 <= k < before.len() && (#[trigger] before[k]).offscreen == Some(false) && (
                is_pressable(before[k].control_type) || before[k].control_type == Some(
                    ControlType::Text,
                )) && (normalized(before[k].name@).len() > 0 || before[k].automation_id@.len()
                    > 0);
            assert(elements[k] == before[k]);
        }
        assert(elements[last] == elements.last());
        if exists|k: int|
            0 <= k < elements.len() && (#[trigger] elements[k]).offscreen == Some(false)
                && is_pressable(elements[k].control_type) && is_leave_name(
                normalized(elements[k].name@),
            ) {
            let k = choose|k: int|
                0 <= k < elements.len() && (#[trigger] elements[k]).offscreen == Some(false)
                    && is_pressable(elements[k].control_type) && is_leave_name(
                    normalized(elements[k].name@),
                );
            if k < last {
                assert(before[k] == elements[k]);
            }
        }
        if exists|k: int|
            0 <= k < elements.len() && (#[trigger] elements[k]).offscreen == Some(false)
                && is_call_id(elements[k].automation_id@, elements[k].control_type) {
            let k = choose|k: int|
                0 <= k < elements.len() && (#[trigger] elements[k]).offscreen == Some(false)
                    && is_call_id(elements[k].automation_id@, elements[k].control_type);
            if k < last {
                assert(before[k] == elements[k]);
            }
        }
        if exists|k: int|
            0 <= k < elements.len() && (#[trigger] elements[k]).offscreen == Some(false)
                && is_shared_name(normalized(elements[k].name@)) {
            let k = choose|k: int|
                0 <= k < elements.len() && (#[trigger] elements[k]).offscreen == Some(false)
                    && is_shared_name(normalized(elements[k].name@));
            if k < last {
                assert(before[k] == elements[k]);
            }
        }
    }
}

/// Sharing from here is proved by a visible element of the toolbar and by nothing else.
pub proof fn law_hidden_elements_prove_nothing(elements: Seq<MeetingElement>)
    ensures
        proves_local_share(elements) <==> exists|k: int|
            0 <= k < elements.len() && (#[trigger] elements[k]).offscreen == Some(false)
                && confirms_local_share(
                normalized(elements[k].name@),
                elements[k].automation_id@,
                elements[k].control_type,
            ),
        proves_local_share(elements) ==> elements.len() > 0,
{
    if proves_local_share(elements) {
        let k = choose|k: int|
            0 <= k < elements.len() && (#[trigger] elements[k]).is_visible()
                && confirms_local_share(
                normalized(elements[k].name@),
                elements[k].automation_id@,
                elements[k].control_type,
            );
        assert(elements[k].offscreen == Some(false));
    }
    if exists|k: int|
        0 <= k < elements.len() && (#[trigger] elements[k]).offscreen == Some(false)
            && confirms_local_share(
            normalized(elements[k].name@),
            elements[k].automation_id@,
            elements[k].control_type,
        ) {
        let k = choose|k: int|
            0 <= k < elements.len() && (#[trigger] elements[k]).offscreen == Some(false)
                && confirms_local_share(
                normalized(elements[k].name@),
                elements[k].automation_id@,
                elements[k].control_type,
            );
        assert(elements[k].is_visible());
    }
}

/// Only a window of Teams that still exists counts; one that scores as a presenter toolbar is
/// one, every other may show a meeting.
pub proof fn law_only_windows_of_teams_count(sight: WindowSight)
    ensures
        ({
            let is_teams = is_teams_name(
                lowercase_text(sight.app_name@),
                lowercase_text(sight.title@),
            );
            &&& sight.kind() is Other <==> !sight.exists || !is_teams
            &&& sight.kind() is Toolbar <==> sight.exists && is_teams && sight.as_toolbar() is Some
            &&& sight.kind() is Meeting <==> sight.exists && is_teams && sight.as_toolbar() is None
            &&& sight.kind() is Toolbar ==> sight.kind()->Toolbar_0 == sight.as_toolbar()->0
            &&& sight.width <= 0x7fff_ffff && sight.height <= 0x7fff_ffff ==> sight.as_toolbar()
                == toolbar_score(
                is_toolbar_title(normalized(sight.title@)),
                sight.width as i32,
                sight.height as i32,
                sight.visible,
                sight.topmost,
                sight.display_affinity,
            )
        }),
{
}

/// Every sign of a meeting raises the score of its window by what it is worth: a control that
/// leaves the call most, then one that only a call has, then video, shared content and a web
/// view; the focus, being seen, not being minimized and standing further up count less.
pub proof fn law_signs_of_a_meeting_add_up(
    sight: WindowSight,
    classes: ChildClassEvidence,
    uia: MeetingUiaEvidence,
    z_index: int,
)
    requires
        z_index >= 0,
    ensures
        ({
            let score = meeting_score(sight, classes, uia, z_index);
            let nothing = MeetingUiaEvidence::nothing();
            &&& !uia.has_leave_control ==> meeting_score(
                sight,
                classes,
                MeetingUiaEvidence { has_leave_control: true, ..uia },
                z_index,
            ) == score + 130
            &&& !uia.has_call_control ==> meeting_score(
                sight,
                classes,
                MeetingUiaEvidence { has_call_control: true, ..uia },
                z_index,
            ) == score + 110
            &&& !uia.has_shared_content ==> meeting_score(
                sight,
                classes,
                MeetingUiaEvidence { has_shared_content: true, ..uia },
                z_index,
            ) == score + 55
            &&& !classes.has_video ==> meeting_score(
                sight,
                ChildClassEvidence { has_video: true, ..classes },
                uia,
                z_index,
            ) == score + 85
            &&& !classes.has_webview ==> meeting_score(
                sight,
                ChildClassEvidence { has_webview: true, ..classes },
                uia,
                z_index,
            ) == score + 20
            &&& !sight.focused ==> meeting_score(
                WindowSight { focused: true, ..sight },
                classes,
                uia,
                z_index,
            ) == score + 18
            &&& !sight.visible ==> meeting_score(
                WindowSight { visible: true, ..sight },
                classes,
                uia,
                z_index,
            ) == score + 8
            &&& sight.minimized ==> meeting_score(
                WindowSight { minimized: false, ..sight },
                classes,
                uia,
                z_index,
            ) == score + 5
            &&& z_index < 20 ==> meeting_score(sight, classes, uia, z_index + 1) == score - 1
            &&& z_index >= 20 ==> meeting_score(sight, classes, uia, z_index + 1) == score
            &&& 0 <= score <= 451
        }),
{
}

/// Meetings rank by their score; where that is equal by the focus, then by being seen, then
/// by having a web view.
pub proof fn law_ranks_go_by_the_score_first(left: MeetingEvidence, right: MeetingEvidence)
    ensures
        left.score > right.score ==> meeting_rank(left) > meeting_rank(right),
        left.score == right.score && left.focused && !right.focused ==> meeting_rank(left)
            > meeting_rank(right),
        left.score == right.score && left.focused == right.focused && left.visible
            && !right.visible ==> meeting_rank(left) > meeting_rank(right),
        left.score == right.score && left.focused == right.focused && left.visible
            == right.visible && left.has_webview && !right.has_webview ==> meeting_rank(left)
            > meeting_rank(right),
        left.score == right.score && left.focused == right.focused && left.visible
            == right.visible && left.has_webview == right.has_webview ==> meeting_rank(left)
            == meeting_rank(right),
{
}

/// Of two meetings, and of two toolbars, the better one comes first, and the one that stands
/// further up where neither is better.
pub proof fn law_equal_ranks_keep_their_order(
    first: MeetingEvidence,
    second: MeetingEvidence,
    upper: PresenterToolbarEvidence,
    lower: PresenterToolbarEvidence,
)
    ensures
        meeting_rank(first) >= meeting_rank(second) ==> ranked_meetings(seq![first, second])
            == seq![first, second],
        meeting_rank(first) < meeting_rank(second) ==> ranked_meetings(seq![first, second])
            == seq![second, first],
        upper.score >= lower.score ==> ranked_toolbars(seq![upper, lower]) == seq![upper, lower],
        upper.score < lower.score ==> ranked_toolbars(seq![upper, lower]) == seq![lower, upper],
{
    reveal_with_fuel(ranked_meetings, 3);
    reveal_with_fuel(with_meeting, 3);
    reveal_with_fuel(ranked_toolbars, 3);
    reveal_with_fuel(with_toolbar, 3);
    let meetings = seq![first, second];
    assert(meetings.drop_last() =~= seq![first]);
    assert(seq![first].drop_last() =~= Seq::<MeetingEvidence>::empty());
    assert(ranked_meetings(seq![first]) =~= seq![first]);
    assert(Seq::<MeetingEvidence>::empty().push(second) =~= seq![second]);
    let toolbars = seq![upper, lower];
    assert(toolbars.drop_last() =~= seq![upper]);
    assert(seq![upper].drop_last() =~= Seq::<PresenterToolbarEvidence>::empty());
    assert(ranked_toolbars(seq![upper]) =~= seq![upper]);
    assert(Seq::<PresenterToolbarEvidence>::empty().push(lower) =~= seq![lower]);
}

/// What a window tells of a meeting is what was read of it, and a window that is no meeting
/// tells of none; a toolbar that proves sharing from here scores 40 more.
pub proof fn law_windows_tell_what_was_read(window: InspectedWindow, z_index: int)
    ensures
        window.meeting(z_index) is Some <==> window.sight is Some && window.sight->0.kind()
            is Meeting,
        window.meeting(z_index) is Some ==> {
            let meeting = window.meeting(z_index)->0;
            let sight = window.sight->0;
            &&& meeting.target.id == sight.id
            &&& meeting.target.title == sight.title
            &&& meeting.target.app_name == sight.app_name
            &&& meeting.minimized == sight.minimized
            &&& meeting.visible == sight.visible
            &&& meeting.focused == sight.focused
            &&& meeting.has_webview == window.classes.has_webview
            &&& meeting.has_video == window.classes.has_video
            &&& meeting.has_leave_control == window.uia.has_leave_control
            &&& meeting.has_call_control == window.uia.has_call_control
            &&& meeting.has_shared_content == window.uia.has_shared_content
            &&& z_index >= 0 ==> meeting.score == meeting_score(
                sight,
                window.classes,
                window.uia,
                z_index,
            )
        },
        window.toolbar() is Some <==> window.sight is Some && window.sight->0.kind() is Toolbar,
        window.toolbar() is Some ==> {
            let toolbar = window.toolbar()->0;
            &&& toolbar.id == window.sight->0.id
            &&& toolbar.local_share_active == window.local_share_active
            &&& window.local_share_active ==> toolbar.score == window.sight->0.as_toolbar()->0
                + 40
            &&& !window.local_share_active ==> toolbar.score == window.sight->0.as_toolbar()->0
        },
{
}

/// Every window that may show a meeting is among the meetings, at its place from the top, and
/// nothing else is; every toolbar is among the toolbars.
pub proof fn law_no_window_is_overlooked(windows: Seq<InspectedWindow>, at: int)
    requires
        0 <= at < windows.len(),
    ensures
        windows[at].meeting(at) is Some ==> meetings_of(windows).contains(
            windows[at].meeting(at)->0,
        ),
        windows[at].toolbar() is Some ==> toolbars_of(windows).contains(windows[at].toolbar()->0),
        forall|meeting: MeetingEvidence| #[trigger]
            meetings_of(windows).contains(meeting) ==> exists|k: int|
                0 <= k < windows.len() && (#[trigger] windows[k]).meeting(k) == Some(meeting),
        forall|toolbar: PresenterToolbarEvidence| #[trigger]
            toolbars_of(windows).contains(toolbar) ==> exists|k: int|
                0 <= k < windows.len() && (#[trigger] windows[k]).toolbar() == Some(toolbar),
        meetings_of(windows).len() + toolbars_of(windows).len() <= windows.len(),
    decreases windows.len(),
{
    lemma_windows_are_listed(windows, at);
}

proof fn lemma_windows_are_listed(windows: Seq<InspectedWindow>, at: int)
    ensures
        0 <= at < windows.len() && windows[at].meeting(at) is Some ==> meetings_of(
            windows,
        ).contains(windows[at].meeting(at)->0),
        0 <= at < windows.len() && windows[at].toolbar() is Some ==> toolbars_of(
            windows,
        ).contains(windows[at].toolbar()->0),
        forall|meeting: MeetingEvidence| #[trigger]
            meetings_of(windows).contains(meeting) ==> exists|k: int|
                0 <= k < windows.len() && (#[trigger] windows[k]).meeting(k) == Some(meeting),
        forall|toolbar: PresenterToolbarEvidence| #[trigger]
            toolbars_of(windows).contains(toolbar) ==> exists|k: int|
                0 <= k < windows.len() && (#[trigger] windows[k]).toolbar() == Some(toolbar),
        meetings_of(windows).len() + toolbars_of(windows).len() <= windows.len(),
    decreases windows.len(),
{
    if windows.len() > 0 {
        let before = windows.drop_last();
        let last = windows.len() - 1;
        lemma_windows_are_listed(before, at);
        assert(windows[last] == windows.last());
        let old_meetings = meetings_of(before);
        let meetings = meetings_of(windows);
        let old_toolbars = toolbars_of(before);
        let toolbars = toolbars_of(windows);
        assert forall|meeting: MeetingEvidence| old_meetings.contains(
            meeting,
        ) implies meetings.contains(meeting) by {
            let i = choose|i: int| 0 <= i < old_meetings.len() && old_meetings[i] == meeting;
            assert(meetings[i] == meeting);
        }
        assert forall|toolbar: PresenterToolbarEvidence| old_toolbars.contains(
            toolbar,
        ) implies toolbars.contains(toolbar) by {
            let i = choose|i: int| 0 <= i < old_toolbars.len() && old_toolbars[i] == toolbar;
            assert(toolbars[i] == toolbar);
        }
        if windows[last].meeting(last) is Some {
            assert(meetings[meetings.len() - 1] == windows[last].meeting(last)->0);
        }
        if windows[last].toolbar() is Some {
            assert(toolbars[toolbars.len() - 1] == windows[last].toolbar()->0);
        }
        if 0 <= at < last {
            assert(before[at] == windows[at]);
        }
        assert forall|meeting: MeetingEvidence| #[trigger]
            meetings.contains(meeting) implies exists|k: int|
            0 <= k < windows.len() && (#[trigger] windows[k]).meeting(k) == Some(meeting) by {
            let i = choose|i: int| 0 <= i < meetings.len() && meetings[i] == meeting;
            if i < old_meetings.len() {
                assert(old_meetings[i] == meeting);
                assert(old_meetings.contains(meeting));
                let k = choose|k: int|
                    0 <= k < before.len() && (#[trigger] before[k]).meeting(k) == Some(meeting);
                assert(windows[k] == before[k]);
            } else {
                assert(windows[last].meeting(last) == Some(meeting));
            }
        }
        assert forall|toolbar: PresenterToolbarEvidence| #[trigger]
            toolbars.contains(toolbar) implies exists|k: int|
            0 <= k < windows.len() && (#[trigger] windows[k]).toolbar() == Some(toolbar) by {
            let i = choose|i: int| 0 <= i < toolbars.len() && toolbars[i] == toolbar;
            if i < old_toolbars.len() {
                assert(old_toolbars[i] == toolbar);
                assert(old_toolbars.contains(toolbar));
                let k = choose|k: int|
                    0 <= k < before.len() && (#[trigger] before[k]).toolbar() == Some(toolbar);
                assert(windows[k] == before[k]);
            } else {
                assert(windows[last].toolbar() == Some(toolbar));
            }
        }
    }
}

} // verus!
