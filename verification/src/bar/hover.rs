//! The pointer over the controls, and the explanation that goes with it.

use vstd::prelude::*;

use crate::bar::feedback::CaptureState;

verus! {

/// How long the pointer rests on a control before its explanation replaces another one,
/// in nanoseconds.
pub const CONTROL_HINT_SWITCH_DELAY: u64 = 160_000_000;

/// The controls of the expanded bar.
#[derive(Clone, Copy, Debug, PartialEq, Eq, Structural)]
pub enum ExpandedControl {
    Capture,
    Save,
    Refresh,
    Quit,
}

/// The explanation of a control.
#[derive(Clone, Copy, Debug, PartialEq, Eq)]
pub struct ControlHint {
    pub label: &'static str,
    pub detail: &'static str,
    pub is_shortcut: bool,
}

impl ExpandedControl {
    pub open spec fn label(self) -> Seq<char> {
        match self {
            ExpandedControl::Capture => "撮影"@,
            ExpandedControl::Save => "PNG保存"@,
            ExpandedControl::Refresh => "再検出"@,
            ExpandedControl::Quit => "終了"@,
        }
    }

    pub open spec fn detail(self, save_to_screenshots: bool) -> Seq<char> {
        match self {
            ExpandedControl::Capture => "Ctrl+Alt+S"@,
            ExpandedControl::Save => if save_to_screenshots {
                "ON"@
            } else {
                "OFF"@
            },
            ExpandedControl::Refresh => "会議・共有"@,
            ExpandedControl::Quit => "Snapbar"@,
        }
    }

    /// The hint explains this control.
    pub open spec fn explained_by(self, hint: ControlHint, save_to_screenshots: bool) -> bool {
        &&& hint.label@ == self.label()
        &&& hint.detail@ == self.detail(save_to_screenshots)
        &&& hint.is_shortcut == (self == ExpandedControl::Capture)
    }

    pub fn hover_hint(self, save_to_screenshots: bool) -> (result: ControlHint)
        ensures
            self.explained_by(result, save_to_screenshots),
    {
        match self {
            ExpandedControl::Capture => ControlHint {
                label: "撮影",
                detail: "Ctrl+Alt+S",
                is_shortcut: true,
            },
            ExpandedControl::Save => ControlHint {
                label: "PNG保存",
                detail: if save_to_screenshots {
                    "ON"
                } else {
                    "OFF"
                },
                is_shortcut: false,
            },
            ExpandedControl::Refresh => ControlHint {
                label: "再検出",
                detail: "会議・共有",
                is_shortcut: false,
            },
            ExpandedControl::Quit => ControlHint {
                label: "終了",
                detail: "Snapbar",
                is_shortcut: false,
            },
        }
    }
}

/// The control under the pointer, and the one whose explanation is shown. The latter
/// outlives the pointer in the gaps between controls.
#[derive(Clone, Copy, Debug, PartialEq, Eq, Structural)]
pub struct ControlHover {
    pub current: Option<ExpandedControl>,
    pub hint: Option<ExpandedControl>,
}

impl Default for ControlHover {
    fn default() -> (result: Self)
        ensures
            result == ControlHover::nowhere(),
    {
        ControlHover { current: None, hint: None }
    }
}

fn same_control(left: Option<ExpandedControl>, right: Option<ExpandedControl>) -> (result: bool)
    ensures
        result == (left == right),
{
    match (left, right) {
        (None, None) => true,
        (Some(left), Some(right)) => left == right,
        _ => false,
    }
}

impl ControlHover {
    pub open spec fn nowhere() -> ControlHover {
        ControlHover { current: None, hint: None }
    }

    /// The explanation that is shown. An error hides it, without forgetting it.
    pub fn display_hint(self, feedback: CaptureState, save_to_screenshots: bool) -> (result: Option<
        ControlHint,
    >)
        ensures
            match (self.hint, feedback == CaptureState::Error) {
                (Some(control), false) => result is Some && control.explained_by(
                    result->0,
                    save_to_screenshots,
                ),
                _ => result is None,
            },
    {
        match self.hint {
            Some(control) => if feedback != CaptureState::Error {
                Some(control.hover_hint(save_to_screenshots))
            } else {
                None
            },
            None => None,
        }
    }

    /// Where the pointer is after it entered or left `control`. A late leave of a control
    /// that the pointer is not on any more is ignored.
    pub open spec fn next(self, control: ExpandedControl, hovered: bool) -> Option<
        ExpandedControl,
    > {
        if hovered {
            Some(control)
        } else if self.current == Some(control) {
            None
        } else {
            self.current
        }
    }

    /// Takes an enter or a leave, and returns whether the pointer is elsewhere now. The
    /// first explanation is shown at once; a later one has to settle.
    pub fn update(&mut self, control: ExpandedControl, hovered: bool) -> (result: bool)
        ensures
            result == (old(self).next(control, hovered) != old(self).current),
            *final(self) == (ControlHover {
                current: old(self).next(control, hovered),
                hint: if result && old(self).hint is None {
                    old(self).next(control, hovered)
                } else {
                    old(self).hint
                },
            }),
    {
        let next = if hovered {
            Some(control)
        } else if same_control(self.current, Some(control)) {
            None
        } else {
            return false;
        };
        if same_control(self.current, next) {
            return false;
        }
        self.current = next;
        if self.hint.is_none() {
            self.hint = next;
        }
        true
    }

    /// The control whose explanation is about to replace the one shown.
    pub open spec fn unsettled(self) -> Option<ExpandedControl> {
        if self.current is Some && self.current != self.hint {
            self.current
        } else {
            None
        }
    }

    pub fn pending_hint(self) -> (result: Option<ExpandedControl>)
        ensures
            result == self.unsettled(),
    {
        if self.current.is_some() && !same_control(self.current, self.hint) {
            self.current
        } else {
            None
        }
    }

    /// Shows the explanation of `control` if the pointer still rests on it.
    pub fn settle_hint(&mut self, control: ExpandedControl) -> (result: bool)
        ensures
            result == (old(self).unsettled() == Some(control)),
            *final(self) == if result {
                ControlHover { hint: Some(control), ..*old(self) }
            } else {
                *old(self)
            },
    {
        if !same_control(self.pending_hint(), Some(control)) {
            return false;
        }
        self.hint = Some(control);
        true
    }
}

/// Leaving a control for a gap keeps its explanation, but the gap counts as no control.
pub proof fn law_gaps_keep_the_hint(hover: ControlHover, control: ExpandedControl)
    requires
        hover.current == Some(control),
        hover.hint is Some,
    ensures
        hover.next(control, false) is None,
        (ControlHover { current: hover.next(control, false), ..hover }).unsettled() is None,
{
}

/// A late leave of another control does not disturb the pointer.
pub proof fn law_late_leave_is_ignored(
    hover: ControlHover,
    left: ExpandedControl,
)
    requires
        hover.current != Some(left),
    ensures
        hover.next(left, false) == hover.current,
{
}

/// An enter moves the pointer to the control at once, and a leave counts only of the control
/// that the pointer is on: entering one control and leaving another in either order ends on
/// the one that was entered.
pub proof fn law_late_leaves_are_ignored(
    hover: ControlHover,
    entered: ExpandedControl,
    left: ExpandedControl,
)
    requires
        entered != left,
    ensures
        hover.next(entered, true) == Some(entered),
        (ControlHover { current: hover.next(entered, true), ..hover }).next(left, false) == Some(
            entered,
        ),
        (ControlHover { current: hover.next(left, false), ..hover }).next(entered, true) == Some(
            entered,
        ),
        (ControlHover { current: Some(left), ..hover }).next(left, false) is None,
        (ControlHover { current: None, ..hover }).next(left, false) is None,
{
}

/// An explanation is about to replace another exactly while the pointer rests on a control
/// that is not the one explained, and it is that control's.
pub proof fn law_explanations_follow_the_pointer(hover: ControlHover, control: ExpandedControl)
    ensures
        hover.unsettled() == Some(control) <==> hover.current == Some(control) && hover.hint
            != Some(control),
        hover.current is None ==> hover.unsettled() is None,
        (ControlHover { hint: Some(control), current: Some(control) }).unsettled() is None,
        ControlHover::nowhere().current is None && ControlHover::nowhere().hint is None,
{
}

/// Each control is explained by words of its own; only the capture has a shortcut, and only
/// that of saving depends on the setting.
pub proof fn law_controls_are_told_apart(
    control: ExpandedControl,
    other: ExpandedControl,
    hint: ControlHint,
    saves: bool,
)
    ensures
        control.label() == other.label() <==> control == other,
        control.explained_by(hint, saves) && other.explained_by(hint, saves) ==> control == other,
        control.explained_by(hint, saves) ==> (hint.is_shortcut <==> control is Capture),
        control.explained_by(hint, saves) && control is Save ==> hint.detail@ == if saves {
            "ON"@
        } else {
            "OFF"@
        },
        control.detail(true) == control.detail(false) <==> !(control is Save),
        ExpandedControl::Capture.detail(saves) == "Ctrl+Alt+S"@,
        ExpandedControl::Quit.detail(saves) == "Snapbar"@,
        ExpandedControl::Capture.label() == "撮影"@,
        ExpandedControl::Save.label() == "PNG保存"@,
        ExpandedControl::Refresh.label() == "再検出"@,
        ExpandedControl::Refresh.detail(saves) == "会議・共有"@,
        ExpandedControl::Quit.label() == "終了"@,
{
    reveal_strlit("撮影");
    reveal_strlit("PNG保存");
    reveal_strlit("再検出");
    reveal_strlit("終了");
    reveal_strlit("ON");
    reveal_strlit("OFF");
    assert("ON"@.len() == 2 && "OFF"@.len() == 3);
    assert("撮影"@[0] == '撮' && "PNG保存"@[0] == 'P' && "再検出"@[0] == '再' && "終了"@[0] == '終');
}

} // verus!
