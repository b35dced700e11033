//! The pages of the expanded bar, and how the program is quit.

use vstd::prelude::*;

use crate::bar::hover::ExpandedControl;

verus! {

/// How long the pointer rests on the save control before its page opens, in nanoseconds.
pub const SAVE_INFO_HOVER_DELAY: u64 = 1_000_000_000;

/// What the expanded bar shows.
#[derive(Clone, Copy, Debug, PartialEq, Eq, Structural)]
pub enum IslandPage {
    Controls,
    SaveInfo,
    ConfirmQuit,
}

/// What the user does about quitting.
#[derive(Clone, Copy, Debug, PartialEq, Eq, Structural)]
pub enum QuitAction {
    Request,
    Cancel,
    Confirm,
}

impl Default for IslandPage {
    fn default() -> (result: Self)
        ensures
            result == IslandPage::Controls,
    {
        IslandPage::Controls
    }
}

impl IslandPage {
    /// Whether the page on saving may open: the pointer rests on the save control of an
    /// expanded bar that shows its controls and is not about to quit.
    pub fn allows_save_info(
        self,
        hovered_control: Option<ExpandedControl>,
        expanded: bool,
        compact: bool,
        quitting: bool,
    ) -> (result: bool)
        ensures
            result == (self == IslandPage::Controls && hovered_control == Some(
                ExpandedControl::Save,
            ) && expanded && !compact && !quitting),
    {
        let on_save = match hovered_control {
            Some(ExpandedControl::Save) => true,
            _ => false,
        };
        self == IslandPage::Controls && on_save && expanded && !compact && !quitting
    }

    /// The page after an action.
    pub open spec fn after(self, action: QuitAction) -> IslandPage {
        match action {
            QuitAction::Request => IslandPage::ConfirmQuit,
            _ => IslandPage::Controls,
        }
    }

    /// Takes an action and returns whether the program quits: only a confirmation on the
    /// confirmation page does that.
    pub fn handle_quit(&mut self, action: QuitAction) -> (result: bool)
        ensures
            *final(self) == old(self).after(action),
            result == (action == QuitAction::Confirm && *old(self) == IslandPage::ConfirmQuit),
    {
        match action {
            QuitAction::Request => {
                *self = IslandPage::ConfirmQuit;
                false
            },
            QuitAction::Cancel => {
                *self = IslandPage::Controls;
                false
            },
            QuitAction::Confirm => {
                let confirmed = *self == IslandPage::ConfirmQuit;
                *self = IslandPage::Controls;
                confirmed
            },
        }
    }
}

/// The page after some actions.
pub open spec fn after_actions(page: IslandPage, actions: Seq<QuitAction>) -> IslandPage
    decreases actions.len(),
{
    if actions.len() == 0 {
        page
    } else {
        after_actions(page, actions.drop_last()).after(actions.last())
    }
}

/// From the controls, a confirmation quits only if the action right before it was a
/// request.
pub proof fn law_quit_needs_a_request(actions: Seq<QuitAction>)
    requires
        after_actions(IslandPage::Controls, actions) == IslandPage::ConfirmQuit,
    ensures
        actions.len() > 0,
        actions.last() == QuitAction::Request,
{
}

/// Only a request opens the page that asks whether to quit, and whatever else is done there
/// leads back to the controls.
pub proof fn law_the_question_is_asked_on_request(page: IslandPage, action: QuitAction)
    ensures
        page.after(action) is ConfirmQuit <==> action is Request,
        page.after(action) is Controls <==> action is Cancel || action is Confirm,
        !(page.after(action) is SaveInfo),
        after_actions(page, seq![QuitAction::Request, action]) is ConfirmQuit <==> action
            is Request,
{
    reveal_with_fuel(after_actions, 3);
    let actions = seq![QuitAction::Request, action];
    assert(actions.drop_last() =~= seq![QuitAction::Request]);
    assert(seq![QuitAction::Request].drop_last() =~= Seq::<QuitAction>::empty());
}

} // verus!
