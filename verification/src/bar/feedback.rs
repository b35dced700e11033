//! What the bar says of captures.

use vstd::prelude::*;

verus! {

/// How long a successful copy is shown, in nanoseconds.
pub const COPY_FEEDBACK_DURATION: u64 = 2_000_000_000;

/// What the bar is doing.
#[derive(Clone, Copy, Debug, PartialEq, Eq, Structural)]
pub enum CaptureState {
    Idle,
    WaitingForShare,
    Capturing,
    /// A capture was copied; shown until the clock reads `until`.
    Copied { until: u64 },
    NoTarget,
    Error,
}

impl CaptureState {
    /// The state at `now`: a copy is shown for a while only.
    pub open spec fn at(self, now: u64) -> CaptureState {
        match self {
            CaptureState::Copied { until } => if now >= until {
                CaptureState::Idle
            } else {
                self
            },
            _ => self,
        }
    }

    pub fn after_feedback_timeout(self, now: u64) -> (result: Self)
        ensures
            result == self.at(now),
    {
        match self {
            CaptureState::Copied { until } => if now >= until {
                CaptureState::Idle
            } else {
                self
            },
            _ => self,
        }
    }

    /// The state as it is shown: an error hides everything else.
    pub open spec fn shown(self, has_error: bool) -> CaptureState {
        if has_error {
            CaptureState::Error
        } else {
            self
        }
    }

    pub fn with_error(self, has_error: bool) -> (result: Self)
        ensures
            result == self.shown(has_error),
    {
        if has_error {
            CaptureState::Error
        } else {
            self
        }
    }

    /// The icon of the capture button.
    pub open spec fn icon(self) -> Seq<char> {
        match self {
            CaptureState::Copied { until } => "icons/check.svg"@,
            CaptureState::Error => "icons/alert.svg"@,
            CaptureState::Capturing => "icons/more.svg"@,
            _ => "icons/camera.svg"@,
        }
    }

    pub fn icon_path(self) -> (result: &'static str)
        ensures
            result@ == self.icon(),
    {
        match self {
            CaptureState::Copied { until: _ } => "icons/check.svg",
            CaptureState::Error => "icons/alert.svg",
            CaptureState::Capturing => "icons/more.svg",
            _ => "icons/camera.svg",
        }
    }

    /// The state in words; anything wrong is called that.
    pub open spec fn label(self, has_error: bool) -> Seq<char> {
        if has_error {
            "要確認"@
        } else {
            match self {
                CaptureState::Idle => "準備完了"@,
                CaptureState::WaitingForShare => "共有待ち"@,
                CaptureState::Capturing => "撮影中"@,
                CaptureState::Copied { until } => "準備完了"@,
                CaptureState::NoTarget => "会議待ち"@,
                CaptureState::Error => "要確認"@,
            }
        }
    }

    pub fn status_label(self, has_error: bool) -> (result: &'static str)
        ensures
            result@ == self.label(has_error),
    {
        if has_error {
            return "要確認";
        }
        match self {
            CaptureState::Idle => "準備完了",
            CaptureState::WaitingForShare => "共有待ち",
            CaptureState::Capturing => "撮影中",
            CaptureState::Copied { until: _ } => "準備完了",
            CaptureState::NoTarget => "会議待ち",
            CaptureState::Error => "要確認",
        }
    }

    /// Colour of the status dot on a light or dark surface, as 0xRRGGBB.
    pub open spec fn dot(self, light_surface: bool) -> u32 {
        match self {
            CaptureState::Idle => if light_surface {
                0x277a46
            } else {
                0x55c27c
            },
            CaptureState::Copied { until } => if light_surface {
                0x277a46
            } else {
                0x55c27c
            },
            CaptureState::Capturing => if light_surface {
                0xc7363f
            } else {
                0xe5484d
            },
            CaptureState::WaitingForShare => if light_surface {
                0x986500
            } else {
                0xe0a24a
            },
            CaptureState::NoTarget => if light_surface {
                0x986500
            } else {
                0xe0a24a
            },
            CaptureState::Error => if light_surface {
                0xb4232c
            } else {
                0xf07178
            },
        }
    }

    pub fn status_color(self, has_error: bool, light_surface: bool) -> (result: u32)
        ensures
            result == self.shown(has_error).dot(light_surface),
    {
        match self.with_error(has_error) {
            CaptureState::Idle | CaptureState::Copied { until: _ } => if light_surface {
                0x277a46
            } else {
                0x55c27c
            },
            CaptureState::Capturing => if light_surface {
                0xc7363f
            } else {
                0xe5484d
            },
            CaptureState::WaitingForShare | CaptureState::NoTarget => if light_surface {
                0x986500
            } else {
                0xe0a24a
            },
            CaptureState::Error => if light_surface {
                0xb4232c
            } else {
                0xf07178
            },
        }
    }
}

/// The feedback of a copy never cuts another state short: only a copy that has been shown
/// for its whole time becomes idle.
pub proof fn law_feedback_expires_on_time(state: CaptureState, now: u64)
    ensures
        state.at(now) != state ==> state is Copied && now >= state->until && state.at(now)
            == CaptureState::Idle,
{
}

/// A copy is shown until its time is up and not a moment longer, and nothing else passes by
/// itself.
pub proof fn law_only_copies_pass(state: CaptureState, now: u64, later: u64)
    requires
        now <= later,
    ensures
        !(state is Copied) ==> state.at(now) == state,
        state is Copied && state->until <= now ==> state.at(now) is Idle,
        state is Copied && now < state->until ==> state.at(now) == state,
        state.at(now).at(later) == state.at(later),
{
}

/// While there is an error nothing else is told of the bar; without one, the bar is shown
/// as it is.
pub proof fn law_errors_are_told_first(state: CaptureState, other: CaptureState, light: bool)
    ensures
        state.shown(true) is Error,
        state.shown(false) == state,
        state.label(true) == other.label(true),
        state.label(true) == CaptureState::Error.label(false),
        state.shown(true).icon() == "icons/alert.svg"@,
        state is Error <==> state.label(false) == "要確認"@,
        state is Copied ==> state.label(false) == CaptureState::Idle.label(false),
        state is Copied ==> state.dot(light) == CaptureState::Idle.dot(light),
        state is Copied <==> state.icon() == "icons/check.svg"@,
        state is Error <==> state.icon() == "icons/alert.svg"@,
        state is Capturing <==> state.icon() == "icons/more.svg"@,
        state is Idle || state is WaitingForShare || state is NoTarget <==> state.icon()
            == "icons/camera.svg"@,
        state is WaitingForShare <==> state.label(false) == "共有待ち"@,
        state is Capturing <==> state.label(false) == "撮影中"@,
        state is NoTarget <==> state.label(false) == "会議待ち"@,
        state is Idle || state is Copied <==> state.label(false) == "準備完了"@,
{
    reveal_strlit("icons/check.svg");
    reveal_strlit("icons/alert.svg");
    reveal_strlit("icons/more.svg");
    reveal_strlit("icons/camera.svg");
    reveal_strlit("要確認");
    reveal_strlit("準備完了");
    reveal_strlit("共有待ち");
    reveal_strlit("撮影中");
    reveal_strlit("会議待ち");
    assert("icons/check.svg"@.len() == 15 && "icons/alert.svg"@.len() == 15);
    assert("icons/more.svg"@.len() == 14 && "icons/camera.svg"@.len() == 16);
    assert("icons/check.svg"@[6] == 'c' && "icons/alert.svg"@[6] == 'a');
    assert("要確認"@[0] == '要' && "準備完了"@[0] == '準' && "共有待ち"@[0] == '共' && "撮影中"@[0]
        == '撮' && "会議待ち"@[0] == '会');
}

} // verus!
