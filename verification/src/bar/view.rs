//! What the bar draws, as plain values.

use vstd::prelude::*;

use crate::bar::controller::Snapbar;
use crate::bar::feedback::CaptureState;
use crate::bar::hover::{ControlHint, ExpandedControl};
use crate::bar::page::IslandPage;
use crate::bar::palette::{capture_background, capture_icon_base, capture_plate, TitlebarPalette};

verus! {

/// Everything that the drawing depends on, apart from sizes and animations. Colours are
/// written 0xRRGGBB; `None` stands for no background.
#[derive(Debug)]
pub struct BarView {
    pub can_capture: bool,
    pub presenter_attached: bool,
    /// The collapsed bar grows out of the title bar.
    pub caption_morph: bool,
    pub compact: bool,
    pub page: IslandPage,
    pub feedback: CaptureState,
    pub capture_icon: &'static str,
    pub hint: Option<ControlHint>,
    pub context_label: &'static str,
    /// The status dot stands beside the label.
    pub label_has_dot: bool,
    pub status_color: u32,
    pub capture_background: u32,
    pub idle_icon_color: u32,
    pub row_icon_color: u32,
    pub save_background: Option<u32>,
    pub save_icon_color: u32,
    pub refresh_background: Option<u32>,
    pub quit_background: Option<u32>,
    /// The camera stays visible while the bar grows.
    pub morph_capture: bool,
    pub save_path: Option<String>,
}

impl BarView {
    /// The text of the page on saving.
    pub open spec fn folder_text(path: Option<Result<String, String>>) -> Seq<char> {
        match path {
            Some(Ok(path)) => path@,
            Some(Err(_)) => "保存先を取得できませんでした"@,
            None => "保存先を取得中…"@,
        }
    }

    /// The view shows this bar.
    pub open spec fn shows(
        &self,
        bar: &Snapbar,
        engine_ready: bool,
        inline_presentation: bool,
        palette: TitlebarPalette,
    ) -> bool {
        let has_error = bar.last_error is Some;
        let feedback = bar.capture_state.shown(has_error);
        let ready = bar.has_engine && engine_ready && !bar.quitting;
        let toolbar = bar.presenter_toolbar_id is Some;
        let morph = !toolbar && !inline_presentation;
        let hovered = bar.control_hover.current;
        let hint_shown = bar.control_hover.hint is Some && feedback != CaptureState::Error;
        &&& self.can_capture == ready
        &&& self.presenter_attached == toolbar
        &&& self.caption_morph == morph
        &&& self.compact == bar.compact_layout
        &&& self.page == bar.island_page
        &&& self.feedback == feedback
        &&& self.capture_icon@ == feedback.icon()
        &&& self.hint is Some == hint_shown
        &&& hint_shown ==> bar.control_hover.hint->0.explained_by(
            self.hint->0,
            bar.save_to_screenshots,
        )
        &&& self.context_label@ == if hint_shown {
            bar.control_hover.hint->0.label()
        } else {
            bar.capture_state.label(has_error)
        }
        &&& self.label_has_dot == (!hint_shown && !morph)
        &&& self.status_color == feedback.dot(palette.is_light)
        &&& self.capture_background == capture_plate(feedback, palette)
        &&& self.idle_icon_color == match feedback {
            CaptureState::Copied { until } => if palette.is_light {
                0x277a46u32
            } else {
                0x55c27cu32
            },
            CaptureState::Error => palette.danger_icon,
            _ => if ready {
                palette.primary_text
            } else {
                palette.secondary_text
            },
        }
        &&& self.row_icon_color == if ready || feedback == CaptureState::Capturing || feedback
            == CaptureState::Error {
            0xffffff
        } else {
            palette.disabled_icon
        }
        &&& self.save_background == if hovered == Some(ExpandedControl::Save) {
            Some(
                if bar.save_to_screenshots {
                    palette.save_hover
                } else {
                    palette.control_hover
                },
            )
        } else {
            None
        }
        &&& self.save_icon_color == if bar.save_to_screenshots {
            palette.save_icon
        } else {
            palette.control_icon
        }
        &&& self.refresh_background == if hovered == Some(ExpandedControl::Refresh) {
            Some(palette.control_hover)
        } else {
            None
        }
        &&& self.quit_background == if hovered == Some(ExpandedControl::Quit) {
            Some(palette.quit_hover)
        } else {
            None
        }
        &&& self.morph_capture == (morph && bar.island_page == IslandPage::Controls)
        &&& self.save_path is Some == (bar.island_page == IslandPage::SaveInfo)
        &&& self.save_path is Some ==> self.save_path->0@ == Self::folder_text(bar.save_info_path)
    }
}

fn hovers(bar: &Snapbar, control: ExpandedControl) -> (result: bool)
    ensures
        result == (bar.control_hover.current == Some(control)),
{
    match bar.control_hover.current {
        Some(current) => current == control,
        None => false,
    }
}

fn folder(path: &Option<Result<String, String>>) -> (result: String)
    ensures
        result@ == BarView::folder_text(*path),
{
    match path {
        Some(Ok(path)) => path.clone(),
        Some(Err(_)) => "保存先を取得できませんでした".to_owned(),
        None => "保存先を取得中…".to_owned(),
    }
}

/// Works out what the bar draws.
pub fn view(
    bar: &Snapbar,
    engine_ready: bool,
    inline_presentation: bool,
    palette: TitlebarPalette,
) -> (result: BarView)
    ensures
        result.shows(bar, engine_ready, inline_presentation, palette),
{
    let has_error = bar.last_error.is_some();
    let can_capture = bar.has_engine && engine_ready && !bar.quitting;
    let presenter_attached = bar.presenter_toolbar_id.is_some();
    let caption_morph = !presenter_attached && !inline_presentation;
    let feedback = bar.capture_state.with_error(has_error);
    let hint = bar.control_hover.display_hint(feedback, bar.save_to_screenshots);
    let context_label = match &hint {
        Some(hint) => hint.label,
        None => bar.capture_state.status_label(has_error),
    };
    let label_has_dot = hint.is_none() && !caption_morph;
    let (idle_icon_color, _) = capture_icon_base(feedback, palette, can_capture);
    let white = can_capture || feedback == CaptureState::Capturing || feedback
        == CaptureState::Error;
    let save_path = if bar.island_page == IslandPage::SaveInfo {
        Some(folder(&bar.save_info_path))
    } else {
        None
    };
    BarView {
        can_capture,
        presenter_attached,
        caption_morph,
        compact: bar.compact_layout,
        page: bar.island_page,
        feedback,
        capture_icon: feedback.icon_path(),
        hint,
        context_label,
        label_has_dot,
        status_color: bar.capture_state.status_color(has_error, palette.is_light),
        capture_background: capture_background(feedback, palette),
        idle_icon_color,
        row_icon_color: if white {
            0xffffff
        } else {
            palette.disabled_icon
        },
        save_background: if hovers(bar, ExpandedControl::Save) {
            if bar.save_to_screenshots {
                Some(palette.save_hover)
            } else {
                Some(palette.control_hover)
            }
        } else {
            None
        },
        save_icon_color: if bar.save_to_screenshots {
            palette.save_icon
        } else {
            palette.control_icon
        },
        refresh_background: if hovers(bar, ExpandedControl::Refresh) {
            Some(palette.control_hover)
        } else {
            None
        },
        quit_background: if hovers(bar, ExpandedControl::Quit) {
            Some(palette.quit_hover)
        } else {
            None
        },
        morph_capture: caption_morph && bar.island_page == IslandPage::Controls,
        save_path,
    }
}

/// What the view shows follows the bar: a capture can be asked for exactly while a session is
/// ready and the program goes on, an error is shown before everything else and hides the
/// explanations, only the control under the pointer has a background of its own, and the
/// folder is named on its page only.
pub proof fn law_the_view_follows_the_bar(
    view: BarView,
    bar: &Snapbar,
    engine_ready: bool,
    inline_presentation: bool,
    palette: TitlebarPalette,
)
    requires
        view.shows(bar, engine_ready, inline_presentation, palette),
    ensures
        view.can_capture <==> bar.has_engine && engine_ready && !bar.quitting,
        view.presenter_attached <==> bar.presenter_toolbar_id is Some,
        view.caption_morph <==> bar.presenter_toolbar_id is None && !inline_presentation,
        bar.last_error is Some ==> view.feedback is Error && view.hint is None
            && view.context_label@ == "要確認"@ && view.capture_icon@ == "icons/alert.svg"@,
        bar.last_error is None ==> view.feedback == bar.capture_state,
        view.hint is Some <==> bar.control_hover.hint is Some && bar.last_error is None
            && !(bar.capture_state is Error),
        view.hint is Some ==> view.context_label@ == view.hint->0.label@ && !view.label_has_dot,
        view.label_has_dot ==> !view.caption_morph,
        view.save_background is Some <==> bar.control_hover.current == Some(ExpandedControl::Save),
        view.refresh_background is Some <==> bar.control_hover.current == Some(
            ExpandedControl::Refresh,
        ),
        view.quit_background is Some <==> bar.control_hover.current == Some(ExpandedControl::Quit),
        bar.save_to_screenshots ==> view.save_icon_color == palette.save_icon,
        !bar.save_to_screenshots ==> view.save_icon_color == palette.control_icon,
        view.can_capture ==> view.row_icon_color == 0xffffff,
        view.row_icon_color == 0xffffff || view.row_icon_color == palette.disabled_icon,
        view.morph_capture <==> view.caption_morph && bar.island_page is Controls,
        view.save_path is Some <==> bar.island_page is SaveInfo,
        view.save_path is Some && bar.save_info_path is Some && bar.save_info_path->0 is Ok
            ==> view.save_path->0@ == bar.save_info_path->0->Ok_0@,
        view.save_path is Some && bar.save_info_path is None ==> view.save_path->0@
            == "保存先を取得中…"@,
        view.save_path is Some && bar.save_info_path is Some && bar.save_info_path->0 is Err
            ==> view.save_path->0@ == "保存先を取得できませんでした"@,
        view.page == bar.island_page && view.compact == bar.compact_layout,
{
}

} // verus!
