//! How the bar reacts to meetings, to captures and to the user.
//!
//! Windows, frame sources and timers belong to the caller. Each function says what has
//! changed and what the caller has to do about it.

use vstd::prelude::*;

use crate::bar::feedback::{CaptureState, COPY_FEEDBACK_DURATION};
use crate::bar::hover::{ControlHover, ExpandedControl};
use crate::bar::page::{IslandPage, QuitAction};
use crate::bar::requests::CaptureRequests;
use crate::meeting::monitor::MeetingSnapshot;
use crate::numeric::CLOCK_LIMIT;
use crate::source::{CaptureSource, CaptureTarget, LocalMonitorCaptureTarget};
use crate::text::joined;

verus! {

/// What went wrong last.
#[derive(Debug)]
pub enum BarError {
    /// The shared content is not ready yet.
    WaitingForContent,
    /// The bar could not be kept out of the captured monitor.
    ExclusionFailed,
    /// The setting could not be stored.
    SettingNotStored(String),
    /// The capture was copied, but not saved.
    SaveFailed(String),
    /// A capture or the start of a session failed.
    Failed(String),
}

impl BarError {
    pub open spec fn text(&self) -> Seq<char> {
        match self {
            BarError::WaitingForContent => "共有コンテンツを待機中です"@,
            BarError::ExclusionFailed =>
                "Snapbarを共有画面から一時的に除外できなかったため撮影を停止しました"@,
            BarError::SettingNotStored(error) => "保存設定を更新できませんでした: "@ + error@,
            BarError::SaveFailed(error) => "コピー済み / ファイル保存失敗: "@ + error@,
            BarError::Failed(error) => error@,
        }
    }

    pub fn message(&self) -> (result: String)
        ensures
            result@ == self.text(),
    {
        match self {
            BarError::WaitingForContent => "共有コンテンツを待機中です".to_owned(),
            BarError::ExclusionFailed =>
                "Snapbarを共有画面から一時的に除外できなかったため撮影を停止しました".to_owned(),
            BarError::SettingNotStored(error) => joined(
                "保存設定を更新できませんでした: ",
                error.as_str(),
            ),
            BarError::SaveFailed(error) => joined(
                "コピー済み / ファイル保存失敗: ",
                error.as_str(),
            ),
            BarError::Failed(error) => error.clone(),
        }
    }
}

/// The bar.
#[derive(Debug)]
pub struct Snapbar {
    pub target: Option<CaptureTarget>,
    /// There is a capture session.
    pub has_engine: bool,
    pub last_monitor_generation: u64,
    pub shared_content_hint: bool,
    pub presenter_toolbar_id: Option<u32>,
    pub local_share_active: bool,
    pub local_monitor_target: Option<LocalMonitorCaptureTarget>,
    pub compact_layout: bool,
    pub save_to_screenshots: bool,
    pub expanded: bool,
    pub control_hover: ControlHover,
    /// The control whose explanation waits for the pointer to rest.
    pub control_hint_timer: Option<ExpandedControl>,
    pub island_page: IslandPage,
    /// The page on saving is about to open, or its folder is being looked up.
    pub save_info_pending: bool,
    /// The folder of saved screenshots, once it is known.
    pub save_info_path: Option<Result<String, String>>,
    pub capture_state: CaptureState,
    /// Grows with every capture, and with everything that makes one outdated.
    pub capture_generation: u64,
    pub capture_requests: CaptureRequests,
    pub last_error: Option<BarError>,
    pub quitting: bool,
}

/// What has to be done after a new meeting snapshot.
#[derive(Clone, Copy, Debug, PartialEq, Eq, Structural)]
pub struct SnapshotEffects {
    /// The bar has to be drawn anew.
    pub notify: bool,
    /// The bar collapses from its present shape.
    pub retarget: bool,
    /// The capture hotkey has to be on.
    pub hotkey_enabled: bool,
    /// The session has to be dropped and one of this source started.
    pub restart: Option<CaptureSource>,
}

/// What the window that carries the bar says of itself.
#[derive(Clone, Copy, Debug, PartialEq, Eq, Structural)]
pub struct OverlayState {
    pub compact: bool,
    pub visible: bool,
    pub expanded: bool,
}

/// What a capture session says of itself.
#[derive(Clone, Copy, Debug, PartialEq, Eq, Structural)]
pub struct EngineState {
    pub ready: bool,
    pub local_monitor: bool,
}

/// What comes of a request to capture.
#[derive(Clone, Copy, Debug, PartialEq, Eq, Structural)]
pub enum CaptureStart {
    /// Nothing; a running capture may be followed by another one.
    Ignored,
    /// Look for a meeting.
    RequestScan,
    /// Nothing can be captured yet, or the bar is in the way.
    Refused,
    /// The capture of this number begins.
    Started { generation: u64, save_to_screenshots: bool, wait_for_composition: bool },
}

/// What comes of the end of a capture.
#[derive(Clone, Copy, Debug, PartialEq, Eq, Structural)]
pub struct CaptureEnd {
    /// The capture was outdated; its result and its session count for nothing.
    pub outdated: bool,
    pub show_flash: bool,
    pub capture_again: bool,
}

/// What comes of the pointer entering or leaving a control.
#[derive(Clone, Copy, Debug, PartialEq, Eq, Structural)]
pub struct HoverEffects {
    pub notify: bool,
    /// Wait until the page on saving opens.
    pub start_dwell: bool,
    /// Wait until this explanation replaces another one.
    pub start_hint: Option<ExpandedControl>,
}

/// The generation that follows.
pub open spec fn next_generation(generation: u64) -> u64 {
    if generation == u64::MAX {
        0
    } else {
        (generation + 1) as u64
    }
}

impl Snapbar {
    /// A bar without a meeting.
    pub fn new(save_to_screenshots: bool) -> (result: Self)
        ensures
            result.target is None,
            !result.has_engine,
            result.last_monitor_generation == u64::MAX,
            !result.shared_content_hint,
            result.presenter_toolbar_id is None,
            !result.local_share_active,
            result.local_monitor_target is None,
            !result.compact_layout,
            result.save_to_screenshots == save_to_screenshots,
            !result.expanded,
            result.control_hover == ControlHover::nowhere(),
            result.control_hint_timer is None,
            result.island_page == IslandPage::Controls,
            !result.save_info_pending,
            result.save_info_path is None,
            result.capture_state == CaptureState::NoTarget,
            result.capture_generation == 0,
            result.capture_requests == (CaptureRequests { active: None, pending: false }),
            result.last_error is None,
            !result.quitting,
    {
        Snapbar {
            target: None,
            has_engine: false,
            last_monitor_generation: u64::MAX,
            shared_content_hint: false,
            presenter_toolbar_id: None,
            local_share_active: false,
            local_monitor_target: None,
            compact_layout: false,
            save_to_screenshots,
            expanded: false,
            control_hover: ControlHover::default(),
            control_hint_timer: None,
            island_page: IslandPage::default(),
            save_info_pending: false,
            save_info_path: None,
            capture_state: CaptureState::NoTarget,
            capture_generation: 0,
            capture_requests: CaptureRequests::default(),
            last_error: None,
            quitting: false,
        }
    }

    /// What can be captured: the monitor shared from here, or the window in which content
    /// is shown.
    pub open spec fn source(&self) -> Option<CaptureSource> {
        match self.local_monitor_target {
            Some(target) => Some(CaptureSource::LocalMonitor(target)),
            None => if self.shared_content_hint && self.target is Some {
                Some(CaptureSource::RemoteTeamsWindow(self.target->0.id))
            } else {
                None
            },
        }
    }

    pub fn current_capture_source(&self) -> (result: Option<CaptureSource>)
        ensures
            result == self.source(),
    {
        match self.local_monitor_target {
            Some(target) => Some(CaptureSource::LocalMonitor(target)),
            None => match &self.target {
                Some(target) => if self.shared_content_hint {
                    Some(CaptureSource::RemoteTeamsWindow(target.id))
                } else {
                    None
                },
                None => None,
            },
        }
    }

    /// There is a meeting, a presenter toolbar or something shared from here.
    pub open spec fn in_context(&self) -> bool {
        self.target is Some || self.presenter_toolbar_id is Some || self.local_share_active
    }

    pub fn has_capture_context(&self) -> (result: bool)
        ensures
            result == self.in_context(),
    {
        self.target.is_some() || self.presenter_toolbar_id.is_some() || self.local_share_active
    }

    /// The state of a bar without a session.
    pub open spec fn resting_state(&self) -> CaptureState {
        if self.in_context() {
            CaptureState::WaitingForShare
        } else {
            CaptureState::NoTarget
        }
    }

    fn resting(&self) -> (result: CaptureState)
        ensures
            result == self.resting_state(),
    {
        if self.has_capture_context() {
            CaptureState::WaitingForShare
        } else {
            CaptureState::NoTarget
        }
    }

    /// The bar after it was told to expand or collapse. A collapsing bar goes back to its
    /// controls and forgets the pointer.
    pub open spec fn disclosed(self, expanded: bool) -> Snapbar {
        let paged = if expanded {
            self
        } else {
            Snapbar {
                island_page: IslandPage::Controls,
                save_info_pending: false,
                save_info_path: None,
                ..self
            }
        };
        if self.expanded == expanded {
            paged
        } else if expanded {
            Snapbar { expanded, ..paged }
        } else {
            Snapbar {
                expanded,
                control_hint_timer: None,
                control_hover: ControlHover::nowhere(),
                ..paged
            }
        }
    }

    /// Expands or collapses the bar, and returns whether it changes its shape.
    pub fn retarget_disclosure(&mut self, expanded: bool) -> (result: bool)
        ensures
            *final(self) == old(self).disclosed(expanded),
            result == (old(self).expanded != expanded),
    {
        if !expanded {
            self.island_page.handle_quit(QuitAction::Cancel);
            self.save_info_pending = false;
            self.save_info_path = None;
        }
        if self.expanded == expanded {
            return false;
        }
        self.expanded = expanded;
        if !expanded {
            self.reset_control_hover();
        }
        true
    }

    fn reset_control_hover(&mut self)
        ensures
            *final(self) == (Snapbar {
                control_hint_timer: None,
                control_hover: ControlHover::nowhere(),
                ..*old(self)
            }),
    {
        self.control_hint_timer = None;
        self.control_hover = ControlHover::default();
    }

    /// The bar with everything that a snapshot says of the meeting.
    pub open spec fn with_meeting(self, snapshot: MeetingSnapshot) -> Snapbar {
        let told = Snapbar {
            last_monitor_generation: snapshot.generation,
            presenter_toolbar_id: snapshot.presenter_toolbar_id,
            shared_content_hint: snapshot.shared_content_hint,
            local_share_active: snapshot.local_share_active,
            local_monitor_target: snapshot.local_monitor_target,
            ..self
        };
        let shaped = if self.moves_with(snapshot) {
            Snapbar { compact_layout: false, ..told.disclosed(false) }
        } else {
            told
        };
        Snapbar { target: snapshot.target, ..shaped }
    }

    /// The snapshot is about another window or another toolbar.
    pub open spec fn moves_with(self, snapshot: MeetingSnapshot) -> bool {
        let before = match self.target {
            Some(target) => Some(target.id),
            None => None,
        };
        let after = match snapshot.target {
            Some(target) => Some(target.id),
            None => None,
        };
        before != after || self.presenter_toolbar_id != snapshot.presenter_toolbar_id
    }

    /// The session is dropped, and with it every capture that is under way.
    pub open spec fn without_engine(self) -> Snapbar {
        Snapbar {
            capture_generation: next_generation(self.capture_generation),
            capture_requests: CaptureRequests { pending: false, ..self.capture_requests },
            has_engine: false,
            ..self
        }
    }

    /// A new session is due: there is something to capture, and the session at hand is
    /// about something else or missing.
    pub open spec fn restarts_with(self, snapshot: MeetingSnapshot) -> bool {
        let next = self.with_meeting(snapshot).source();
        next is Some && (self.source() != next || !self.has_engine)
    }

    /// The bar after a new snapshot.
    pub open spec fn after_snapshot(self, snapshot: MeetingSnapshot) -> Snapbar {
        let told = self.with_meeting(snapshot);
        let engine = told.following(self.source());
        if told.in_context() {
            engine
        } else {
            Snapbar { compact_layout: false, ..engine.disclosed(false) }
        }
    }

    fn drop_engine(&mut self)
        ensures
            *final(self) == old(self).without_engine(),
    {
        self.capture_generation = self.capture_generation.wrapping_add(1);
        self.capture_requests.clear_pending();
        self.has_engine = false;
    }

    /// Takes a new meeting snapshot.
    pub fn apply_meeting_snapshot(&mut self, snapshot: MeetingSnapshot) -> (result:
        SnapshotEffects)
        ensures
            *final(self) == old(self).after_snapshot(snapshot),
            result.restart == if old(self).restarts_with(snapshot) {
                old(self).with_meeting(snapshot).source()
            } else {
                None
            },
            result.hotkey_enabled == final(self).in_context(),
            result.notify == (old(self).moves_with(snapshot) || !final(self).in_context()),
            result.retarget == (old(self).expanded && result.notify),
    {
        let previous_source = self.current_capture_source();
        let moved = self.take_meeting(snapshot);
        let hotkey_enabled = self.has_capture_context();
        let restart = self.follow_source(previous_source);
        let mut notify = moved.0;
        let mut retarget = moved.1;
        if !hotkey_enabled {
            let collapsed = self.retarget_disclosure(false);
            retarget = retarget || collapsed;
            self.compact_layout = false;
            notify = true;
        }
        SnapshotEffects { notify, retarget, hotkey_enabled, restart }
    }

    /// Takes over what a snapshot says, and returns whether it is about another window or
    /// toolbar and whether the bar changes its shape.
    fn take_meeting(&mut self, snapshot: MeetingSnapshot) -> (result: (bool, bool))
        ensures
            *final(self) == old(self).with_meeting(snapshot),
            result.0 == old(self).moves_with(snapshot),
            result.1 == (old(self).expanded && old(self).moves_with(snapshot)),
    {
        self.last_monitor_generation = snapshot.generation;
        let previous_id: Option<u32> = match &self.target {
            Some(target) => Some(target.id),
            None => None,
        };
        let next_id: Option<u32> = match &snapshot.target {
            Some(target) => Some(target.id),
            None => None,
        };
        let moved = !same_id(previous_id, next_id) || !same_id(
            self.presenter_toolbar_id,
            snapshot.presenter_toolbar_id,
        );
        self.presenter_toolbar_id = snapshot.presenter_toolbar_id;
        self.shared_content_hint = snapshot.shared_content_hint;
        self.local_share_active = snapshot.local_share_active;
        self.local_monitor_target = snapshot.local_monitor_target;
        let mut retarget = false;
        if moved {
            retarget = self.retarget_disclosure(false);
            self.compact_layout = false;
        }
        self.target = snapshot.target;
        (moved, retarget)
    }

    /// The bar after its source changed from `previous`.
    pub open spec fn following(self, previous: Option<CaptureSource>) -> Snapbar {
        if self.source() is Some && (previous != self.source() || !self.has_engine) {
            self.without_engine()
        } else if self.source() is None {
            Snapbar {
                capture_state: self.resting_state(),
                last_error: None,
                ..self.without_engine()
            }
        } else {
            self
        }
    }

    /// Drops a session that is about another source, and returns the source of the one to
    /// be started.
    fn follow_source(&mut self, previous: Option<CaptureSource>) -> (result: Option<CaptureSource>)
        ensures
            *final(self) == old(self).following(previous),
            result == if old(self).source() is Some && (previous != old(self).source()
                || !old(self).has_engine) {
                old(self).source()
            } else {
                None
            },
    {
        match self.current_capture_source() {
            Some(source) => {
                let same = match previous {
                    Some(previous) => previous == source,
                    None => false,
                };
                if !same || !self.has_engine {
                    self.drop_engine();
                    Some(source)
                } else {
                    None
                }
            },
            None => {
                self.drop_engine();
                self.capture_state = self.resting();
                self.last_error = None;
                None
            },
        }
    }

    /// Takes the outcome of starting a session.
    pub fn engine_started(&mut self, outcome: Result<(), String>)
        ensures
            *final(self) == match outcome {
                Ok(_) => Snapbar {
                    has_engine: true,
                    capture_state: CaptureState::WaitingForShare,
                    last_error: None,
                    ..*old(self)
                },
                Err(error) => Snapbar {
                    capture_state: CaptureState::Error,
                    last_error: Some(BarError::Failed(error)),
                    ..*old(self)
                },
            },
    {
        match outcome {
            Ok(()) => {
                self.has_engine = true;
                self.capture_state = CaptureState::WaitingForShare;
                self.last_error = None;
            },
            Err(error) => {
                self.capture_state = CaptureState::Error;
                self.last_error = Some(BarError::Failed(error));
            },
        }
    }

    /// Drops the session, and returns the source of the one to be started.
    pub fn restart_capture_engine(&mut self) -> (result: Option<CaptureSource>)
        ensures
            result == old(self).source(),
            *final(self) == if result is Some {
                old(self).without_engine()
            } else {
                Snapbar {
                    capture_state: old(self).resting_state(),
                    last_error: None,
                    ..old(self).without_engine()
                }
            },
    {
        self.drop_engine();
        let source = self.current_capture_source();
        if source.is_none() {
            self.capture_state = self.resting();
            self.last_error = None;
        }
        source
    }

    /// The user asks to look for meetings and content anew. A session is started anew
    /// where there is something to capture.
    pub fn request_redetection(&mut self) -> (result: Option<CaptureSource>)
        ensures
            result == old(self).source(),
            *final(self) == if result is Some {
                old(self).without_engine()
            } else {
                *old(self)
            },
    {
        if self.current_capture_source().is_some() {
            self.restart_capture_engine()
        } else {
            None
        }
    }

    /// The bar expands only where its window is visible, expanded and not compact.
    pub open spec fn overlay_expands(overlay: Option<OverlayState>) -> bool {
        match overlay {
            Some(overlay) => overlay.visible && overlay.expanded && !overlay.compact,
            None => false,
        }
    }

    /// Takes over the shape of the window that carries the bar; `None` where there is
    /// none. Returns whether the bar has to be drawn anew, and whether it changes its
    /// shape.
    pub fn sync_overlay_state(&mut self, overlay: Option<OverlayState>, material_changed: bool)
        -> (result: (bool, bool))
        ensures
            ({
                let expanded = Self::overlay_expands(overlay);
                let compact = overlay is Some && overlay->0.compact;
                &&& result.0 == (old(self).compact_layout != compact || old(self).expanded
                    != expanded || (overlay is Some && material_changed))
                &&& result.1 == (old(self).expanded != expanded)
                &&& *final(self) == (Snapbar {
                    compact_layout: compact,
                    ..old(self).disclosed(expanded)
                })
            }),
    {
        let overlay = match overlay {
            Some(overlay) => overlay,
            None => {
                let changed = self.expanded || self.compact_layout;
                let retarget = self.retarget_disclosure(false);
                self.compact_layout = false;
                return (changed, retarget);
            },
        };
        let expanded = overlay.visible && overlay.expanded && !overlay.compact;
        let changed = self.compact_layout != overlay.compact || self.expanded != expanded
            || material_changed;
        self.compact_layout = overlay.compact;
        let retarget = self.retarget_disclosure(expanded);
        (changed, retarget)
    }

    /// The state that the session and the meeting ask for at `now`.
    pub open spec fn settled_state(&self, engine_ready: bool, now: u64) -> CaptureState {
        let state = self.capture_state.at(now);
        if self.has_engine && engine_ready {
            if state == CaptureState::NoTarget || state == CaptureState::WaitingForShare {
                CaptureState::Idle
            } else {
                state
            }
        } else if !self.has_engine && !self.in_context() {
            CaptureState::NoTarget
        } else if state != CaptureState::Capturing {
            CaptureState::WaitingForShare
        } else {
            state
        }
    }

    /// Brings the state up to date, and returns whether it changed.
    pub fn sync_capture_state(&mut self, engine_ready: bool, now: u64) -> (result: bool)
        ensures
            result == (final(self).capture_state != old(self).capture_state),
            ({
                let state = old(self).capture_state.at(now);
                let woken = old(self).has_engine && engine_ready && (state
                    == CaptureState::NoTarget || state == CaptureState::WaitingForShare);
                *final(self) == (Snapbar {
                    capture_state: old(self).settled_state(engine_ready, now),
                    last_error: if woken {
                        None
                    } else {
                        old(self).last_error
                    },
                    ..*old(self)
                })
            }),
    {
        let previous = self.capture_state;
        self.capture_state = self.capture_state.after_feedback_timeout(now);
        if self.has_engine && engine_ready {
            if self.capture_state == CaptureState::NoTarget || self.capture_state
                == CaptureState::WaitingForShare {
                self.capture_state = CaptureState::Idle;
                self.last_error = None;
            }
        } else if !self.has_engine && !self.has_capture_context() {
            self.capture_state = CaptureState::NoTarget;
        } else if self.capture_state != CaptureState::Capturing {
            self.capture_state = CaptureState::WaitingForShare;
        }
        previous != self.capture_state
    }

    /// Whether a snapshot is newer than the one taken last.
    pub fn needs_snapshot(&self, generation: u64) -> (result: bool)
        ensures
            result == (generation != self.last_monitor_generation),
    {
        generation != self.last_monitor_generation
    }

    /// A capture could begin now, provided that the bar is not in the way.
    pub open spec fn may_capture(&self, engine: EngineState) -> bool {
        !self.quitting && self.capture_requests.active is None && self.has_engine && engine.ready
    }

    /// Whether the bar has to be kept out of the captured monitor first.
    pub fn wants_overlay_exclusion(&self, engine: EngineState) -> (result: bool)
        ensures
            result == (self.may_capture(engine) && engine.local_monitor),
    {
        !self.quitting && self.capture_requests.active.is_none() && self.has_engine && engine.ready
            && engine.local_monitor
    }

    /// The bar is in the way of a capture of its own monitor.
    pub open spec fn in_the_way(engine: EngineState, excluded: Option<bool>) -> bool {
        engine.local_monitor && excluded == Some(false)
    }

    /// What comes of a request to capture.
    pub open spec fn capture_start(
        &self,
        engine: EngineState,
        excluded: Option<bool>,
        recordable: bool,
    ) -> CaptureStart {
        if self.quitting || self.capture_requests.active is Some {
            CaptureStart::Ignored
        } else if !self.has_engine {
            CaptureStart::RequestScan
        } else if !engine.ready || Self::in_the_way(engine, excluded) {
            CaptureStart::Refused
        } else {
            CaptureStart::Started {
                generation: next_generation(self.capture_generation),
                save_to_screenshots: self.save_to_screenshots,
                wait_for_composition: engine.local_monitor && recordable,
            }
        }
    }

    /// The bar after a request to capture.
    pub open spec fn after_capture_start(
        self,
        engine: EngineState,
        excluded: Option<bool>,
    ) -> Snapbar {
        if self.quitting {
            self
        } else if self.capture_requests.active is Some {
            Snapbar {
                capture_requests: CaptureRequests { pending: true, ..self.capture_requests },
                ..self
            }
        } else if !self.has_engine {
            Snapbar { capture_state: self.resting_state(), ..self }
        } else if !engine.ready {
            Snapbar {
                capture_state: CaptureState::WaitingForShare,
                last_error: Some(BarError::WaitingForContent),
                ..self
            }
        } else if Self::in_the_way(engine, excluded) {
            Snapbar {
                capture_state: CaptureState::Error,
                last_error: Some(BarError::ExclusionFailed),
                ..self
            }
        } else {
            let generation = next_generation(self.capture_generation);
            Snapbar {
                capture_generation: generation,
                capture_requests: CaptureRequests {
                    active: Some(generation),
                    ..self.capture_requests
                },
                capture_state: CaptureState::Capturing,
                last_error: None,
                ..self
            }
        }
    }

    /// The user asks for a capture. `excluded` says whether the bar could be kept out of
    /// the captured monitor, where that was tried; `recordable`, that the bar may be seen
    /// in recordings and needs time to disappear.
    pub fn start_capture(
        &mut self,
        engine: EngineState,
        excluded: Option<bool>,
        recordable: bool,
    ) -> (result: CaptureStart)
        ensures
            result == old(self).capture_start(engine, excluded, recordable),
            *final(self) == old(self).after_capture_start(engine, excluded),
    {
        if self.quitting || self.capture_requests.queue_if_active() {
            return CaptureStart::Ignored;
        }
        if !self.has_engine {
            self.capture_state = self.resting();
            return CaptureStart::RequestScan;
        }
        if !engine.ready {
            self.capture_state = CaptureState::WaitingForShare;
            self.last_error = Some(BarError::WaitingForContent);
            return CaptureStart::Refused;
        }
        let refused = match excluded {
            Some(excluded) => !excluded,
            None => false,
        };
        if engine.local_monitor && refused {
            self.capture_state = CaptureState::Error;
            self.last_error = Some(BarError::ExclusionFailed);
            return CaptureStart::Refused;
        }
        self.capture_generation = self.capture_generation.wrapping_add(1);
        let generation: u64 = self.capture_generation;
        self.capture_requests.start(generation);
        self.capture_state = CaptureState::Capturing;
        self.last_error = None;
        CaptureStart::Started {
            generation,
            save_to_screenshots: self.save_to_screenshots,
            wait_for_composition: engine.local_monitor && recordable,
        }
    }

    /// The bar after the capture numbered `generation` ended.
    pub open spec fn after_capture(
        self,
        generation: u64,
        replaced: bool,
        outcome: Result<Option<Result<(), String>>, String>,
        now: u64,
    ) -> Snapbar {
        let requests = if self.capture_requests.runs(generation) {
            CaptureRequests { active: None, pending: false }
        } else {
            self.capture_requests
        };
        let ended = Snapbar { capture_requests: requests, ..self };
        if self.capture_generation != generation {
            ended
        } else {
            let engine = Snapbar { has_engine: self.has_engine || replaced, ..ended };
            match outcome {
                Ok(saved) => Snapbar {
                    capture_state: CaptureState::Copied {
                        until: (now + COPY_FEEDBACK_DURATION) as u64,
                    },
                    last_error: match saved {
                        Some(Err(error)) => Some(BarError::SaveFailed(error)),
                        _ => None,
                    },
                    ..engine
                },
                Err(error) => Snapbar {
                    capture_state: CaptureState::Error,
                    last_error: Some(BarError::Failed(error)),
                    ..engine
                },
            }
        }
    }

    /// Takes the end of a capture: whether a new session has replaced the old one, and
    /// whether the capture was copied and, where asked for, saved. Where another capture
    /// was asked for meanwhile, it begins next.
    pub fn capture_finished(
        &mut self,
        generation: u64,
        replaced: bool,
        outcome: Result<Option<Result<(), String>>, String>,
        now: u64,
    ) -> (result: CaptureEnd)
        requires
            now <= CLOCK_LIMIT,
        ensures
            *final(self) == old(self).after_capture(generation, replaced, outcome, now),
            ({
                let again = old(self).capture_requests.runs(generation)
                    && old(self).capture_requests.pending;
                let outdated = old(self).capture_generation != generation;
                &&& result.outdated == outdated
                &&& result.capture_again == (again && (!outdated || !old(self).quitting))
                &&& result.show_flash == (!outdated && outcome is Ok && !again)
            }),
    {
        let again = self.capture_requests.finish(generation);
        if self.capture_generation != generation {
            return CaptureEnd {
                outdated: true,
                show_flash: false,
                capture_again: again && !self.quitting,
            };
        }
        if replaced {
            self.has_engine = true;
        }
        let mut show_flash = false;
        match outcome {
            Ok(saved) => {
                show_flash = !again;
                self.capture_state = CaptureState::Copied { until: now + COPY_FEEDBACK_DURATION };
                self.last_error = match saved {
                    Some(Err(error)) => Some(BarError::SaveFailed(error)),
                    _ => None,
                };
            },
            Err(error) => {
                self.capture_state = CaptureState::Error;
                self.last_error = Some(BarError::Failed(error));
            },
        }
        CaptureEnd { outdated: false, show_flash, capture_again: again }
    }

    /// The bar after the pointer entered or left a control.
    pub open spec fn after_hover(self, control: ExpandedControl, hovered: bool) -> Snapbar {
        let next = self.control_hover.next(control, hovered);
        if self.island_page != IslandPage::Controls || next == self.control_hover.current {
            self
        } else {
            let hover = ControlHover {
                current: next,
                hint: if self.control_hover.hint is None {
                    next
                } else {
                    self.control_hover.hint
                },
            };
            Snapbar {
                control_hover: hover,
                control_hint_timer: hover.unsettled(),
                save_info_pending: next == Some(ExpandedControl::Save),
                ..self
            }
        }
    }

    /// Takes the pointer entering or leaving a control. Only the page with the controls
    /// listens. Any change of the control ends what was waited for on the last one.
    pub fn update_hovered_control(&mut self, control: ExpandedControl, hovered: bool) -> (result:
        HoverEffects)
        ensures
            *final(self) == old(self).after_hover(control, hovered),
            ({
                let changed = old(self).island_page == IslandPage::Controls
                    && old(self).control_hover.next(control, hovered)
                    != old(self).control_hover.current;
                &&& result.notify == changed
                &&& result.start_dwell == (changed && final(self).control_hover.current == Some(
                    ExpandedControl::Save,
                ))
                &&& result.start_hint == if changed {
                    final(self).control_hover.unsettled()
                } else {
                    None
                }
            }),
    {
        if self.island_page != IslandPage::Controls || !self.control_hover.update(
            control,
            hovered,
        ) {
            return HoverEffects { notify: false, start_dwell: false, start_hint: None };
        }
        let on_save = match self.control_hover.current {
            Some(ExpandedControl::Save) => true,
            _ => false,
        };
        self.save_info_pending = on_save;
        let pending = self.control_hover.pending_hint();
        self.control_hint_timer = pending;
        HoverEffects { notify: true, start_dwell: on_save, start_hint: pending }
    }

    /// The pointer has rested on `control`: its explanation is shown if the bar is still
    /// expanded and the pointer still there.
    pub fn settle_control_hint(&mut self, control: ExpandedControl, native_expanded: bool)
        -> (result: bool)
        ensures
            result == (old(self).island_page == IslandPage::Controls && native_expanded
                && !old(self).quitting && old(self).control_hover.unsettled() == Some(control)),
            *final(self) == if result {
                Snapbar {
                    control_hover: ControlHover {
                        hint: Some(control),
                        ..old(self).control_hover
                    },
                    ..*old(self)
                }
            } else {
                *old(self)
            },
    {
        self.island_page == IslandPage::Controls && native_expanded && !self.quitting
            && self.control_hover.settle_hint(control)
    }

    /// The page on saving may open.
    pub open spec fn may_open_save_info(&self, native_expanded: bool) -> bool {
        &&& self.island_page == IslandPage::Controls
        &&& self.control_hover.current == Some(ExpandedControl::Save)
        &&& self.expanded && native_expanded
        &&& !self.compact_layout
        &&& !self.quitting
    }

    /// The pointer has rested on the save control: its page opens if nothing speaks
    /// against it.
    pub fn open_save_info(&mut self, native_expanded: bool) -> (result: bool)
        ensures
            result == old(self).may_open_save_info(native_expanded),
            *final(self) == if result {
                Snapbar {
                    island_page: IslandPage::SaveInfo,
                    control_hint_timer: None,
                    control_hover: ControlHover::nowhere(),
                    save_info_path: None,
                    ..*old(self)
                }
            } else {
                *old(self)
            },
    {
        if !self.island_page.allows_save_info(
            self.control_hover.current,
            self.expanded && native_expanded,
            self.compact_layout,
            self.quitting,
        ) {
            return false;
        }
        self.island_page = IslandPage::SaveInfo;
        self.reset_control_hover();
        self.save_info_path = None;
        true
    }

    /// The folder of saved screenshots is known: it is shown if its page is still open.
    pub fn save_info_loaded(&mut self, path: Result<String, String>) -> (result: bool)
        ensures
            result == (old(self).island_page == IslandPage::SaveInfo),
            *final(self) == if result {
                Snapbar { save_info_path: Some(path), ..*old(self) }
            } else {
                *old(self)
            },
    {
        if self.island_page == IslandPage::SaveInfo {
            self.save_info_path = Some(path);
            true
        } else {
            false
        }
    }

    /// Leaves the page on saving.
    pub fn on_save_info_back(&mut self)
        ensures
            *final(self) == (Snapbar {
                save_info_pending: false,
                save_info_path: None,
                island_page: IslandPage::Controls,
                control_hint_timer: None,
                control_hover: ControlHover::nowhere(),
                ..*old(self)
            }),
    {
        self.save_info_pending = false;
        self.save_info_path = None;
        self.island_page = IslandPage::Controls;
        self.reset_control_hover();
    }

    /// The user switched saving on or off; `stored` says whether the new setting could be
    /// stored, without which it does not count. Returns whether waiting for the page on
    /// saving begins anew.
    pub fn on_save_toggled(&mut self, stored: Result<(), String>) -> (result: bool)
        ensures
            ({
                let on_save = old(self).control_hover.current == Some(ExpandedControl::Save);
                let on_controls = old(self).island_page == IslandPage::Controls;
                &&& result == (on_controls && on_save)
                &&& *final(self) == (Snapbar {
                    save_to_screenshots: if stored is Ok {
                        !old(self).save_to_screenshots
                    } else {
                        old(self).save_to_screenshots
                    },
                    last_error: match stored {
                        Ok(_) => None,
                        Err(error) => Some(BarError::SettingNotStored(error)),
                    },
                    save_info_pending: if on_controls {
                        on_save
                    } else {
                        old(self).save_info_pending
                    },
                    ..*old(self)
                })
            }),
    {
        match stored {
            Ok(()) => {
                self.save_to_screenshots = !self.save_to_screenshots;
                self.last_error = None;
            },
            Err(error) => {
                self.last_error = Some(BarError::SettingNotStored(error));
            },
        }
        if self.island_page != IslandPage::Controls {
            return false;
        }
        let on_save = match self.control_hover.current {
            Some(ExpandedControl::Save) => true,
            _ => false,
        };
        self.save_info_pending = on_save;
        on_save
    }

    /// The bar once it quits.
    pub open spec fn quit(self) -> Snapbar {
        if self.quitting {
            self
        } else {
            Snapbar {
                quitting: true,
                control_hint_timer: None,
                control_hover: ControlHover::nowhere(),
                save_info_pending: false,
                ..self.without_engine()
            }
        }
    }

    /// Quits, and returns whether that begins now: the session is dropped, and every
    /// capture under way is outdated.
    pub fn begin_quit(&mut self) -> (result: bool)
        ensures
            result == !old(self).quitting,
            *final(self) == old(self).quit(),
    {
        if self.quitting {
            return false;
        }
        self.quitting = true;
        self.reset_control_hover();
        self.save_info_pending = false;
        self.drop_engine();
        true
    }

    /// The user asks to quit: the expanded bar asks back. Returns whether it does.
    pub fn on_quit_clicked(&mut self) -> (result: bool)
        ensures
            result == (old(self).expanded && !old(self).compact_layout && !old(self).quitting),
            *final(self) == if result {
                Snapbar {
                    save_info_pending: false,
                    save_info_path: None,
                    island_page: IslandPage::ConfirmQuit,
                    control_hint_timer: None,
                    control_hover: ControlHover::nowhere(),
                    ..*old(self)
                }
            } else {
                *old(self)
            },
    {
        if self.expanded && !self.compact_layout && !self.quitting {
            self.save_info_pending = false;
            self.save_info_path = None;
            self.island_page.handle_quit(QuitAction::Request);
            self.reset_control_hover();
            true
        } else {
            false
        }
    }

    /// The user does not want to quit.
    pub fn on_cancel_quit(&mut self)
        ensures
            *final(self) == (Snapbar {
                island_page: IslandPage::Controls,
                control_hint_timer: None,
                control_hover: ControlHover::nowhere(),
                ..*old(self)
            }),
    {
        self.island_page.handle_quit(QuitAction::Cancel);
        self.reset_control_hover();
    }

    /// The user confirms. Returns whether the program quits.
    pub fn on_confirm_quit(&mut self) -> (result: bool)
        ensures
            result == (old(self).island_page == IslandPage::ConfirmQuit && !old(self).quitting),
            ({
                let confirmed = Snapbar { island_page: IslandPage::Controls, ..*old(self) };
                *final(self) == if old(self).island_page == IslandPage::ConfirmQuit {
                    confirmed.quit()
                } else {
                    confirmed
                }
            }),
    {
        if self.island_page.handle_quit(QuitAction::Confirm) {
            self.begin_quit()
        } else {
            false
        }
    }
}

fn same_id(left: Option<u32>, right: Option<u32>) -> (result: bool)
    ensures
        result == (left == right),
{
    match (left, right) {
        (None, None) => true,
        (Some(left), Some(right)) => left == right,
        _ => false,
    }
}

/// A capture whose source went away counts for nothing: it changes neither what the bar
/// shows nor its session.
pub proof fn law_outdated_capture_changes_nothing(
    bar: Snapbar,
    snapshot: MeetingSnapshot,
    generation: u64,
    replaced: bool,
    outcome: Result<Option<Result<(), String>>, String>,
    now: u64,
)
    requires
        bar.capture_generation == generation,
        bar.with_meeting(snapshot).source() is None,
    ensures
        ({
            let retargeted = bar.after_snapshot(snapshot);
            let after = retargeted.after_capture(generation, replaced, outcome, now);
            &&& after.capture_state == retargeted.capture_state
            &&& after.last_error == retargeted.last_error
            &&& after.has_engine == retargeted.has_engine
            &&& !after.has_engine
        }),
{
}

/// A snapshot with another source drops what was asked for during the running capture, but
/// not the running capture itself.
pub proof fn law_retargeting_keeps_work_serialized(bar: Snapbar, snapshot: MeetingSnapshot)
    requires
        bar.restarts_with(snapshot) || bar.with_meeting(snapshot).source() is None,
    ensures
        !bar.after_snapshot(snapshot).capture_requests.pending,
        bar.after_snapshot(snapshot).capture_requests.active == bar.capture_requests.active,
{
}

/// While a capture runs no other one begins.
pub proof fn law_captures_never_overlap(
    bar: Snapbar,
    engine: EngineState,
    excluded: Option<bool>,
    recordable: bool,
)
    requires
        bar.capture_requests.active is Some,
    ensures
        bar.capture_start(engine, excluded, recordable) == CaptureStart::Ignored,
        bar.after_capture_start(engine, excluded).capture_requests.active
            == bar.capture_requests.active,
        bar.after_capture_start(engine, excluded).capture_generation == bar.capture_generation,
{
}

/// Once the bar quits it has no session, and no capture begins any more.
pub proof fn law_nothing_begins_after_quitting(
    bar: Snapbar,
    engine: EngineState,
    excluded: Option<bool>,
    recordable: bool,
)
    requires
        bar.quitting,
    ensures
        bar.capture_start(engine, excluded, recordable) == CaptureStart::Ignored,
        bar.after_capture_start(engine, excluded) == bar,
{
}

/// A capture begins only where something to capture was ready.
pub proof fn law_capture_needs_a_ready_session(
    bar: Snapbar,
    engine: EngineState,
    excluded: Option<bool>,
    recordable: bool,
)
    requires
        bar.capture_start(engine, excluded, recordable) is Started,
    ensures
        bar.may_capture(engine),
        bar.after_capture_start(engine, excluded).capture_state == CaptureState::Capturing,
{
}

/// Where no monitor is shared from here and nothing is shared in the meeting, or there is no
/// meeting, nothing is captured: no session starts or is kept, no capture counts any more,
/// and the bar waits for a share or for a meeting.
pub proof fn law_nothing_shared_nothing_captured(bar: Snapbar, snapshot: MeetingSnapshot)
    requires
        snapshot.local_monitor_target is None,
        !snapshot.shared_content_hint || snapshot.target is None,
    ensures
        ({
            let after = bar.after_snapshot(snapshot);
            &&& after.source() is None
            &&& !bar.restarts_with(snapshot)
            &&& !after.has_engine
            &&& !after.capture_requests.pending
            &&& after.capture_generation != bar.capture_generation
            &&& after.last_error is None
            &&& snapshot.target is Some || snapshot.presenter_toolbar_id is Some
                || snapshot.local_share_active ==> after.capture_state
                == CaptureState::WaitingForShare
            &&& snapshot.target is None && snapshot.presenter_toolbar_id is None
                && !snapshot.local_share_active ==> after.capture_state == CaptureState::NoTarget
        }),
{
}

/// What is captured: the monitor that is shared from here before anything else, otherwise
/// the window of the meeting in which content is shown.
pub proof fn law_what_is_shared_is_captured(bar: Snapbar, snapshot: MeetingSnapshot)
    ensures
        ({
            let source = bar.with_meeting(snapshot).source();
            &&& snapshot.local_monitor_target is Some ==> source == Some(
                CaptureSource::LocalMonitor(snapshot.local_monitor_target->0),
            )
            &&& snapshot.local_monitor_target is None && snapshot.shared_content_hint
                && snapshot.target is Some ==> source == Some(
                CaptureSource::RemoteTeamsWindow(snapshot.target->0.id),
            )
            &&& bar.after_snapshot(snapshot).source() == source
        }),
{
}

/// A session starts exactly where something is to be captured and none of it runs: for a new
/// source, and for an old one without a session. A running session of the same source goes on
/// untouched, with its captures.
pub proof fn law_sessions_follow_the_source(bar: Snapbar, snapshot: MeetingSnapshot)
    requires
        bar.with_meeting(snapshot).source() is Some,
    ensures
        ({
            let after = bar.after_snapshot(snapshot);
            let same = bar.source() == bar.with_meeting(snapshot).source();
            &&& bar.restarts_with(snapshot) <==> !(same && bar.has_engine)
            &&& same && bar.has_engine ==> {
                &&& after.has_engine
                &&& after.capture_generation == bar.capture_generation
                &&& after.capture_requests == bar.capture_requests
                &&& after.capture_state == bar.capture_state
                &&& after.last_error == bar.last_error
            }
            &&& !(same && bar.has_engine) ==> {
                &&& !after.has_engine
                &&& after.capture_generation != bar.capture_generation
                &&& !after.capture_requests.pending
                &&& after.capture_requests.active == bar.capture_requests.active
            }
        }),
{
}

/// The bar takes over everything that a snapshot says, and the snapshot's number.
pub proof fn law_snapshots_are_taken_over(bar: Snapbar, snapshot: MeetingSnapshot)
    ensures
        ({
            let after = bar.after_snapshot(snapshot);
            &&& after.target == snapshot.target
            &&& after.last_monitor_generation == snapshot.generation
            &&& after.presenter_toolbar_id == snapshot.presenter_toolbar_id
            &&& after.shared_content_hint == snapshot.shared_content_hint
            &&& after.local_share_active == snapshot.local_share_active
            &&& after.local_monitor_target == snapshot.local_monitor_target
            &&& after.save_to_screenshots == bar.save_to_screenshots
            &&& after.quitting == bar.quitting
        }),
{
}

/// A bar that moves to another window or toolbar, or that has nothing to stand by any more,
/// collapses to its controls and forgets the pointer. Otherwise its shape and its page stay.
pub proof fn law_the_bar_collapses_when_it_moves(bar: Snapbar, snapshot: MeetingSnapshot)
    ensures
        ({
            let after = bar.after_snapshot(snapshot);
            let same_window = match (bar.target, snapshot.target) {
                (None, None) => true,
                (Some(before), Some(now)) => before.id == now.id,
                _ => false,
            };
            let stays = same_window && bar.presenter_toolbar_id == snapshot.presenter_toolbar_id;
            let something = snapshot.target is Some || snapshot.presenter_toolbar_id is Some
                || snapshot.local_share_active;
            &&& bar.moves_with(snapshot) == !stays
            &&& after.in_context() == something
            &&& !stays || !something ==> {
                &&& !after.expanded
                &&& !after.compact_layout
                &&& after.island_page == IslandPage::Controls
                &&& !after.save_info_pending
                &&& after.save_info_path is None
                &&& bar.expanded ==> after.control_hover == ControlHover::nowhere()
                    && after.control_hint_timer is None
            }
            &&& stays && something ==> {
                &&& after.expanded == bar.expanded
                &&& after.compact_layout == bar.compact_layout
                &&& after.island_page == bar.island_page
                &&& after.control_hover == bar.control_hover
                &&& after.save_info_pending == bar.save_info_pending
                &&& after.save_info_path == bar.save_info_path
            }
        }),
{
}

/// Expanding changes nothing but the shape. Collapsing goes back to the controls, and
/// forgets the pointer where the bar was expanded. Doing either twice is doing it once.
pub proof fn law_disclosure_is_settled_at_once(bar: Snapbar, expanded: bool)
    ensures
        bar.disclosed(expanded).expanded == expanded,
        bar.disclosed(expanded).disclosed(expanded) == bar.disclosed(expanded),
        expanded ==> bar.disclosed(expanded) == (Snapbar { expanded: true, ..bar }),
        !expanded ==> bar.disclosed(expanded).island_page == IslandPage::Controls
            && !bar.disclosed(expanded).save_info_pending && bar.disclosed(
            expanded,
        ).save_info_path is None,
        !expanded && bar.expanded ==> bar.disclosed(expanded).control_hover
            == ControlHover::nowhere() && bar.disclosed(expanded).control_hint_timer is None,
        bar.disclosed(expanded).capture_state == bar.capture_state,
        bar.disclosed(expanded).has_engine == bar.has_engine,
        bar.disclosed(expanded).capture_generation == bar.capture_generation,
        bar.disclosed(expanded).capture_requests == bar.capture_requests,
        bar.disclosed(expanded).compact_layout == bar.compact_layout,
{
}

/// Only a visible, expanded window that is not compact expands the bar.
pub proof fn law_hidden_windows_do_not_expand(overlay: Option<OverlayState>)
    ensures
        Snapbar::overlay_expands(overlay) ==> overlay is Some && overlay->0.visible
            && overlay->0.expanded && !overlay->0.compact,
        overlay is Some && overlay->0.visible && overlay->0.expanded && !overlay->0.compact
            ==> Snapbar::overlay_expands(overlay),
{
}

/// Dropping a session outdates every capture of it and forgets what was asked for meanwhile,
/// but not which capture runs.
pub proof fn law_dropped_sessions_outdate_captures(bar: Snapbar)
    ensures
        !bar.without_engine().has_engine,
        bar.without_engine().capture_generation != bar.capture_generation,
        bar.capture_generation < u64::MAX ==> bar.without_engine().capture_generation
            == bar.capture_generation + 1,
        !bar.without_engine().capture_requests.pending,
        bar.without_engine().capture_requests.active == bar.capture_requests.active,
        bar.without_engine().source() == bar.source(),
{
}

/// The bar is idle only with a ready session. Without a session it waits for a share where
/// there is a meeting, and for a meeting otherwise. A capture that runs, and a copy or an
/// error that is shown, are kept by a ready session; a copy only for its time. A running capture
/// is shown as long as there is a session or a meeting.
pub proof fn law_the_state_settles(bar: Snapbar, engine_ready: bool, now: u64)
    ensures
        ({
            let state = bar.settled_state(engine_ready, now);
            let ready = bar.has_engine && engine_ready;
            &&& state == CaptureState::Idle ==> ready
            &&& state is Copied ==> ready && state == bar.capture_state && now
                < bar.capture_state->until
            &&& state == CaptureState::Error ==> ready && bar.capture_state == CaptureState::Error
            &&& ready ==> state != CaptureState::NoTarget && state
                != CaptureState::WaitingForShare
            &&& ready && (bar.capture_state == CaptureState::NoTarget || bar.capture_state
                == CaptureState::WaitingForShare || bar.capture_state == CaptureState::Idle)
                ==> state == CaptureState::Idle
            &&& ready && bar.capture_state == CaptureState::Capturing ==> state
                == CaptureState::Capturing
            &&& ready && bar.capture_state == CaptureState::Error ==> state
                == CaptureState::Error
            &&& ready && bar.capture_state is Copied && now < bar.capture_state->until ==> state
                == bar.capture_state
            &&& ready && bar.capture_state is Copied && now >= bar.capture_state->until
                ==> state == CaptureState::Idle
            &&& !bar.has_engine && bar.target is None && bar.presenter_toolbar_id is None
                && !bar.local_share_active ==> state == CaptureState::NoTarget
            &&& !ready && (bar.has_engine || bar.target is Some || bar.presenter_toolbar_id
                is Some || bar.local_share_active) && bar.capture_state
                != CaptureState::Capturing ==> state == CaptureState::WaitingForShare
            &&& bar.capture_state == CaptureState::Capturing && (bar.has_engine || bar.target
                is Some || bar.presenter_toolbar_id is Some || bar.local_share_active) ==> state
                == CaptureState::Capturing
        }),
{
}

/// A request to capture, answered: nothing while the bar quits or a capture runs, though
/// that one is then followed by another; a look for a meeting without a session; a refusal
/// while nothing is ready or the bar is in its own way; and otherwise a capture, with the
/// setting on saving as it is. It waits for the bar to disappear only where the bar could be
/// in the picture.
pub proof fn law_requests_are_answered(
    bar: Snapbar,
    engine: EngineState,
    excluded: Option<bool>,
    recordable: bool,
)
    ensures
        ({
            let answer = bar.capture_start(engine, excluded, recordable);
            let after = bar.after_capture_start(engine, excluded);
            let free = !bar.quitting && bar.capture_requests.active is None;
            let blocked = engine.local_monitor && excluded == Some(false);
            &&& !free ==> answer is Ignored
            &&& bar.quitting ==> after == bar
            &&& !bar.quitting && bar.capture_requests.active is Some ==> after.capture_requests
                == (CaptureRequests { active: bar.capture_requests.active, pending: true })
                && after.capture_state == bar.capture_state
            &&& free && !bar.has_engine ==> answer is RequestScan && after.capture_generation
                == bar.capture_generation && after.capture_requests == bar.capture_requests
            &&& free && !bar.has_engine && bar.target is None && bar.presenter_toolbar_id is None
                && !bar.local_share_active ==> after.capture_state == CaptureState::NoTarget
            &&& free && !bar.has_engine && (bar.target is Some || bar.presenter_toolbar_id is Some
                || bar.local_share_active) ==> after.capture_state
                == CaptureState::WaitingForShare
            &&& free && bar.has_engine && !engine.ready ==> answer is Refused
                && after.capture_state == CaptureState::WaitingForShare && after.last_error
                == Some(BarError::WaitingForContent) && after.capture_requests
                == bar.capture_requests
            &&& free && bar.has_engine && engine.ready && blocked ==> answer is Refused
                && after.capture_state == CaptureState::Error && after.last_error == Some(
                BarError::ExclusionFailed,
            ) && after.capture_requests == bar.capture_requests
            &&& free && bar.has_engine && engine.ready && !blocked ==> {
                &&& answer is Started
                &&& answer->generation != bar.capture_generation
                &&& bar.capture_generation < u64::MAX ==> answer->generation
                    == bar.capture_generation + 1
                &&& answer->save_to_screenshots == bar.save_to_screenshots
                &&& answer->wait_for_composition == (engine.local_monitor && recordable)
                &&& after.capture_generation == answer->generation
                &&& after.capture_requests.active == Some(answer->generation)
                &&& after.capture_requests.pending == bar.capture_requests.pending
                &&& after.capture_state == CaptureState::Capturing
                &&& after.last_error is None
                &&& after.has_engine
            }
        }),
{
}

/// A capture that was started and ends well shows as copied for two seconds and leaves the
/// bar free for the next one; a failed save is named, and so is a failed capture. A session
/// that took the place of the old one is kept.
pub proof fn law_started_captures_come_to_an_end(
    bar: Snapbar,
    engine: EngineState,
    excluded: Option<bool>,
    recordable: bool,
    replaced: bool,
    outcome: Result<Option<Result<(), String>>, String>,
    now: u64,
)
    requires
        bar.capture_start(engine, excluded, recordable) is Started,
        now <= CLOCK_LIMIT,
    ensures
        ({
            let started = bar.capture_start(engine, excluded, recordable);
            let running = bar.after_capture_start(engine, excluded);
            let after = running.after_capture(started->generation, replaced, outcome, now);
            &&& after.capture_requests.active is None
            &&& !after.capture_requests.pending
            &&& after.has_engine
            &&& outcome is Ok ==> after.capture_state == (CaptureState::Copied {
                until: (now + 2_000_000_000) as u64,
            })
            &&& outcome is Ok && !(outcome->Ok_0 is Some && outcome->Ok_0->0 is Err)
                ==> after.last_error is None
            &&& outcome is Ok && outcome->Ok_0 is Some && outcome->Ok_0->0 is Err
                ==> after.last_error == Some(BarError::SaveFailed(outcome->Ok_0->0->Err_0))
            &&& outcome is Err ==> after.capture_state == CaptureState::Error
                && after.last_error == Some(BarError::Failed(outcome->Err_0))
        }),
{
}

/// The end of a capture that is not the newest one frees the bar if it was the running one,
/// and changes nothing else; a capture that does not run frees nothing.
pub proof fn law_old_captures_only_free_the_bar(
    bar: Snapbar,
    generation: u64,
    replaced: bool,
    outcome: Result<Option<Result<(), String>>, String>,
    now: u64,
)
    ensures
        ({
            let after = bar.after_capture(generation, replaced, outcome, now);
            &&& bar.capture_requests.active != Some(generation) ==> after.capture_requests
                == bar.capture_requests
            &&& bar.capture_requests.active == Some(generation) ==> after.capture_requests
                == (CaptureRequests { active: None, pending: false })
            &&& bar.capture_generation != generation ==> after.capture_state
                == bar.capture_state && after.last_error == bar.last_error && after.has_engine
                == bar.has_engine
            &&& bar.capture_generation == generation ==> after.has_engine == (bar.has_engine
                || replaced)
            &&& after.capture_generation == bar.capture_generation
            &&& after.source() == bar.source()
            &&& after.expanded == bar.expanded
        }),
{
}

/// A capture may begin only on a bar that neither quits nor captures, with a ready session;
/// the bar is in the way only of its own monitor, and only where it could not be taken out.
pub proof fn law_captures_need_room(bar: Snapbar, engine: EngineState, excluded: Option<bool>)
    ensures
        bar.may_capture(engine) ==> !bar.quitting && bar.capture_requests.active is None
            && bar.has_engine && engine.ready,
        !bar.quitting && bar.capture_requests.active is None && bar.has_engine && engine.ready
            ==> bar.may_capture(engine),
        Snapbar::in_the_way(engine, excluded) ==> engine.local_monitor && excluded == Some(false),
        engine.local_monitor && excluded == Some(false) ==> Snapbar::in_the_way(engine, excluded),
{
}

/// Only the page with the controls follows the pointer. Where the control under it changes,
/// the page on saving is waited for on the save control alone, and the first explanation is
/// shown at once.
pub proof fn law_the_controls_follow_the_pointer(
    bar: Snapbar,
    control: ExpandedControl,
    hovered: bool,
)
    ensures
        ({
            let after = bar.after_hover(control, hovered);
            &&& bar.island_page != IslandPage::Controls ==> after == bar
            &&& bar.island_page == IslandPage::Controls && hovered ==> {
                &&& after.control_hover.current == Some(control)
                &&& bar.control_hover.hint is None && bar.control_hover.current != Some(control)
                    ==> after.control_hover.hint == Some(control)
                &&& bar.control_hover.hint is Some ==> after.control_hover.hint
                    == bar.control_hover.hint
                &&& bar.control_hover.current != Some(control) ==> after.save_info_pending == (
                control == ExpandedControl::Save)
            }
            &&& bar.island_page == IslandPage::Controls && !hovered
                && bar.control_hover.current == Some(control) ==> after.control_hover.current
                is None && !after.save_info_pending
            &&& !hovered && bar.control_hover.current != Some(control) ==> after == bar
        }),
{
}

/// The page on saving opens only from the controls of an expanded bar whose save control is
/// under the pointer, and never on a compact bar or one that quits.
pub proof fn law_the_save_page_needs_the_pointer(bar: Snapbar, native_expanded: bool)
    ensures
        bar.may_open_save_info(native_expanded) ==> bar.island_page == IslandPage::Controls
            && bar.control_hover.current == Some(ExpandedControl::Save) && bar.expanded
            && native_expanded && !bar.compact_layout && !bar.quitting,
        bar.island_page == IslandPage::Controls && bar.control_hover.current == Some(
            ExpandedControl::Save,
        ) && bar.expanded && native_expanded && !bar.compact_layout && !bar.quitting
            ==> bar.may_open_save_info(native_expanded),
{
}

/// Quitting drops the session and outdates its captures, and quitting twice is quitting
/// once.
pub proof fn law_quitting_drops_the_session(bar: Snapbar)
    ensures
        bar.quit().quitting,
        bar.quit().quit() == bar.quit(),
        !bar.quitting ==> !bar.quit().has_engine && bar.quit().capture_generation
            != bar.capture_generation && !bar.quit().capture_requests.pending
            && bar.quit().control_hover == ControlHover::nowhere()
            && bar.quit().control_hint_timer is None && !bar.quit().save_info_pending,
        bar.quitting ==> bar.quit() == bar,
{
}

/// Numbers of captures never stand still, and each has one predecessor.
pub proof fn law_generations_move_on(first: u64, second: u64)
    ensures
        next_generation(first) != first,
        first < u64::MAX ==> next_generation(first) == first + 1,
        next_generation(first) == next_generation(second) ==> first == second,
{
}

} // verus!
