//! A capture session: its flags, its newest frame, and what each arriving frame
//! changes.

use vstd::prelude::*;

use crate::error::CaptureError;
use crate::geometry::{FrameSize, PixelRect, ScreenRect};
use crate::layout::RemoteLayout;
use crate::numeric::{elapsed, elapsed_since};
use crate::source::{CaptureSource, LocalMonitorCaptureTarget};
use crate::text::same_text;

verus! {

/// Age at which the frame kept in advance is replaced, in nanoseconds.
pub const BACKUP_CACHE_INTERVAL: u64 = 750_000_000;

/// Pause between two attempts to find the content, in nanoseconds.
pub const DETECTION_RETRY_INTERVAL: u64 = 750_000_000;

/// Bytes of one pixel.
pub const PIXEL_BYTES: usize = 4;

/// What may be read or changed without waiting for the frame buffer.
#[derive(Clone, Copy, Debug, PartialEq, Eq, Structural)]
pub struct SessionFlags {
    pub stopped: bool,
    /// A request is confirming the layout; frames are not cached in advance.
    pub preflight_in_progress: bool,
    /// A request waits for a frame.
    pub capture_requested: bool,
    /// Number of frames that have arrived.
    pub observed_sequence: u64,
    pub has_cached_frame: bool,
}

/// The pixels of the shared content, cut from one frame.
#[derive(Debug)]
pub struct CachedFrame {
    pub width: u32,
    pub height: u32,
    pub bytes: Vec<u8>,
    pub captured_at: u64,
    pub content_rect: PixelRect,
    pub fallback_screen_rect: ScreenRect,
    pub source_width: u32,
    pub source_height: u32,
    pub sequence: u64,
    pub remote_layout: Option<RemoteLayout>,
    /// When the frame was rendered, in units of 100 ns.
    pub rendered_at_100ns: i64,
}

/// What belongs to the newest frame.
#[derive(Debug)]
pub struct RuntimeState {
    pub latest: Option<CachedFrame>,
    pub last_observed_at: Option<u64>,
    pub last_frame_interval: Option<u64>,
    pub source_size: Option<FrameSize>,
    pub confirmed_layout: Option<RemoteLayout>,
    pub content_rect: Option<PixelRect>,
    pub last_error: Option<String>,
    pub last_error_sequence: u64,
    pub requested_after_sequence: u64,
}

impl CachedFrame {
    /// The buffer has the size that the dimensions ask for, and the content lies
    /// inside the frame that it was cut from.
    pub open spec fn well_formed(&self) -> bool {
        &&& self.bytes@.len() == self.width * self.height * 4
        &&& self.width == self.content_rect.width
        &&& self.height == self.content_rect.height
        &&& self.content_rect.fits(self.source_width, self.source_height)
    }
}

impl SessionFlags {
    pub fn new() -> (result: Self)
        ensures
            result == (SessionFlags {
                stopped: false,
                preflight_in_progress: false,
                capture_requested: false,
                observed_sequence: 0,
                has_cached_frame: false,
            }),
    {
        SessionFlags {
            stopped: false,
            preflight_in_progress: false,
            capture_requested: false,
            observed_sequence: 0,
            has_cached_frame: false,
        }
    }

    /// Ends the session: no frame is ready any more and no request waits.
    pub fn stop(&mut self)
        ensures
            *final(self) == (SessionFlags {
                stopped: true,
                has_cached_frame: false,
                capture_requested: false,
                ..*old(self)
            }),
    {
        self.stopped = true;
        self.has_cached_frame = false;
        self.capture_requested = false;
    }

    /// Frames are not cached in advance while a request confirms the layout.
    pub fn backup_paused(&self, requested: bool) -> (result: bool)
        ensures
            result == (!requested && self.preflight_in_progress),
    {
        !requested && self.preflight_in_progress
    }

    /// The session is over: it was stopped, or its frame source ended. `source_ended`
    /// is `None` where that could not be found out.
    pub open spec fn over(&self, source_ended: Option<bool>) -> bool {
        self.stopped || source_ended != Some(false)
    }

    pub fn is_finished(&self, source_ended: Option<bool>) -> (result: bool)
        ensures
            result == self.over(source_ended),
    {
        self.stopped || match source_ended {
            Some(ended) => ended,
            None => true,
        }
    }

    /// A frame is ready to be copied.
    pub fn is_ready(&self, source_ended: Option<bool>) -> (result: bool)
        ensures
            result == (self.has_cached_frame && !self.over(source_ended)),
    {
        self.has_cached_frame && !self.is_finished(source_ended)
    }
}

impl Default for RuntimeState {
    fn default() -> (result: Self)
        ensures
            result.latest is None,
            result.last_observed_at is None,
            result.last_frame_interval is None,
            result.source_size is None,
            result.confirmed_layout is None,
            result.content_rect is None,
            result.last_error is None,
            result.last_error_sequence == 0,
            result.requested_after_sequence == 0,
    {
        RuntimeState::new(None)
    }
}

impl RuntimeState {
    pub fn new(confirmed_layout: Option<RemoteLayout>) -> (result: Self)
        ensures
            result == (RuntimeState {
                latest: None,
                last_observed_at: None,
                last_frame_interval: None,
                source_size: None,
                confirmed_layout,
                content_rect: None,
                last_error: None,
                last_error_sequence: 0,
                requested_after_sequence: 0,
            }),
            forall|flags: SessionFlags| !flags.has_cached_frame ==> result.consistent(flags),
    {
        RuntimeState {
            latest: None,
            last_observed_at: None,
            last_frame_interval: None,
            source_size: None,
            confirmed_layout,
            content_rect: None,
            last_error: None,
            last_error_sequence: 0,
            requested_after_sequence: 0,
        }
    }

    /// What every operation keeps: a frame that is announced is there; the frame that
    /// is there is whole, and no error, content or layout stands beside it but its
    /// own.
    pub open spec fn consistent(&self, flags: SessionFlags) -> bool {
        &&& flags.has_cached_frame ==> self.latest is Some
        &&& self.latest is None ==> self.content_rect is None
        &&& self.latest is Some ==> {
            let frame = self.latest->0;
            &&& frame.well_formed()
            &&& self.content_rect == Some(frame.content_rect)
            &&& self.confirmed_layout == frame.remote_layout
            &&& self.last_error is None
            &&& self.last_error_sequence == 0
        }
    }

    /// The size of the frames, where one was seen.
    pub open spec fn frame_size(&self) -> Option<FrameSize> {
        match self.source_size {
            Some(size) => Some(size),
            None => match self.latest {
                Some(frame) => Some(
                    FrameSize { width: frame.source_width, height: frame.source_height },
                ),
                None => None,
            },
        }
    }

    /// The frame size to confirm a layout for. It outlives the cached pixels and
    /// authorizes none of them.
    pub fn source_dimensions(&self) -> (result: Option<FrameSize>)
        ensures
            result == self.frame_size(),
    {
        match self.source_size {
            Some(size) => Some(size),
            None => match &self.latest {
                Some(frame) => Some(
                    FrameSize { width: frame.source_width, height: frame.source_height },
                ),
                None => None,
            },
        }
    }

    /// The state after a frame of `size` arrived at `now`.
    pub open spec fn with_observation(&self, size: FrameSize, now: u64) -> RuntimeState {
        RuntimeState {
            source_size: Some(size),
            last_frame_interval: match self.last_observed_at {
                Some(last) => Some(elapsed(now, last)),
                None => None,
            },
            last_observed_at: Some(now),
            ..*self
        }
    }
}

/// The frame number after one more frame.
pub open spec fn next_sequence(sequence: u64) -> u64 {
    if sequence == u64::MAX {
        0
    } else {
        (sequence + 1) as u64
    }
}

/// Notes that a frame arrived, and returns its number.
pub fn observe_frame(
    flags: &mut SessionFlags,
    state: &mut RuntimeState,
    size: FrameSize,
    now: u64,
) -> (result: u64)
    ensures
        result == next_sequence(old(flags).observed_sequence),
        *final(flags) == (SessionFlags { observed_sequence: result, ..*old(flags) }),
        *final(state) == old(state).with_observation(size, now),
        old(state).consistent(*old(flags)) ==> final(state).consistent(*final(flags)),
{
    state.source_size = Some(size);
    state.last_frame_interval = match state.last_observed_at {
        Some(last) => Some(elapsed_since(now, last)),
        None => None,
    };
    state.last_observed_at = Some(now);
    flags.observed_sequence = flags.observed_sequence.wrapping_add(1);
    flags.observed_sequence
}

/// What the frame handler remembers between frames.
#[derive(Clone, Copy, Debug, PartialEq, Eq, Structural)]
pub struct FrameHandler {
    pub last_cache_update: Option<u64>,
    pub last_detection: Option<u64>,
    pub last_source_size: Option<FrameSize>,
}

/// What is done with a frame that arrived. The number is the frame's own.
#[derive(Clone, Copy, Debug, PartialEq, Eq, Structural)]
pub enum FrameStep {
    Ignore,
    /// Confirm the shared monitor and cache the whole frame.
    CacheMonitor(LocalMonitorCaptureTarget, u64),
    /// Confirm the layout of the window and cache the content.
    CacheContent(u32, u64),
}

/// At least `interval` has gone by since `last`, or there was none.
pub open spec fn is_due(last: Option<u64>, now: u64, interval: u64) -> bool {
    match last {
        Some(last) => elapsed(now, last) >= interval,
        None => true,
    }
}

fn due(last: Option<u64>, now: u64, interval: u64) -> (result: bool)
    ensures
        result == is_due(last, now, interval),
{
    match last {
        Some(last) => elapsed_since(now, last) >= interval,
        None => true,
    }
}

impl FrameHandler {
    pub fn new() -> (result: Self)
        ensures
            result == (FrameHandler {
                last_cache_update: None,
                last_detection: None,
                last_source_size: None,
            }),
    {
        FrameHandler { last_cache_update: None, last_detection: None, last_source_size: None }
    }

    /// A frame of a shared monitor is worth caching.
    pub open spec fn wants_monitor_frame(
        &self,
        requested: bool,
        has_latest: bool,
        now: u64,
    ) -> bool {
        requested || !has_latest || is_due(self.last_cache_update, now, BACKUP_CACHE_INTERVAL)
    }

    /// A frame of a window is worth caching, and the content may be looked up for it.
    pub open spec fn wants_content(
        &self,
        requested: bool,
        has_latest: bool,
        size: FrameSize,
        now: u64,
    ) -> bool {
        let size_changed = self.last_source_size != Some(size);
        &&& requested || size_changed || is_due(self.last_cache_update, now, BACKUP_CACHE_INTERVAL)
        &&& requested || size_changed || has_latest || is_due(
            self.last_detection,
            now,
            DETECTION_RETRY_INTERVAL,
        )
    }

    /// The handler takes no frame at all, or none in advance.
    pub open spec fn skips(flags: SessionFlags) -> bool {
        flags.stopped || (!flags.capture_requested && flags.preflight_in_progress)
    }

    /// Decides what is done with a frame. A stopped session ignores it altogether;
    /// otherwise its arrival is always noted.
    pub fn on_frame_arrived(
        &mut self,
        source: &CaptureSource,
        flags: &mut SessionFlags,
        state: &mut RuntimeState,
        size: FrameSize,
        now: u64,
    ) -> (result: FrameStep)
        ensures
            old(state).consistent(*old(flags)) ==> final(state).consistent(*final(flags)),
            old(flags).stopped ==> *final(flags) == *old(flags) && *final(state) == *old(state),
            !old(flags).stopped ==> {
                &&& *final(flags) == (SessionFlags {
                    observed_sequence: next_sequence(old(flags).observed_sequence),
                    ..*old(flags)
                })
                &&& *final(state) == old(state).with_observation(size, now)
            },
            Self::skips(*old(flags)) ==> result == FrameStep::Ignore && *final(self) == *old(self),
            !Self::skips(*old(flags)) ==> {
                let requested = old(flags).capture_requested;
                let has_latest = old(state).latest is Some;
                let sequence = next_sequence(old(flags).observed_sequence);
                match *source {
                    CaptureSource::LocalMonitor(target) => {
                        &&& *final(self) == *old(self)
                        &&& result == if old(self).wants_monitor_frame(requested, has_latest, now) {
                            FrameStep::CacheMonitor(target, sequence)
                        } else {
                            FrameStep::Ignore
                        }
                    },
                    CaptureSource::RemoteTeamsWindow(id) => {
                        let wanted = old(self).wants_content(requested, has_latest, size, now);
                        &&& *final(self) == (FrameHandler {
                            last_cache_update: old(self).last_cache_update,
                            last_detection: if wanted {
                                Some(now)
                            } else {
                                old(self).last_detection
                            },
                            last_source_size: Some(size),
                        })
                        &&& result == if wanted {
                            FrameStep::CacheContent(id, sequence)
                        } else {
                            FrameStep::Ignore
                        }
                    },
                }
            },
    {
        if flags.stopped {
            return FrameStep::Ignore;
        }
        let sequence: u64 = observe_frame(flags, state, size, now);
        let requested = flags.capture_requested;
        if flags.backup_paused(requested) {
            return FrameStep::Ignore;
        }
        let has_latest = state.latest.is_some();
        match source {
            CaptureSource::LocalMonitor(target) => {
                let needs_cache = requested || !has_latest || due(
                    self.last_cache_update,
                    now,
                    BACKUP_CACHE_INTERVAL,
                );
                if needs_cache {
                    FrameStep::CacheMonitor(*target, sequence)
                } else {
                    FrameStep::Ignore
                }
            },
            CaptureSource::RemoteTeamsWindow(target_id) => {
                let size_changed = match self.last_source_size {
                    Some(last) => last != size,
                    None => true,
                };
                self.last_source_size = Some(size);
                let needs_cache = requested || size_changed || due(
                    self.last_cache_update,
                    now,
                    BACKUP_CACHE_INTERVAL,
                );
                let detection_due = requested || size_changed || has_latest || due(
                    self.last_detection,
                    now,
                    DETECTION_RETRY_INTERVAL,
                );
                if !needs_cache || !detection_due {
                    return FrameStep::Ignore;
                }
                self.last_detection = Some(now);
                FrameStep::CacheContent(*target_id, sequence)
            },
        }
    }

    /// Notes how caching a frame went. A failure drops the cached frame: nothing that
    /// could not be confirmed stays ready. Returns whether the failure is news.
    pub fn frame_done(
        &mut self,
        source: &CaptureSource,
        flags: &mut SessionFlags,
        state: &mut RuntimeState,
        outcome: Result<(), CaptureError>,
        size: FrameSize,
        sequence: u64,
        now: u64,
    ) -> (result: bool)
        ensures
            old(state).consistent(*old(flags)) ==> final(state).consistent(*final(flags)),
            match outcome {
                Ok(()) => {
                    &&& !result
                    &&& *final(flags) == *old(flags)
                    &&& *final(state) == *old(state)
                    &&& *final(self) == (FrameHandler {
                        last_cache_update: Some(now),
                        last_detection: old(self).last_detection,
                        last_source_size: if source.window() is None {
                            Some(size)
                        } else {
                            old(self).last_source_size
                        },
                    })
                },
                Err(error) => {
                    &&& result == (old(state).latest is Some || old(state).last_error is None
                        || old(state).last_error->0@ != error.text())
                    &&& *final(self) == *old(self)
                    &&& *final(flags) == (SessionFlags { has_cached_frame: false, ..*old(flags) })
                    &&& final(state).dropped_frame(old(state))
                    &&& final(state).last_error is Some
                    &&& final(state).last_error->0@ == error.text()
                    &&& final(state).last_error_sequence == sequence
                },
            },
    {
        match outcome {
            Ok(()) => {
                if source.is_local_monitor() {
                    self.last_source_size = Some(size);
                }
                self.last_cache_update = Some(now);
                false
            },
            Err(error) => {
                let message = error.message();
                let news = state.latest.is_some() || match &state.last_error {
                    Some(last) => !same_text(last.as_str(), message.as_str()),
                    None => true,
                };
                state.latest = None;
                state.content_rect = None;
                flags.has_cached_frame = false;
                state.last_error = Some(message);
                state.last_error_sequence = sequence;
                news
            },
        }
    }
}

impl RuntimeState {
    /// The cached frame is gone; nothing else changed but the error.
    pub open spec fn dropped_frame(&self, before: &RuntimeState) -> bool {
        &&& self.latest is None
        &&& self.content_rect is None
        &&& self.last_observed_at == before.last_observed_at
        &&& self.last_frame_interval == before.last_frame_interval
        &&& self.source_size == before.source_size
        &&& self.confirmed_layout == before.confirmed_layout
        &&& self.requested_after_sequence == before.requested_after_sequence
    }
}

/// The captured window was closed: its frame is dropped, and whoever waits for a
/// later frame is told.
pub fn on_closed(flags: &mut SessionFlags, state: &mut RuntimeState)
    ensures
        *final(flags) == (SessionFlags { has_cached_frame: false, ..*old(flags) }),
        final(state).dropped_frame(old(state)),
        final(state).last_error is Some,
        final(state).last_error->0@ == "選択中のTeamsウィンドウが閉じられました"@,
        final(state).last_error_sequence == next_sequence(old(flags).observed_sequence),
        final(state).consistent(*final(flags)),
{
    state.latest = None;
    state.content_rect = None;
    state.last_error = Some("選択中のTeamsウィンドウが閉じられました".to_owned());
    state.last_error_sequence = flags.observed_sequence.wrapping_add(1);
    flags.has_cached_frame = false;
}

/// What is cut from a frame of a shared monitor: all of it, provided that the frame
/// has the monitor's size and the monitor is still the one shared. `confirmed` says
/// what looking for the shared monitor gave.
pub fn monitor_crop(
    target: LocalMonitorCaptureTarget,
    size: FrameSize,
    confirmed: Result<bool, CaptureError>,
) -> (result: Result<PixelRect, CaptureError>)
    ensures
        result == if size.width != target.screen_rect.width || size.height
            != target.screen_rect.height {
            Err::<PixelRect, CaptureError>(CaptureError::MonitorSizeChanged)
        } else {
            match confirmed {
                Ok(true) => Ok::<PixelRect, CaptureError>(
                    PixelRect { x: 0, y: 0, width: size.width, height: size.height },
                ),
                Ok(false) => Err::<PixelRect, CaptureError>(CaptureError::MonitorUnconfirmed),
                Err(error) => Err::<PixelRect, CaptureError>(error),
            }
        },
{
    if size.width != target.screen_rect.width || size.height != target.screen_rect.height {
        return Err(CaptureError::MonitorSizeChanged);
    }
    match confirmed {
        Ok(true) => Ok(PixelRect::new(0, 0, size.width, size.height)),
        Ok(false) => Err(CaptureError::MonitorUnconfirmed),
        Err(error) => Err(error),
    }
}

/// Where the content of a confirmed layout stands on the screen.
pub fn content_screen_rect(layout: RemoteLayout) -> (result: Result<ScreenRect, CaptureError>)
    ensures
        result == match layout.geometry.screen_area(layout.content_rect) {
            Some(rect) => Ok::<ScreenRect, CaptureError>(rect),
            None => Err::<ScreenRect, CaptureError>(CaptureError::ScreenCoordinates),
        },
{
    match layout.geometry.map_pixel_rect_to_screen(layout.content_rect) {
        Some(rect) => Ok(rect),
        None => Err(CaptureError::ScreenCoordinates),
    }
}

/// The content has to lie inside the frame before it is cut out.
pub fn require_content_inside(content_rect: PixelRect, size: FrameSize) -> (result: Result<
    (),
    CaptureError,
>)
    ensures
        result == if content_rect.fits(size.width, size.height) {
            Ok::<(), CaptureError>(())
        } else {
            Err::<(), CaptureError>(CaptureError::LayoutChanged)
        },
{
    if content_rect.right() > size.width || content_rect.bottom() > size.height {
        return Err(CaptureError::LayoutChanged);
    }
    Ok(())
}

/// A crop to be cached: where it was cut from, when, and under which layout.
#[derive(Clone, Copy, Debug)]
pub struct Crop {
    pub size: FrameSize,
    pub content_rect: PixelRect,
    pub captured_at: u64,
    pub fallback_screen_rect: ScreenRect,
    pub sequence: u64,
    pub remote_layout: Option<RemoteLayout>,
    pub rendered_at_100ns: i64,
}

/// The first `rows` rows of a padded buffer, one behind the other without padding.
pub open spec fn packed_rows(raw: Seq<u8>, row_pitch: nat, row_bytes: nat, rows: nat) -> Seq<u8>
    decreases rows,
{
    if rows == 0 {
        Seq::empty()
    } else {
        let start = (rows - 1) * row_pitch;
        packed_rows(raw, row_pitch, row_bytes, (rows - 1) as nat) + raw.subrange(
            start,
            start + row_bytes,
        )
    }
}

/// Number of bytes that a padded buffer has to hold for `rows` rows.
pub open spec fn padded_length(row_pitch: nat, row_bytes: nat, rows: nat) -> nat {
    (row_pitch * (if rows == 0 {
        0nat
    } else {
        (rows - 1) as nat
    }) + row_bytes) as nat
}

proof fn lemma_row_inside(row_pitch: nat, row_bytes: nat, rows: nat, row: nat, length: nat)
    requires
        row < rows,
        padded_length(row_pitch, row_bytes, rows) <= length,
    ensures
        row * row_pitch + row_bytes <= length,
{
    assert(row * row_pitch <= row_pitch * ((rows - 1) as nat)) by (nonlinear_arith)
        requires
            row <= rows - 1,
            rows >= 1,
    ;
}

proof fn lemma_packed_length(raw: Seq<u8>, row_pitch: nat, row_bytes: nat, rows: nat, total: nat)
    requires
        rows <= total,
        padded_length(row_pitch, row_bytes, total) <= raw.len(),
    ensures
        packed_rows(raw, row_pitch, row_bytes, rows).len() == rows * row_bytes,
    decreases rows,
{
    if rows > 0 {
        let previous = (rows - 1) as nat;
        lemma_packed_length(raw, row_pitch, row_bytes, previous, total);
        lemma_row_inside(row_pitch, row_bytes, total, previous, raw.len());
        assert(rows * row_bytes == previous * row_bytes + row_bytes) by (nonlinear_arith)
            requires
                rows == previous + 1,
        ;
    } else {
        assert(rows * row_bytes == 0) by (nonlinear_arith)
            requires
                rows == 0,
        ;
    }
}

/// Every byte of the packed buffer is the byte at its place in its row of the padded
/// buffer.
pub proof fn law_packed_byte(
    raw: Seq<u8>,
    row_pitch: nat,
    row_bytes: nat,
    rows: nat,
    row: nat,
    column: nat,
)
    requires
        padded_length(row_pitch, row_bytes, rows) <= raw.len(),
        row < rows,
        column < row_bytes,
    ensures
        packed_rows(raw, row_pitch, row_bytes, rows).len() == rows * row_bytes,
        row * row_bytes + column < rows * row_bytes,
        row * row_pitch + column < raw.len(),
        packed_rows(raw, row_pitch, row_bytes, rows)[row * row_bytes + column as int]
            == raw[row * row_pitch + column as int],
    decreases rows,
{
    lemma_packed_length(raw, row_pitch, row_bytes, rows, rows);
    lemma_row_inside(row_pitch, row_bytes, rows, row, raw.len());
    let previous = (rows - 1) as nat;
    lemma_packed_length(raw, row_pitch, row_bytes, previous, rows);
    assert(row * row_bytes + row_bytes <= rows * row_bytes) by (nonlinear_arith)
        requires
            row + 1 <= rows,
    ;
    let start = previous * row_pitch;
    lemma_row_inside(row_pitch, row_bytes, rows, previous, raw.len());
    if row == previous {
        assert(packed_rows(raw, row_pitch, row_bytes, rows)[row * row_bytes + column as int]
            == raw.subrange(start as int, (start + row_bytes) as int)[column as int]);
    } else {
        assert(row * row_bytes + row_bytes <= previous * row_bytes) by (nonlinear_arith)
            requires
                row + 1 <= previous,
        ;
        assert(padded_length(row_pitch, row_bytes, previous) <= raw.len()) by {
            lemma_row_inside(
                row_pitch,
                row_bytes,
                rows,
                (previous - 1) as nat,
                raw.len(),
            );
            assert(((previous - 1) as nat) * row_pitch == row_pitch * ((previous - 1) as nat))
                by (nonlinear_arith);
        }
        law_packed_byte(raw, row_pitch, row_bytes, previous, row, column);
    }
}

/// Packs the rows of a padded buffer.
fn pack_rows(raw: &[u8], row_pitch: usize, row_bytes: usize, rows: usize) -> (result: Vec<u8>)
    requires
        padded_length(row_pitch as nat, row_bytes as nat, rows as nat) <= raw@.len(),
        row_bytes * rows <= usize::MAX,
    ensures
        result@ == packed_rows(raw@, row_pitch as nat, row_bytes as nat, rows as nat),
{
    let mut bytes: Vec<u8> = Vec::with_capacity(row_bytes * rows);
    let length: usize = raw.len();
    let mut row: usize = 0;
    while row < rows
        invariant
            row <= rows,
            length == raw@.len(),
            padded_length(row_pitch as nat, row_bytes as nat, rows as nat) <= raw@.len(),
            bytes@ == packed_rows(raw@, row_pitch as nat, row_bytes as nat, row as nat),
        decreases rows - row,
    {
        proof {
            lemma_row_inside(
                row_pitch as nat,
                row_bytes as nat,
                rows as nat,
                row as nat,
                raw@.len(),
            );
            assert(row * row_pitch >= 0) by (nonlinear_arith);
        }
        let start: usize = row * row_pitch;
        let source = vstd::slice::slice_subrange(raw, start, start + row_bytes);
        bytes.extend_from_slice(source);
        row += 1;
    }
    bytes
}

impl Crop {
    /// The state after `bytes` were cached under this crop.
    pub open spec fn cached(&self, before: &RuntimeState, after: &RuntimeState) -> bool {
        &&& after.latest is Some
        &&& after.latest->0.width == self.content_rect.width
        &&& after.latest->0.height == self.content_rect.height
        &&& after.latest->0.captured_at == self.captured_at
        &&& after.latest->0.content_rect == self.content_rect
        &&& after.latest->0.fallback_screen_rect == self.fallback_screen_rect
        &&& after.latest->0.source_width == self.size.width
        &&& after.latest->0.source_height == self.size.height
        &&& after.latest->0.sequence == self.sequence
        &&& after.latest->0.remote_layout == self.remote_layout
        &&& after.latest->0.rendered_at_100ns == self.rendered_at_100ns
        &&& after.content_rect == Some(self.content_rect)
        &&& after.confirmed_layout == self.remote_layout
        &&& after.last_error is None
        &&& after.last_error_sequence == 0
        &&& after.last_observed_at == before.last_observed_at
        &&& after.last_frame_interval == before.last_frame_interval
        &&& after.source_size == before.source_size
        &&& after.requested_after_sequence == before.requested_after_sequence
    }
}

/// Caches the content cut from a frame. `raw` holds its rows, `row_pitch` bytes
/// apart. A frame that arrived before the request that waits does not answer it: the
/// request stays until a later frame is cached.
pub fn cache_crop(
    flags: &mut SessionFlags,
    state: &mut RuntimeState,
    crop: &Crop,
    raw: &[u8],
    row_pitch: usize,
) -> (result: Result<(), CaptureError>)
    requires
        crop.content_rect.width * crop.content_rect.height * 4 <= usize::MAX,
        crop.content_rect.width * 4 <= usize::MAX,
        crop.content_rect.height <= usize::MAX,
    ensures
        old(state).consistent(*old(flags)) ==> final(state).consistent(*final(flags)),
        result is Err ==> *final(flags) == *old(flags) && *final(state) == *old(state),
        ({
            let inside = crop.content_rect.fits(crop.size.width, crop.size.height);
            let rows = crop.content_rect.height as nat;
            let row_bytes = (crop.content_rect.width * 4) as nat;
            let enough = raw@.len() >= padded_length(row_pitch as nat, row_bytes, rows);
            &&& !inside ==> result == Err::<(), CaptureError>(CaptureError::LayoutChanged)
            &&& inside && !enough ==> result == Err::<(), CaptureError>(
                CaptureError::FrameBufferSize,
            )
            &&& inside && enough ==> {
                &&& result == Ok::<(), CaptureError>(())
                &&& crop.cached(old(state), final(state))
                &&& final(state).latest->0.bytes@ == packed_rows(
                    raw@,
                    row_pitch as nat,
                    row_bytes,
                    rows,
                )
                &&& *final(flags) == (SessionFlags {
                    has_cached_frame: true,
                    capture_requested: old(flags).capture_requested && crop.sequence <= old(
                        state,
                    ).requested_after_sequence,
                    ..*old(flags)
                })
                &&& final(state).consistent(*final(flags))
            }
        }),
{
    match require_content_inside(crop.content_rect, crop.size) {
        Ok(()) => {},
        Err(error) => {
            return Err(error);
        },
    }
    let rows: usize = crop.content_rect.height as usize;
    let row_bytes: usize = crop.content_rect.width as usize * PIXEL_BYTES;
    let gaps: usize = if rows == 0 { 0 } else { rows - 1 };
    proof {
        let pitch = row_pitch as int;
        let count = gaps as int;
        assert(0 <= pitch * count <= u64::MAX * u64::MAX) by (nonlinear_arith)
            requires
                0 <= pitch <= u64::MAX,
                0 <= count <= u64::MAX,
        ;
        assert(crop.content_rect.width * crop.content_rect.height * 4 == row_bytes * rows)
            by (nonlinear_arith)
            requires
                row_bytes == crop.content_rect.width * 4,
                rows == crop.content_rect.height,
        ;
    }
    let required: u128 = row_pitch as u128 * gaps as u128 + row_bytes as u128;
    if (raw.len() as u128) < required {
        return Err(CaptureError::FrameBufferSize);
    }
    let bytes = pack_rows(raw, row_pitch, row_bytes, rows);
    proof {
        lemma_packed_length(
            raw@,
            row_pitch as nat,
            row_bytes as nat,
            rows as nat,
            rows as nat,
        );
        assert(rows * row_bytes == row_bytes * rows) by (nonlinear_arith);
    }
    state.latest = Some(
        CachedFrame {
            width: crop.content_rect.width,
            height: crop.content_rect.height,
            bytes,
            captured_at: crop.captured_at,
            content_rect: crop.content_rect,
            fallback_screen_rect: crop.fallback_screen_rect,
            source_width: crop.size.width,
            source_height: crop.size.height,
            sequence: crop.sequence,
            remote_layout: crop.remote_layout,
            rendered_at_100ns: crop.rendered_at_100ns,
        },
    );
    state.content_rect = Some(crop.content_rect);
    state.confirmed_layout = crop.remote_layout;
    state.last_error = None;
    state.last_error_sequence = 0;
    if crop.sequence > state.requested_after_sequence {
        flags.capture_requested = false;
    }
    flags.has_cached_frame = true;
    Ok(())
}

/// Frames are counted one by one.
pub proof fn law_frames_are_counted(sequence: u64, other: u64)
    ensures
        next_sequence(sequence) != sequence,
        sequence < u64::MAX ==> next_sequence(sequence) == sequence + 1,
        next_sequence(sequence) == next_sequence(other) ==> sequence == other,
{
}

/// A session is over once it was stopped or its source has ended, and also where nobody can
/// say whether it has.
pub proof fn law_sessions_end(flags: SessionFlags)
    ensures
        flags.over(None),
        flags.over(Some(true)),
        flags.over(Some(false)) == flags.stopped,
        flags.stopped ==> forall|ended: Option<bool>| flags.over(ended),
{
}

/// A frame that arrives leaves its size, its time and its distance from the last one, and
/// nothing else changes.
pub proof fn law_observations_are_kept(
    state: RuntimeState,
    first: FrameSize,
    second: FrameSize,
    now: u64,
    later: u64,
)
    requires
        now <= later,
    ensures
        ({
            let once = state.with_observation(first, now);
            let twice = once.with_observation(second, later);
            &&& once.frame_size() == Some(first)
            &&& twice.frame_size() == Some(second)
            &&& once.last_observed_at == Some(now)
            &&& twice.last_observed_at == Some(later)
            &&& twice.last_frame_interval == Some((later - now) as u64)
            &&& state.last_observed_at is None ==> once.last_frame_interval is None
            &&& twice.latest == state.latest
            &&& twice.content_rect == state.content_rect
            &&& twice.confirmed_layout == state.confirmed_layout
            &&& twice.last_error == state.last_error
            &&& twice.last_error_sequence == state.last_error_sequence
            &&& twice.requested_after_sequence == state.requested_after_sequence
        }),
{
}

/// The frame size is that of the last frame seen, or that of the cached frame where none was
/// seen since; without either it is unknown.
pub proof fn law_frame_sizes_are_known_from_frames(state: RuntimeState)
    ensures
        state.source_size is Some ==> state.frame_size() == state.source_size,
        state.source_size is None && state.latest is Some ==> state.frame_size() is Some
            && state.frame_size()->0.width == state.latest->0.source_width
            && state.frame_size()->0.height == state.latest->0.source_height,
        state.source_size is None && state.latest is None ==> state.frame_size() is None,
{
}

/// Something is due where it was never done, or was done at least the interval ago.
pub proof fn law_intervals_pass(last: u64, now: u64, interval: u64)
    requires
        interval > 0,
    ensures
        is_due(None, now, interval),
        is_due(Some(last), now, interval) <==> now >= last + interval,
{
}

/// A request always gets its frame, and so does a session without one; otherwise a frame is
/// kept in advance only where the last one was kept a while ago.
pub proof fn law_requested_frames_are_taken(
    handler: FrameHandler,
    has_latest: bool,
    size: FrameSize,
    now: u64,
)
    ensures
        handler.wants_monitor_frame(true, has_latest, now),
        handler.wants_monitor_frame(false, false, now),
        handler.wants_content(true, has_latest, size, now),
        handler.last_source_size != Some(size) ==> handler.wants_content(
            false,
            has_latest,
            size,
            now,
        ),
        handler.last_cache_update is Some && now < handler.last_cache_update->0
            + 750_000_000 ==> !handler.wants_monitor_frame(false, true, now) && (
        handler.last_source_size == Some(size) ==> !handler.wants_content(
            false,
            has_latest,
            size,
            now,
        )),
        handler.last_cache_update is Some && now >= handler.last_cache_update->0
            + 750_000_000 ==> handler.wants_monitor_frame(false, true, now)
            && handler.wants_content(false, true, size, now),
        handler.last_detection is Some && now < handler.last_detection->0
            + 750_000_000 && handler.last_source_size == Some(size)
            ==> !handler.wants_content(false, false, size, now),
        (handler.last_cache_update is None || now >= handler.last_cache_update->0 + 750_000_000)
            && (handler.last_detection is None || now >= handler.last_detection->0 + 750_000_000)
            ==> handler.wants_content(false, false, size, now),
{
}

/// A stopped session takes no frame, nor does one whose layout is being confirmed, unless a
/// frame was asked for. Every other session takes frames.
pub proof fn law_frames_are_skipped_while_confirming(flags: SessionFlags)
    ensures
        flags.stopped ==> FrameHandler::skips(flags),
        !flags.stopped && flags.capture_requested ==> !FrameHandler::skips(flags),
        !flags.stopped && !flags.preflight_in_progress ==> !FrameHandler::skips(flags),
        !flags.capture_requested && flags.preflight_in_progress ==> FrameHandler::skips(flags),
{
}

/// A cached frame has four bytes for each pixel of its content, which lies inside the frame
/// that it was cut from; a session that says it has a frame has one, and no failure with it.
pub proof fn law_cached_frames_are_whole(state: RuntimeState, flags: SessionFlags)
    requires
        state.consistent(flags),
    ensures
        flags.has_cached_frame ==> state.latest is Some,
        state.latest is Some ==> {
            let frame = state.latest->0;
            &&& frame.bytes@.len() == 4 * frame.content_rect.width * frame.content_rect.height
            &&& frame.width == frame.content_rect.width
            &&& frame.height == frame.content_rect.height
            &&& frame.content_rect.fits(frame.source_width, frame.source_height)
            &&& state.content_rect == Some(frame.content_rect)
            &&& state.confirmed_layout == frame.remote_layout
            &&& state.last_error is None
        },
        state.latest is None ==> state.content_rect is None,
{
    if state.latest is Some {
        let frame = state.latest->0;
        let w = frame.width as int;
        let h = frame.height as int;
        assert(w * h * 4 == 4 * w * h) by (nonlinear_arith);
    }
}

/// Padded rows need the pitch for each row but the last, and that one's own bytes.
pub proof fn law_the_last_row_needs_no_padding(pitch: nat, bytes: nat, rows: nat)
    requires
        rows > 0,
    ensures
        padded_length(pitch, bytes, 1) == bytes,
        padded_length(pitch, bytes, rows + 1) == padded_length(pitch, bytes, rows) + pitch,
{
    let before = (rows - 1) as nat;
    assert(pitch * rows == pitch * before + pitch) by (nonlinear_arith)
        requires
            rows == before + 1,
    ;
    assert(pitch * 0 == 0);
}

/// A frame that was cached can be handed out as it was taken: its size is that of the content,
/// everything that was known of it is kept with it, and earlier failures are forgotten.
pub proof fn law_cached_frames_are_as_they_were_taken(
    taken: Crop,
    before: RuntimeState,
    after: RuntimeState,
)
    requires
        taken.cached(&before, &after),
    ensures
        after.latest is Some,
        ({
            let frame = after.latest->0;
            &&& frame.width == taken.content_rect.width
            &&& frame.height == taken.content_rect.height
            &&& frame.content_rect == taken.content_rect
            &&& after.content_rect == Some(frame.content_rect)
            &&& frame.sequence == taken.sequence
            &&& frame.captured_at == taken.captured_at
            &&& frame.rendered_at_100ns == taken.rendered_at_100ns
            &&& frame.source_width == taken.size.width
            &&& frame.source_height == taken.size.height
            &&& frame.fallback_screen_rect == taken.fallback_screen_rect
            &&& frame.remote_layout == taken.remote_layout
            &&& after.confirmed_layout == frame.remote_layout
        }),
        after.last_error is None && after.last_error_sequence == 0,
        after.requested_after_sequence == before.requested_after_sequence,
        after.last_observed_at == before.last_observed_at,
        after.last_frame_interval == before.last_frame_interval,
        after.source_size == before.source_size,
{
}

/// A dropped frame is gone with the place of its content, and nothing else of the state is.
pub proof fn law_dropped_frames_are_gone(before: RuntimeState, after: RuntimeState)
    requires
        after.dropped_frame(&before),
    ensures
        after.latest is None && after.content_rect is None,
        after.confirmed_layout == before.confirmed_layout,
        after.source_size == before.source_size,
        after.last_observed_at == before.last_observed_at,
        after.last_frame_interval == before.last_frame_interval,
        after.requested_after_sequence == before.requested_after_sequence,
{
}

} // verus!
