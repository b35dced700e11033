//! What can go wrong while a shared screen is captured.

use vstd::prelude::*;

verus! {

/// Why a capture, or a step of one, gave no result.
#[derive(Debug)]
pub enum CaptureError {
    /// The session has been stopped.
    Stopped,
    /// The window to capture is gone.
    TargetMissing,
    /// The window to capture is minimized.
    TargetMinimized,
    /// The session has ended; a new one may still deliver a frame.
    SessionFinished,
    /// No new frame of the locally shared monitor arrived.
    LocalFrameMissing,
    /// No new frame of the remote content was cached.
    RemoteFrameMissing,
    /// The frame was rendered before the request.
    FrameTooOld,
    /// The monitor that Teams shares is another one now.
    SharedTargetChanged,
    /// A frame failed, and no reason was kept.
    FrameFailed,
    /// No frame size is known yet.
    Preparing,
    /// The source has no remote window.
    NoRemoteTarget,
    /// The source has no meeting window.
    NoMeetingWindow,
    /// The content moved between the request and the output.
    LayoutMismatch,
    /// The content lies outside the frame.
    LayoutChanged,
    /// A frame buffer does not have the size that its dimensions ask for.
    FrameBufferSize,
    /// The content has no place on the screen.
    ScreenCoordinates,
    /// The shared monitor's size differs from the frame's.
    MonitorSizeChanged,
    /// The shared monitor could not be confirmed.
    MonitorUnconfirmed,
    /// The performance counter cannot be used.
    ClockUnavailable,
    /// The performance counter does not fit the frame time.
    ClockOverflow,
    /// The authorization could not be read.
    AuthorizationUnreadable,
    /// The authorization was withdrawn.
    Revoked,
    /// The image to save is too large.
    ImageTooLarge,
    /// The image to save has a buffer of the wrong size.
    SaveBufferSize,
    /// The image to save could not be encoded.
    PngEncoding,
    /// The PNG data to save is empty or does not start as PNG data does.
    PngPayload,
    /// The clipboard image is too wide.
    ImageTooWide,
    /// The clipboard image is too high.
    ImageTooHigh,
    /// The clipboard could not be written.
    ClipboardCopy,
    /// The clipboard could not be opened.
    ClipboardOpen,
    /// The window to capture could not be confirmed.
    WindowUnconfirmed,
    /// The window's position could not be read.
    WindowPositionUnavailable,
    /// The window or its image has no size.
    WindowSizeInvalid,
    /// No element with the shared content was found.
    ContentNotFound,
    /// The second look found no element with the shared content.
    ContentNotSettled,
    /// The content changed between the two looks.
    ContentUpdating,
    /// The window moved while its content was looked up.
    LayoutMovedDuringCheck,
    /// The layout watcher has stopped.
    ResolverStopped,
    /// There is no layout watcher.
    ResolverMissing,
    /// Too many layout checks are waiting.
    ResolverBusy,
    /// A layout check got no answer in time.
    ResolverTimeout,
    /// A layout check waited too long before it began.
    RequestExpired,
    /// Anything that a call outside this library reported.
    Reported(String),
}

impl CaptureError {
    /// The text shown for the error.
    pub open spec fn text(&self) -> Seq<char> {
        match self {
            CaptureError::Stopped => "キャプチャは停止しています"@,
            CaptureError::TargetMissing => "撮影対象のTeamsウィンドウが見つかりません"@,
            CaptureError::TargetMinimized =>
                "Teamsが最小化されています。ウィンドウを復元してから撮影してください"@,
            CaptureError::SessionFinished => "キャプチャセッションが終了しています"@,
            CaptureError::LocalFrameMissing =>
                "自分の共有画面の新しいフレームを取得できませんでした"@,
            CaptureError::RemoteFrameMissing =>
                "新しい共有画面フレームをキャッシュできませんでした"@,
            CaptureError::FrameTooOld => "UIA確認後に描画されたフレームが必要です"@,
            CaptureError::SharedTargetChanged =>
                "Teamsの共有対象が変わったため、誤撮影を防ぐために停止しました"@,
            CaptureError::FrameFailed => "共有画面の取得に失敗しました"@,
            CaptureError::Preparing => "共有コンテンツを準備中です"@,
            CaptureError::NoRemoteTarget => "共有対象がありません"@,
            CaptureError::NoMeetingWindow => "Teams会議ウィンドウの対象がありません"@,
            CaptureError::LayoutMismatch =>
                "Teamsの共有範囲または配置が変わったため、もう一度撮影してください"@,
            CaptureError::LayoutChanged => "Teamsのレイアウト変更を検出しました"@,
            CaptureError::FrameBufferSize => "共有画面フレームのバッファサイズが不正です"@,
            CaptureError::ScreenCoordinates =>
                "共有コンテンツの画面座標を計算できませんでした"@,
            CaptureError::MonitorSizeChanged =>
                "共有モニターのサイズが変わったため再検出が必要です"@,
            CaptureError::MonitorUnconfirmed =>
                "Teamsが共有しているモニターを確認できませんでした"@,
            CaptureError::ClockUnavailable => "キャプチャの時刻を確認できませんでした"@,
            CaptureError::ClockOverflow => "キャプチャの時刻を変換できませんでした"@,
            CaptureError::AuthorizationUnreadable => "撮影認可状態を確認できませんでした"@,
            CaptureError::Revoked => "撮影は失効しています"@,
            CaptureError::ImageTooLarge => "保存する画像のサイズが大きすぎます"@,
            CaptureError::SaveBufferSize => "保存する画像のバッファサイズが不正です"@,
            CaptureError::PngEncoding => "PNGのエンコードに失敗しました"@,
            CaptureError::PngPayload => "保存するPNGデータが空か不正です"@,
            CaptureError::ImageTooWide => "画像の幅が大きすぎます"@,
            CaptureError::ImageTooHigh => "画像の高さが大きすぎます"@,
            CaptureError::ClipboardCopy => "クリップボードへのコピーに失敗しました"@,
            CaptureError::ClipboardOpen => "クリップボードを開けませんでした"@,
            CaptureError::WindowUnconfirmed =>
                "撮影対象のTeamsウィンドウを確認できませんでした"@,
            CaptureError::WindowPositionUnavailable =>
                "Teamsウィンドウの位置を取得できませんでした"@,
            CaptureError::WindowSizeInvalid => "Teamsウィンドウのサイズが不正です"@,
            CaptureError::ContentNotFound => "Teamsの共有コンテンツ要素を確認できませんでした"@,
            CaptureError::ContentNotSettled => "Teamsの共有範囲が確定していません"@,
            CaptureError::ContentUpdating => "Teamsの共有範囲を更新中です"@,
            CaptureError::LayoutMovedDuringCheck =>
                "共有範囲の確認中にTeamsの配置が変わりました"@,
            CaptureError::ResolverStopped => "共有範囲の監視が停止しました"@,
            CaptureError::ResolverMissing => "共有範囲の監視がありません"@,
            CaptureError::ResolverBusy => "共有範囲を更新中です。少し待って再撮影してください"@,
            CaptureError::ResolverTimeout => "Teamsの共有範囲の確認が応答していません"@,
            CaptureError::RequestExpired => "共有範囲の確認要求が期限切れになりました"@,
            CaptureError::Reported(message) => message@,
        }
    }

    /// The session could not deliver a frame, but a new one might.
    pub open spec fn asks_for_new_session(&self) -> bool {
        match self {
            CaptureError::SessionFinished => true,
            CaptureError::LocalFrameMissing => true,
            CaptureError::RemoteFrameMissing => true,
            CaptureError::FrameTooOld => true,
            _ => false,
        }
    }

    /// Whether only the frame was unavailable, so that a new session may succeed.
    pub fn is_frame_unavailable(&self) -> (result: bool)
        ensures
            result == self.asks_for_new_session(),
    {
        match self {
            CaptureError::SessionFinished => true,
            CaptureError::LocalFrameMissing => true,
            CaptureError::RemoteFrameMissing => true,
            CaptureError::FrameTooOld => true,
            _ => false,
        }
    }

    /// The text to show.
    pub fn message(&self) -> (result: String)
        ensures
            result@ == self.text(),
    {
        match self {
            CaptureError::Stopped => "キャプチャは停止しています".to_owned(),
            CaptureError::TargetMissing => "撮影対象のTeamsウィンドウが見つかりません".to_owned(),
            CaptureError::TargetMinimized => "Teamsが最小化されています。ウィンドウを復元してから撮影してください".to_owned(),
            CaptureError::SessionFinished => "キャプチャセッションが終了しています".to_owned(),
            CaptureError::LocalFrameMissing => "自分の共有画面の新しいフレームを取得できませんでした".to_owned(),
            CaptureError::RemoteFrameMissing => "新しい共有画面フレームをキャッシュできませんでした".to_owned(),
            CaptureError::FrameTooOld => "UIA確認後に描画されたフレームが必要です".to_owned(),
            CaptureError::SharedTargetChanged => "Teamsの共有対象が変わったため、誤撮影を防ぐために停止しました".to_owned(),
            CaptureError::FrameFailed => "共有画面の取得に失敗しました".to_owned(),
            CaptureError::Preparing => "共有コンテンツを準備中です".to_owned(),
            CaptureError::NoRemoteTarget => "共有対象がありません".to_owned(),
            CaptureError::NoMeetingWindow => "Teams会議ウィンドウの対象がありません".to_owned(),
            CaptureError::LayoutMismatch => "Teamsの共有範囲または配置が変わったため、もう一度撮影してください".to_owned(),
            CaptureError::LayoutChanged => "Teamsのレイアウト変更を検出しました".to_owned(),
            CaptureError::FrameBufferSize => "共有画面フレームのバッファサイズが不正です".to_owned(),
            CaptureError::ScreenCoordinates => "共有コンテンツの画面座標を計算できませんでした".to_owned(),
            CaptureError::MonitorSizeChanged => "共有モニターのサイズが変わったため再検出が必要です".to_owned(),
            CaptureError::MonitorUnconfirmed => "Teamsが共有しているモニターを確認できませんでした".to_owned(),
            CaptureError::ClockUnavailable => "キャプチャの時刻を確認できませんでした".to_owned(),
            CaptureError::ClockOverflow => "キャプチャの時刻を変換できませんでした".to_owned(),
            CaptureError::AuthorizationUnreadable => "撮影認可状態を確認できませんでした".to_owned(),
            CaptureError::Revoked => "撮影は失効しています".to_owned(),
            CaptureError::ImageTooLarge => "保存する画像のサイズが大きすぎます".to_owned(),
            CaptureError::SaveBufferSize => "保存する画像のバッファサイズが不正です".to_owned(),
            CaptureError::PngEncoding => "PNGのエンコードに失敗しました".to_owned(),
            CaptureError::PngPayload => "保存するPNGデータが空か不正です".to_owned(),
            CaptureError::ImageTooWide => "画像の幅が大きすぎます".to_owned(),
            CaptureError::ImageTooHigh => "画像の高さが大きすぎます".to_owned(),
            CaptureError::ClipboardCopy => "クリップボードへのコピーに失敗しました".to_owned(),
            CaptureError::ClipboardOpen => "クリップボードを開けませんでした".to_owned(),
            CaptureError::WindowUnconfirmed => "撮影対象のTeamsウィンドウを確認できませんでした".to_owned(),
            CaptureError::WindowPositionUnavailable => "Teamsウィンドウの位置を取得できませんでした".to_owned(),
            CaptureError::WindowSizeInvalid => "Teamsウィンドウのサイズが不正です".to_owned(),
            CaptureError::ContentNotFound => "Teamsの共有コンテンツ要素を確認できませんでした".to_owned(),
            CaptureError::ContentNotSettled => "Teamsの共有範囲が確定していません".to_owned(),
            CaptureError::ContentUpdating => "Teamsの共有範囲を更新中です".to_owned(),
            CaptureError::LayoutMovedDuringCheck => "共有範囲の確認中にTeamsの配置が変わりました".to_owned(),
            CaptureError::ResolverStopped => "共有範囲の監視が停止しました".to_owned(),
            CaptureError::ResolverMissing => "共有範囲の監視がありません".to_owned(),
            CaptureError::ResolverBusy => "共有範囲を更新中です。少し待って再撮影してください".to_owned(),
            CaptureError::ResolverTimeout => "Teamsの共有範囲の確認が応答していません".to_owned(),
            CaptureError::RequestExpired => "共有範囲の確認要求が期限切れになりました".to_owned(),
            CaptureError::Reported(message) => message.clone(),
        }
    }
}

/// A new session helps only where the session is over or gave no frame that can be used, and
/// what a call outside reported is shown as it was reported.
pub proof fn law_only_missing_frames_ask_for_a_session(error: CaptureError)
    ensures
        error.asks_for_new_session() <==> error is SessionFinished || error is LocalFrameMissing
            || error is RemoteFrameMissing || error is FrameTooOld,
        error is Reported ==> error.text() == error->Reported_0@,
        error is Reported ==> !error.asks_for_new_session(),
{
}

} // verus!
