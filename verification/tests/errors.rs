use snapbar::error::CaptureError;

#[test]
fn errors_speak_to_the_user() {
    for (error, text) in [
        (CaptureError::Stopped, "キャプチャは停止しています"),
        (CaptureError::TargetMissing, "撮影対象のTeamsウィンドウが見つかりません"),
        (
            CaptureError::TargetMinimized,
            "Teamsが最小化されています。ウィンドウを復元してから撮影してください",
        ),
        (CaptureError::FrameTooOld, "UIA確認後に描画されたフレームが必要です"),
        (CaptureError::FrameFailed, "共有画面の取得に失敗しました"),
        (CaptureError::Preparing, "共有コンテンツを準備中です"),
        (CaptureError::NoRemoteTarget, "共有対象がありません"),
        (CaptureError::NoMeetingWindow, "Teams会議ウィンドウの対象がありません"),
        (CaptureError::LayoutChanged, "Teamsのレイアウト変更を検出しました"),
        (CaptureError::ClockUnavailable, "キャプチャの時刻を確認できませんでした"),
        (CaptureError::ResolverMissing, "共有範囲の監視がありません"),
        (CaptureError::ResolverStopped, "共有範囲の監視が停止しました"),
        (CaptureError::RequestExpired, "共有範囲の確認要求が期限切れになりました"),
        (CaptureError::ClipboardCopy, "クリップボードへのコピーに失敗しました"),
        (CaptureError::ClipboardOpen, "クリップボードを開けませんでした"),
        (CaptureError::ContentUpdating, "Teamsの共有範囲を更新中です"),
        (CaptureError::Reported("outside".to_string()), "outside"),
    ] {
        assert_eq!(error.message(), text);
    }
}

#[test]
fn only_missing_frames_ask_for_a_new_session() {
    for error in [
        CaptureError::SessionFinished,
        CaptureError::LocalFrameMissing,
        CaptureError::RemoteFrameMissing,
        CaptureError::FrameTooOld,
    ] {
        assert!(error.is_frame_unavailable());
    }
    for error in [
        CaptureError::Stopped,
        CaptureError::TargetMissing,
        CaptureError::LayoutMismatch,
        CaptureError::FrameFailed,
        CaptureError::Reported("x".to_string()),
    ] {
        assert!(!error.is_frame_unavailable());
    }
}
