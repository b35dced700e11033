use snapbar::error::CaptureError;
use snapbar::output::{
    authorization_verdict, check_clipboard_buffer, check_clipboard_image, check_png_payload,
    check_save_buffer, copy_under, copy_with_reading, encode_capture_png, output_capture,
    output_capture_with, output_under_readings, save_under, start_authorized_with,
    start_under_readings, with_reading, AuthorizedStart, CaptureAuthorization, RetryPlan,
};
use std::cell::RefCell;
use std::path::PathBuf;
use std::sync::atomic::{AtomicUsize, Ordering};
use std::sync::{Arc, Mutex};

#[test]
fn invalidation_prevents_output() {
    let auth = CaptureAuthorization::default();
    auth.invalidate();
    let copies = AtomicUsize::new(0);
    let saves = AtomicUsize::new(0);
    let result = output_capture_with(
        &auth,
        true,
        || {
            copies.fetch_add(1, Ordering::SeqCst);
            Ok(())
        },
        || Ok(vec![1_u8]),
        |_| {
            saves.fetch_add(1, Ordering::SeqCst);
            Ok(PathBuf::new())
        },
    );
    assert!(result.is_err());
    assert_eq!(copies.load(Ordering::SeqCst), 0);
    assert_eq!(saves.load(Ordering::SeqCst), 0);
}

#[test]
fn default_authorization_is_valid() {
    assert!(CaptureAuthorization::default().with_current(|| Ok(())).is_ok());
}

#[test]
fn save_false_skips_encoding_and_saving() {
    let auth = CaptureAuthorization::new();
    let encoded = AtomicUsize::new(0);
    let saved = AtomicUsize::new(0);
    let result = output_capture_with(
        &auth,
        false,
        || Ok(()),
        || {
            encoded.fetch_add(1, Ordering::SeqCst);
            Ok(())
        },
        |_| {
            saved.fetch_add(1, Ordering::SeqCst);
            Ok(PathBuf::new())
        },
    )
    .unwrap();
    assert!(result.is_none());
    assert_eq!(encoded.load(Ordering::SeqCst), 0);
    assert_eq!(saved.load(Ordering::SeqCst), 0);
}

#[test]
fn invalidation_between_copy_and_save_skips_only_save() {
    let auth = CaptureAuthorization::new();
    let saves = AtomicUsize::new(0);
    let result = output_capture_with(
        &auth,
        true,
        || Ok(()),
        || {
            auth.invalidate();
            Ok(vec![1_u8, 2, 3])
        },
        |_| {
            saves.fetch_add(1, Ordering::SeqCst);
            Ok(PathBuf::new())
        },
    )
    .unwrap();
    assert!(result.unwrap().is_err());
    assert_eq!(saves.load(Ordering::SeqCst), 0);
}

#[test]
fn save_uses_encoded_capture_data_after_external_change() {
    let auth = CaptureAuthorization::new();
    let mut external_clipboard = vec![9_u8];
    let captured = vec![1_u8, 2, 3, 4];
    let saved = Arc::new(Mutex::new(Vec::new()));
    let saved_copy = saved.clone();
    let result = output_capture_with(
        &auth,
        true,
        || {
            external_clipboard = vec![8];
            Ok(())
        },
        || encode_capture_png(1, 1, &captured),
        move |encoded| {
            *saved_copy.lock().unwrap() =
                image::load_from_memory(&encoded).unwrap().to_rgba8().into_raw();
            Ok(PathBuf::new())
        },
    )
    .unwrap();
    assert!(result.unwrap().is_ok());
    assert_eq!(*saved.lock().unwrap(), captured);
    assert_eq!(external_clipboard, vec![8]);
}

#[test]
fn png_failure_keeps_a_successful_clipboard_result() {
    let result = output_capture_with(
        &CaptureAuthorization::default(),
        true,
        || Ok(()),
        || Err(CaptureError::Reported("PNG failed".to_string())),
        |_: Vec<u8>| -> Result<PathBuf, CaptureError> {
            panic!("failed encoding must not create a file")
        },
    )
    .unwrap();
    assert_eq!(result.unwrap().unwrap_err().message(), "PNG failed");
}

#[test]
fn clones_share_one_authorization() {
    let auth = CaptureAuthorization::new();
    let clone = auth.clone();
    assert!(clone.check().is_ok());
    auth.invalidate();
    auth.invalidate();
    let error = clone
        .with_current(|| -> Result<(), CaptureError> {
            panic!("a withdrawn authorization runs nothing")
        })
        .unwrap_err();
    assert_eq!(error.message(), "撮影は失効しています");
    assert_eq!(clone.check().unwrap_err().message(), "撮影は失効しています");
}

#[test]
fn readings_of_the_authorization_are_judged() {
    assert!(authorization_verdict(Some(true)).is_ok());
    assert_eq!(
        authorization_verdict(Some(false)).unwrap_err().message(),
        "撮影は失効しています"
    );
    assert_eq!(
        authorization_verdict(None).unwrap_err().message(),
        "撮影認可状態を確認できませんでした"
    );
}

#[test]
fn revocation_during_startup_does_not_block_and_stops_result() {
    let authorization = CaptureAuthorization::new();
    let withdrawn = authorization.clone();
    let outcome = start_authorized_with(&authorization, || {
        // The lock is free while a session starts.
        withdrawn.invalidate();
        Ok(41)
    });
    match outcome {
        AuthorizedStart::Withdrawn(session, error) => {
            assert_eq!(session, 41);
            assert!(matches!(error, CaptureError::Revoked));
        }
        _ => panic!("the session has to be stopped"),
    }
    let outcome = start_authorized_with(&authorization, || -> Result<u8, CaptureError> {
        panic!("nothing starts under a withdrawn authorization")
    });
    assert!(matches!(outcome, AuthorizedStart::Failed(CaptureError::Revoked)));
    let outcome = start_authorized_with(&CaptureAuthorization::new(), || {
        Err::<u8, CaptureError>(CaptureError::Stopped)
    });
    assert!(matches!(outcome, AuthorizedStart::Failed(CaptureError::Stopped)));
    assert!(matches!(
        start_authorized_with(&CaptureAuthorization::new(), || Ok(3)),
        AuthorizedStart::Started(3)
    ));
}

#[test]
fn captures_are_encoded_as_png() {
    let pixels = [
        0_u8, 1, 2, 3, 255, 128, 64, 32, 17, 34, 51, 68, 240, 230, 220, 210,
    ];
    let encoded = encode_capture_png(2, 2, &pixels).unwrap();
    assert_ne!(encoded, pixels.to_vec());
    assert!(check_png_payload(&encoded).is_ok());
    let decoded = image::load_from_memory(&encoded).unwrap().to_rgba8();
    assert_eq!(decoded.dimensions(), (2, 2));
    assert_eq!(decoded.as_raw(), &pixels.to_vec());
}

#[test]
fn unfit_captures_are_not_encoded() {
    assert_eq!(
        encode_capture_png(2, 2, &[0; 15]).unwrap_err().message(),
        "保存する画像のバッファサイズが不正です"
    );
    assert_eq!(
        encode_capture_png(u32::MAX, u32::MAX, &[]).unwrap_err().message(),
        "保存する画像のサイズが大きすぎます"
    );
    assert_eq!(
        encode_capture_png(0, 5, &[]).unwrap_err().message(),
        "PNGのエンコードに失敗しました"
    );
    assert!(check_save_buffer(2, 2, 16).is_ok());
    assert!(check_clipboard_buffer(2, 2, 16).is_ok());
    assert_eq!(
        check_clipboard_buffer(2, 2, 17).unwrap_err().message(),
        "共有画面フレームのバッファサイズが不正です"
    );
}

#[test]
fn a_capture_is_copied_and_saved() {
    let auth = CaptureAuthorization::new();
    let copied = RefCell::new(Vec::new());
    let saved = output_capture(
        &auth,
        1,
        1,
        &[1, 2, 3, 4],
        true,
        |width, height, bytes| {
            copied.borrow_mut().push((width, height, bytes.to_vec()));
            Ok(())
        },
        |encoded| Ok(encoded.len()),
    )
    .unwrap()
    .unwrap()
    .unwrap();
    assert_eq!(*copied.borrow(), [(1, 1, vec![1, 2, 3, 4])]);
    assert_eq!(saved, encode_capture_png(1, 1, &[1, 2, 3, 4]).unwrap().len());
    let refused = output_capture(
        &auth,
        1,
        1,
        &[1, 2, 3],
        true,
        |_, _, _| panic!("an unfit buffer is not copied"),
        |_| -> Result<(), CaptureError> { panic!("an unfit buffer is not saved") },
    );
    assert!(matches!(refused, Err(CaptureError::FrameBufferSize)));
}

#[test]
fn a_capture_is_written_only_where_it_was_copied_and_is_to_be_saved() {
    let auth = CaptureAuthorization::new();
    let unsaved = output_capture(
        &auth,
        1,
        1,
        &[1, 2, 3, 4],
        false,
        |_, _, _| Ok(()),
        |_| -> Result<(), CaptureError> { panic!("saving is off") },
    );
    assert!(matches!(unsaved, Ok(None)));
    let uncopied = output_capture(
        &auth,
        1,
        1,
        &[1, 2, 3, 4],
        true,
        |_, _, _| Err(CaptureError::Preparing),
        |_| -> Result<(), CaptureError> { panic!("nothing was copied") },
    );
    assert!(matches!(uncopied, Err(CaptureError::Preparing)));
    auth.invalidate();
    let withdrawn = output_capture(
        &auth,
        1,
        1,
        &[1, 2, 3, 4],
        true,
        |_, _, _| panic!("the authorization is gone"),
        |_| -> Result<(), CaptureError> { panic!("the authorization is gone") },
    );
    assert!(matches!(withdrawn, Err(CaptureError::Revoked)));
}

#[test]
fn a_withdrawal_after_the_copy_keeps_the_png_from_being_written() {
    let auth = CaptureAuthorization::new();
    let other = auth.clone();
    let copied = output_capture_with(
        &auth,
        true,
        || Ok(()),
        || {
            other.invalidate();
            Ok(5_u8)
        },
        |_| -> Result<(), CaptureError> { panic!("the authorization is gone") },
    );
    assert!(matches!(copied, Ok(Some(Err(CaptureError::Revoked)))));
    assert!(matches!(save_under(&auth, 5_u8, |_| Ok(())), Err(CaptureError::Revoked)));
    assert!(save_under(&CaptureAuthorization::new(), 5_u8, |v| Ok(v + 1)).is_ok_and(|v| v == 6));
}

#[test]
fn a_copy_goes_by_the_reading_and_by_the_buffer() {
    let fits = [9_u8; 8];
    let sum = |_: u32, _: u32, bytes: &[u8]| -> Result<(), CaptureError> {
        assert_eq!(bytes, [9_u8; 8]);
        Ok(())
    };
    assert!(copy_with_reading(Some(true), 2, 1, &fits, sum).is_ok());
    assert!(matches!(
        copy_with_reading(Some(true), 2, 2, &fits, |_, _, _| panic!("unfit")),
        Err(CaptureError::FrameBufferSize)
    ));
    assert!(matches!(
        copy_with_reading(Some(false), 2, 2, &fits, |_, _, _| panic!("withdrawn")),
        Err(CaptureError::Revoked)
    ));
    assert!(matches!(
        copy_with_reading(None, 2, 1, &fits, |_, _, _| panic!("unreadable")),
        Err(CaptureError::AuthorizationUnreadable)
    ));
    assert!(copy_under(&CaptureAuthorization::new(), 2, 1, &fits, sum).is_ok());
}

#[test]
fn png_payloads_are_told_by_their_signature() {
    let mut data = vec![0x89, b'P', b'N', b'G', 13, 10, 26, 10];
    assert!(check_png_payload(&data).is_ok());
    data.extend([1, 2, 3]);
    assert!(check_png_payload(&data).is_ok());
    data[0] ^= 1;
    assert_eq!(
        check_png_payload(&data).unwrap_err().message(),
        "保存するPNGデータが空か不正です"
    );
    assert!(check_png_payload(&[]).is_err());
    assert!(check_png_payload(&[0x89, b'P', b'N', b'G', 13, 10, 26]).is_err());
}

#[test]
fn clipboard_images_are_checked_before_they_are_saved() {
    assert!(matches!(check_clipboard_image(3, 2, 24), Ok((3, 2))));
    assert!(matches!(check_clipboard_image(3, 2, 23), Err(CaptureError::SaveBufferSize)));
    assert!(matches!(
        check_clipboard_image(1 << 32, 2, 0),
        Err(CaptureError::ImageTooWide)
    ));
    assert!(matches!(
        check_clipboard_image(2, 1 << 32, 0),
        Err(CaptureError::ImageTooHigh)
    ));
    assert_eq!(CaptureError::ImageTooWide.message(), "画像の幅が大きすぎます");
    assert_eq!(CaptureError::ImageTooHigh.message(), "画像の高さが大きすぎます");
}

#[test]
fn clipboard_access_is_repeated_a_few_times() {
    let copy = RetryPlan::for_copy();
    assert_eq!(copy.pause_after(0), Some(30_000_000));
    assert_eq!(copy.pause_after(1), Some(30_000_000));
    assert_eq!(copy.pause_after(2), None);
    let read = RetryPlan::for_read();
    assert_eq!(read.pause_after(3), Some(5_000_000));
    assert_eq!(read.pause_after(4), None);
    assert_eq!(read.pause_after(u32::MAX), None);
}

#[test]
fn a_reading_decides_whether_a_side_effect_runs() {
    assert_eq!(with_reading(Some(true), || Ok(5)).unwrap(), 5);
    assert!(matches!(
        with_reading(Some(true), || Err::<u8, CaptureError>(CaptureError::Stopped)),
        Err(CaptureError::Stopped)
    ));
    for (reading, unreadable) in [(Some(false), false), (None, true)] {
        let refused = with_reading(reading, || -> Result<u8, CaptureError> {
            panic!("a refused side effect does not run")
        });
        match refused {
            Err(CaptureError::AuthorizationUnreadable) => assert!(unreadable),
            Err(CaptureError::Revoked) => assert!(!unreadable),
            _ => panic!("the side effect has to be refused"),
        }
    }
}

#[test]
fn two_readings_decide_about_copy_and_save() {
    let refused = output_under_readings(
        Some(false),
        Some(true),
        true,
        || -> Result<(), CaptureError> { panic!("nothing is copied") },
        || -> Result<u8, CaptureError> { panic!("nothing is encoded") },
        |_: u8| -> Result<u8, CaptureError> { panic!("nothing is written") },
    );
    assert!(matches!(refused, Err(CaptureError::Revoked)));
    let mut copies = 0;
    let unsaved = output_under_readings(
        Some(true),
        Some(false),
        true,
        || {
            copies += 1;
            Ok(())
        },
        || Ok(7_u8),
        |_: u8| -> Result<u8, CaptureError> { panic!("nothing is written") },
    );
    assert!(matches!(unsaved, Ok(Some(Err(CaptureError::Revoked)))));
    assert_eq!(copies, 1);
    let saved =
        output_under_readings(Some(true), Some(true), true, || Ok(()), || Ok(7_u8), |v| Ok(v + 1));
    assert!(matches!(saved, Ok(Some(Ok(8)))));
    let copied = output_under_readings(
        Some(true),
        None,
        false,
        || Ok(()),
        || -> Result<u8, CaptureError> { panic!("nothing is encoded") },
        |v: u8| Ok(v),
    );
    assert!(matches!(copied, Ok(None)));
}

#[test]
fn two_readings_decide_about_a_start() {
    assert!(matches!(
        start_under_readings(Some(true), Some(true), || Ok(4)),
        AuthorizedStart::Started(4)
    ));
    assert!(matches!(
        start_under_readings(Some(true), Some(false), || Ok(4)),
        AuthorizedStart::Withdrawn(4, CaptureError::Revoked)
    ));
    assert!(matches!(
        start_under_readings(Some(true), Some(true), || Err::<u8, _>(CaptureError::Stopped)),
        AuthorizedStart::Failed(CaptureError::Stopped)
    ));
    let refused = start_under_readings(None, Some(true), || -> Result<u8, CaptureError> {
        panic!("nothing starts")
    });
    assert!(matches!(
        refused,
        AuthorizedStart::Failed(CaptureError::AuthorizationUnreadable)
    ));
}
