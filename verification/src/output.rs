//! What leaves the program: the clipboard and the saved screenshots.

use std::sync::{Arc, Mutex, MutexGuard};

use image::codecs::png::PngEncoder;
use image::{ColorType, ImageEncoder};
use vstd::prelude::*;

use crate::error::CaptureError;

verus! {

/// `std::sync::Mutex`, carried as it is.
#[verifier::external_type_specification]
#[verifier::external_body]
#[verifier::reject_recursive_types(T)]
pub struct ExMutex<T: ?Sized>(Mutex<T>);

/// `std::sync::MutexGuard`, carried as it is.
#[verifier::external_type_specification]
#[verifier::external_body]
#[verifier::reject_recursive_types(T)]
pub struct ExMutexGuard<'a, T: ?Sized + 'a>(MutexGuard<'a, T>);

/// `image::ImageError`, carried as it is.
#[verifier::external_type_specification]
#[verifier::external_body]
pub struct ExImageError(image::ImageError);

/// `std::sync::Mutex::new`: a lock that holds `flag`. What a later lock reads depends on
/// what every holder of the lock did meanwhile, so nothing is claimed of it.
#[verifier::external_body]
fn new_lock(flag: bool) -> Mutex<bool> {
    Mutex::new(flag)
}

/// `std::sync::Mutex::lock`: waits for the lock. `None` stands for a lock that another
/// holder left by a panic; whether that happened cannot be known in advance.
#[verifier::external_body]
fn lock_flag(lock: &Mutex<bool>) -> Option<MutexGuard<'_, bool>> {
    lock.lock().ok()
}

/// `std::sync::MutexGuard::deref`: the value behind the lock. It is what the last holder
/// left there, so nothing is claimed of it.
#[verifier::external_body]
fn flag_of(guard: &MutexGuard<'_, bool>) -> bool {
    **guard
}

/// `std::sync::MutexGuard::deref_mut`: replaces the value behind the lock and gives the
/// lock back. The next holder reads it; that is not stated, since nothing is claimed of
/// what a lock reads.
#[verifier::external_body]
fn set_flag(mut guard: MutexGuard<'_, bool>, flag: bool) {
    *guard = flag;
}

/// Authorizes the side effects that belong to one capture.
///
/// The lock is held while a side effect runs, so that withdrawing the authorization and
/// beginning the side effect never overlap.
#[derive(Clone)]
pub struct CaptureAuthorization {
    valid: Arc<Mutex<bool>>,
}

/// What a reading of the authorization means. `None` stands for one that could not be
/// read.
pub open spec fn authorization_error(reading: Option<bool>) -> Option<CaptureError> {
    match reading {
        None => Some(CaptureError::AuthorizationUnreadable),
        Some(false) => Some(CaptureError::Revoked),
        Some(true) => None,
    }
}

/// Judges a reading of the authorization.
pub fn authorization_verdict(reading: Option<bool>) -> (result: Result<(), CaptureError>)
    ensures
        result == match authorization_error(reading) {
            Some(error) => Err::<(), CaptureError>(error),
            None => Ok::<(), CaptureError>(()),
        },
{
    match reading {
        None => Err(CaptureError::AuthorizationUnreadable),
        Some(false) => Err(CaptureError::Revoked),
        Some(true) => Ok(()),
    }
}

/// What comes of a side effect under a reading: its own result under a valid one, and
/// otherwise the refusal, without the side effect.
pub open spec fn is_outcome<T, W: FnOnce() -> Result<T, CaptureError>>(
    reading: Option<bool>,
    write: W,
    result: Result<T, CaptureError>,
) -> bool {
    match authorization_error(reading) {
        Some(error) => result == Err::<T, CaptureError>(error),
        None => write.ensures((), result),
    }
}

/// Runs a side effect under a reading of the authorization, or refuses it.
pub fn with_reading<T, W: FnOnce() -> Result<T, CaptureError>>(reading: Option<bool>, write: W)
    -> (result: Result<T, CaptureError>)
    requires
        authorization_error(reading) is None ==> write.requires(()),
    ensures
        is_outcome(reading, write, result),
{
    match authorization_verdict(reading) {
        Ok(()) => write(),
        Err(error) => Err(error),
    }
}

/// The flag of an authorization: what a new one holds.
pub fn granted() -> (result: bool)
    ensures
        result,
{
    true
}

/// The flag of an authorization: what a withdrawn one holds.
pub fn withdrawn() -> (result: bool)
    ensures
        !result,
{
    false
}

impl Default for CaptureAuthorization {
    fn default() -> (result: Self)
        ensures
            result.was_made_with(true),
    {
        CaptureAuthorization::new()
    }
}

impl CaptureAuthorization {
    /// The authorization was made with a lock that holds `flag`.
    pub closed spec fn was_made_with(&self, flag: bool) -> bool {
        call_ensures(new_lock, (flag,), *self.valid)
    }

    /// The lock was taken and `reading` is what it gave.
    pub closed spec fn was_read(&self, reading: Option<bool>) -> bool {
        match reading {
            None => call_ensures(lock_flag, (&*self.valid,), None::<MutexGuard<'_, bool>>),
            Some(flag) => exists|guard: Option<MutexGuard<'_, bool>>| #[trigger]
                call_ensures(lock_flag, (&*self.valid,), guard) && guard is Some
                    && call_ensures(flag_of, (&guard->0,), flag),
        }
    }

    /// The lock was taken and `flag` written to it, or it could not be taken.
    pub closed spec fn was_set(&self, flag: bool) -> bool {
        exists|guard: Option<MutexGuard<'_, bool>>| #[trigger]
            call_ensures(lock_flag, (&*self.valid,), guard) && (guard is Some ==> call_ensures(
                set_flag,
                (guard->0, flag),
                (),
            ))
    }

    /// A valid authorization. Its clones share it.
    pub fn new() -> (result: Self)
        ensures
            result.was_made_with(true),
    {
        CaptureAuthorization { valid: Arc::new(new_lock(granted())) }
    }

    /// Withdraws the authorization, for all its clones and for good. Waits for a side
    /// effect that has begun.
    pub fn invalidate(&self)
        ensures
            self.was_set(false),
    {
        let guard = lock_flag(&self.valid);
        let ghost taken = guard;
        match guard {
            Some(guard) => set_flag(guard, withdrawn()),
            None => {},
        }
        assert(call_ensures(lock_flag, (&*self.valid,), taken));
    }

    /// Reads the authorization and gives the lock back.
    fn read(&self) -> (result: Option<bool>)
        ensures
            self.was_read(result),
    {
        let guard = lock_flag(&self.valid);
        self.reading_of(&guard)
    }

    /// What a lock that was taken gives.
    fn reading_of(&self, guard: &Option<MutexGuard<'_, bool>>) -> (result: Option<bool>)
        requires
            call_ensures(lock_flag, (&*self.valid,), *guard),
        ensures
            self.was_read(result),
    {
        match guard {
            Some(held) => {
                let flag = flag_of(held);
                assert(call_ensures(flag_of, (&guard->0,), flag));
                Some(flag)
            },
            None => None,
        }
    }

    /// Runs a side effect if the authorization is valid, and keeps it so until the side
    /// effect has ended. What the lock reads cannot be known in advance. Whatever it
    /// reads decides, by `with_reading`: a valid reading gives the side effect's own
    /// result, any other one a refusal. The side effect has to be possible under a valid
    /// reading alone, so a refusal is without it.
    pub fn with_current<T, W: FnOnce() -> Result<T, CaptureError>>(&self, write: W) -> (result:
        Result<T, CaptureError>)
        requires
            self.was_read(Some(true)) ==> write.requires(()),
        ensures
            exists|reading: Option<bool>| #[trigger]
                self.was_read(reading) && call_ensures(
                    with_reading::<T, W>,
                    (reading, write),
                    result,
                ) && is_outcome(reading, write, result),
    {
        let guard = lock_flag(&self.valid);
        let reading = self.reading_of(&guard);
        with_reading(reading, write)
    }
}

/// What comes of starting a session under an authorization.
#[derive(Debug)]
pub enum AuthorizedStart<T> {
    Started(T),
    Failed(CaptureError),
    /// The authorization was withdrawn while the session started: it has to be stopped.
    Withdrawn(T, CaptureError),
}

impl CaptureAuthorization {
    /// Whether the authorization is valid at this moment.
    pub fn check(&self) -> (result: Result<(), CaptureError>)
        ensures
            exists|reading: Option<bool>| #[trigger]
                self.was_read(reading) && result == match authorization_error(reading) {
                    Some(error) => Err::<(), CaptureError>(error),
                    None => Ok::<(), CaptureError>(()),
                },
    {
        let reading = self.read();
        authorization_verdict(reading)
    }
}

/// What comes of a session that has started, under a reading taken afterwards.
pub open spec fn after_start<T>(session: T, reading: Option<bool>) -> AuthorizedStart<T> {
    match authorization_error(reading) {
        Some(error) => AuthorizedStart::Withdrawn(session, error),
        None => AuthorizedStart::Started(session),
    }
}

/// Judges a session that has started by a reading taken afterwards.
pub fn judge_started<T>(session: T, reading: Option<bool>) -> (result: AuthorizedStart<T>)
    ensures
        result == after_start(session, reading),
{
    match authorization_verdict(reading) {
        Ok(()) => AuthorizedStart::Started(session),
        Err(error) => AuthorizedStart::Withdrawn(session, error),
    }
}

/// Judges a session that has started by the authorization as it is now.
pub fn confirm_started<T>(authorization: &CaptureAuthorization, session: T) -> (result:
    AuthorizedStart<T>)
    ensures
        exists|reading: Option<bool>| #[trigger]
            authorization.was_read(reading) && result == after_start(session, reading),
{
    let reading = authorization.read();
    judge_started(session, reading)
}

/// What comes of a start under two readings of the authorization: one taken before, which
/// may refuse it, and one taken afterwards.
pub open spec fn is_start<T, F: FnOnce() -> Result<T, CaptureError>>(
    before: Option<bool>,
    after: Option<bool>,
    start: F,
    result: AuthorizedStart<T>,
) -> bool {
    match authorization_error(before) {
        Some(error) => result == AuthorizedStart::<T>::Failed(error),
        None => exists|started: Result<T, CaptureError>| #[trigger]
            start.ensures((), started) && result == match started {
                Ok(session) => after_start(session, after),
                Err(error) => AuthorizedStart::Failed(error),
            },
    }
}

/// Starts a session under a reading taken before, and judges it by one taken afterwards.
pub fn start_under_readings<T, F: FnOnce() -> Result<T, CaptureError>>(
    before: Option<bool>,
    after: Option<bool>,
    start: F,
) -> (result: AuthorizedStart<T>)
    requires
        authorization_error(before) is None ==> start.requires(()),
    ensures
        is_start(before, after, start, result),
{
    match with_reading(before, start) {
        Ok(session) => judge_started(session, after),
        Err(error) => AuthorizedStart::Failed(error),
    }
}

/// Starts a session under an authorization, which has to be valid before and afterwards.
/// The lock is not held meanwhile: starting waits for others, and withdrawing must not
/// wait for it. The authorization is read before the start and decides on it by
/// `with_reading`; it is read once more by `confirm_started` for the session that has
/// started. The start has to be possible under a valid reading alone, so a refusal leaves
/// it out.
pub fn start_authorized_with<T, F: FnOnce() -> Result<T, CaptureError>>(
    authorization: &CaptureAuthorization,
    start: F,
) -> (result: AuthorizedStart<T>)
    requires
        authorization.was_read(Some(true)) ==> start.requires(()),
    ensures
        exists|before: Option<bool>| #[trigger]
            authorization.was_read(before) && exists|started: Result<T, CaptureError>| #[trigger]
                call_ensures(with_reading::<T, F>, (before, start), started) && is_outcome(
                    before,
                    start,
                    started,
                ) && match started {
                    Ok(session) => call_ensures(
                        confirm_started::<T>,
                        (authorization, session),
                        result,
                    ),
                    Err(error) => result == AuthorizedStart::<T>::Failed(error),
                },
        exists|before: Option<bool>, after: Option<bool>|
            authorization.was_read(before) && authorization.was_read(after) && #[trigger] is_start(
                before,
                after,
                start,
                result,
            ),
{
    let before = authorization.read();
    let begun = with_reading(before, start);
    assert(call_ensures(with_reading::<T, F>, (before, start), begun));
    match begun {
        Ok(session) => {
            let ghost started = session;
            let result = confirm_started(authorization, session);
            proof {
                let after = choose|after: Option<bool>| #[trigger]
                    authorization.was_read(after) && result == after_start(started, after);
                assert(start.ensures((), Ok(started)));
                assert(is_start(before, after, start, result));
            }
            result
        },
        Err(error) => {
            let result = AuthorizedStart::Failed(error);
            assert(is_start(before, before, start, result));
            result
        },
    }
}

/// What comes of an output whose copy gave `copied`: a copy that failed ends it. Otherwise
/// a capture is encoded and saved where `save` asks for it, and a failure of either stands
/// inside a successful result.
pub open spec fn is_finish<
    T,
    P,
    E: FnOnce() -> Result<T, CaptureError>,
    W: FnOnce(T) -> Result<P, CaptureError>,
>(
    copied: Result<(), CaptureError>,
    save: bool,
    encode: E,
    write: W,
    result: Result<Option<Result<P, CaptureError>>, CaptureError>,
) -> bool {
    match copied {
        Err(error) => result == Err::<Option<Result<P, CaptureError>>, CaptureError>(error),
        Ok(()) => if !save {
            result == Ok::<Option<Result<P, CaptureError>>, CaptureError>(None)
        } else {
            exists|encoded: Result<T, CaptureError>| #[trigger]
                encode.ensures((), encoded) && match encoded {
                    Err(error) => result == Ok::<
                        Option<Result<P, CaptureError>>,
                        CaptureError,
                    >(Some(Err(error))),
                    Ok(encoded) => result is Ok && result->Ok_0 is Some && write.ensures(
                        (encoded,),
                        result->Ok_0->0,
                    ),
                }
        },
    }
}

/// Finishes an output whose copy gave `copied`. Encoding and writing have to be possible
/// only after a copy and where `save` asks for them, so neither is done otherwise.
pub fn finish_output<
    T,
    P,
    E: FnOnce() -> Result<T, CaptureError>,
    W: FnOnce(T) -> Result<P, CaptureError>,
>(copied: Result<(), CaptureError>, save: bool, encode: E, write: W) -> (result: Result<
    Option<Result<P, CaptureError>>,
    CaptureError,
>)
    requires
        copied is Ok && save ==> encode.requires(()),
        forall|encoded: T|
            copied is Ok && save && encode.ensures((), Ok(encoded)) ==> write.requires((encoded,)),
    ensures
        is_finish(copied, save, encode, write, result),
{
    match copied {
        Ok(()) => {},
        Err(error) => {
            return Err(error);
        },
    }
    if !save {
        return Ok(None);
    }
    match encode() {
        Ok(encoded) => Ok(Some(write(encoded))),
        Err(error) => Ok(Some(Err(error))),
    }
}

/// Saves an encoded capture under a reading of the authorization, or refuses it.
pub fn save_with_reading<T, P, W: FnOnce(T) -> Result<P, CaptureError>>(
    reading: Option<bool>,
    encoded: T,
    write: W,
) -> (result: Result<P, CaptureError>)
    requires
        authorization_error(reading) is None ==> write.requires((encoded,)),
    ensures
        match authorization_error(reading) {
            Some(error) => result == Err::<P, CaptureError>(error),
            None => write.ensures((encoded,), result),
        },
{
    match authorization_verdict(reading) {
        Ok(()) => write(encoded),
        Err(error) => Err(error),
    }
}

/// Saves an encoded capture if the authorization is valid, and keeps it so meanwhile. What
/// the lock reads decides, by `save_with_reading`; saving has to be possible under a valid
/// reading alone.
pub fn save_under<T, P, W: FnOnce(T) -> Result<P, CaptureError>>(
    authorization: &CaptureAuthorization,
    encoded: T,
    write: W,
) -> (result: Result<P, CaptureError>)
    requires
        authorization.was_read(Some(true)) ==> write.requires((encoded,)),
    ensures
        exists|reading: Option<bool>| #[trigger]
            authorization.was_read(reading) && call_ensures(
                save_with_reading::<T, P, W>,
                (reading, encoded, write),
                result,
            ) && match authorization_error(reading) {
                Some(error) => result == Err::<P, CaptureError>(error),
                None => write.ensures((encoded,), result),
            },
{
    let guard = lock_flag(&authorization.valid);
    let reading = authorization.reading_of(&guard);
    save_with_reading(reading, encoded, write)
}

/// What comes of an output under two readings of the authorization: one taken before the
/// copy, one before the save.
pub open spec fn is_output<
    T,
    P,
    C: FnOnce() -> Result<(), CaptureError>,
    E: FnOnce() -> Result<T, CaptureError>,
    W: FnOnce(T) -> Result<P, CaptureError>,
>(
    before_copy: Option<bool>,
    before_save: Option<bool>,
    save: bool,
    copy: C,
    encode: E,
    write: W,
    result: Result<Option<Result<P, CaptureError>>, CaptureError>,
) -> bool {
    exists|copied: Result<(), CaptureError>| #[trigger]
        is_outcome(before_copy, copy, copied) && match copied {
            Err(error) => result == Err::<Option<Result<P, CaptureError>>, CaptureError>(
                error,
            ),
            Ok(()) => if !save {
                result == Ok::<Option<Result<P, CaptureError>>, CaptureError>(None)
            } else {
                exists|encoded: Result<T, CaptureError>| #[trigger]
                    encode.ensures((), encoded) && match encoded {
                        Err(error) => result == Ok::<
                            Option<Result<P, CaptureError>>,
                            CaptureError,
                        >(Some(Err(error))),
                        Ok(encoded) => match authorization_error(before_save) {
                            Some(error) => result == Ok::<
                                Option<Result<P, CaptureError>>,
                                CaptureError,
                            >(Some(Err(error))),
                            None => result is Ok && result->Ok_0 is Some && write.ensures(
                                (encoded,),
                                result->Ok_0->0,
                            ),
                        },
                    }
            },
        }
}

/// Copies and saves a capture under two readings of the authorization. Each side effect has
/// to be possible only where its reading is valid and the one before it succeeded.
pub fn output_under_readings<
    T,
    P,
    C: FnOnce() -> Result<(), CaptureError>,
    E: FnOnce() -> Result<T, CaptureError>,
    W: FnOnce(T) -> Result<P, CaptureError>,
>(
    before_copy: Option<bool>,
    before_save: Option<bool>,
    save: bool,
    copy: C,
    encode: E,
    write: W,
) -> (result: Result<Option<Result<P, CaptureError>>, CaptureError>)
    requires
        before_copy == Some(true) ==> copy.requires(()),
        before_copy == Some(true) && copy.ensures((), Ok(())) && save ==> encode.requires(()),
        forall|encoded: T|
            before_copy == Some(true) && copy.ensures((), Ok(())) && save && encode.ensures(
                (),
                Ok(encoded),
            ) && before_save == Some(true) ==> write.requires((encoded,)),
    ensures
        is_output(before_copy, before_save, save, copy, encode, write, result),
{
    let copied = with_reading(before_copy, copy);
    let ghost outcome = copied;
    let run = move |encoded: T| -> (outcome: Result<P, CaptureError>)
        requires
            before_save == Some(true) ==> write.requires((encoded,)),
        ensures
            match authorization_error(before_save) {
                Some(error) => outcome == Err::<P, CaptureError>(error),
                None => write.ensures((encoded,), outcome),
            },
        { save_with_reading(before_save, encoded, write) };
    assert(outcome is Ok ==> outcome->Ok_0 == ());
    let result = finish_output(copied, save, encode, run);
    assert(is_outcome(before_copy, copy, outcome));
    result
}

/// Copies a capture and, where `save` asks for it, saves it. Both need the authorization
/// at the moment at which they begin: `with_current` reads it before the copy, which a
/// refusal leaves out, and `save_under` once more before the encoded capture is written.
/// Nothing is encoded unless it was copied and `save` asks for it, and nothing is written
/// that was not encoded. A capture that cannot be encoded or saved has still been copied:
/// that failure stands inside a successful result.
pub fn output_capture_with<
    T,
    P,
    C: FnOnce() -> Result<(), CaptureError>,
    E: FnOnce() -> Result<T, CaptureError>,
    W: FnOnce(T) -> Result<P, CaptureError>,
>(authorization: &CaptureAuthorization, save: bool, copy: C, encode: E, write: W) -> (result: Result<
    Option<Result<P, CaptureError>>,
    CaptureError,
>)
    requires
        authorization.was_read(Some(true)) ==> copy.requires(()),
        authorization.was_read(Some(true)) && copy.ensures((), Ok(())) && save
            ==> encode.requires(()),
        forall|encoded: T|
            authorization.was_read(Some(true)) && copy.ensures((), Ok(())) && save
                && encode.ensures((), Ok(encoded)) ==> write.requires((encoded,)),
    ensures
        exists|copied: Result<(), CaptureError>| #[trigger]
            call_ensures(CaptureAuthorization::with_current::<(), C>, (authorization, copy), copied)
                && is_authorized_finish(authorization, copied, save, encode, write, result),
        exists|before_copy: Option<bool>, before_save: Option<bool>|
            authorization.was_read(before_copy) && authorization.was_read(before_save)
                && #[trigger] is_output(
                before_copy,
                before_save,
                save,
                copy,
                encode,
                write,
                result,
            ),
{
    let copied = authorization.with_current(copy);
    let ghost outcome = copied;
    assert(call_ensures(
        CaptureAuthorization::with_current::<(), C>,
        (authorization, copy),
        outcome,
    ));
    proof {
        let reading = choose|reading: Option<bool>| #[trigger]
            authorization.was_read(reading) && is_outcome(reading, copy, outcome);
        if outcome is Ok {
            assert(reading == Some(true));
            assert(outcome->Ok_0 == ());
        }
    }
    let result = finish_authorized(authorization, copied, save, encode, write);
    proof {
        let before_copy = choose|reading: Option<bool>| #[trigger]
            authorization.was_read(reading) && is_outcome(reading, copy, outcome);
        let encoded = choose|encoded: Result<T, CaptureError>| #[trigger]
            encode.ensures((), encoded) && match encoded {
                Err(error) => result == Ok::<Option<Result<P, CaptureError>>, CaptureError>(
                    Some(Err(error)),
                ),
                Ok(encoded) => result is Ok && result->Ok_0 is Some && call_ensures(
                    save_under::<T, P, W>,
                    (authorization, encoded, write),
                    result->Ok_0->0,
                ),
            };
        if outcome is Ok && save && encoded is Ok {
            let before_save = choose|reading: Option<bool>| #[trigger]
                authorization.was_read(reading) && match authorization_error(reading) {
                    Some(error) => result->Ok_0->0 == Err::<P, CaptureError>(error),
                    None => write.ensures((encoded->Ok_0,), result->Ok_0->0),
                };
            assert(authorization.was_read(before_save));
            assert(is_output(before_copy, before_save, save, copy, encode, write, result));
        } else {
            assert(is_output(before_copy, before_copy, save, copy, encode, write, result));
        }
    }
    result
}

/// What comes of an output whose copy gave `copied`, where the encoded capture is saved by
/// `save_under`.
pub open spec fn is_authorized_finish<
    T,
    P,
    E: FnOnce() -> Result<T, CaptureError>,
    W: FnOnce(T) -> Result<P, CaptureError>,
>(
    authorization: &CaptureAuthorization,
    copied: Result<(), CaptureError>,
    save: bool,
    encode: E,
    write: W,
    result: Result<Option<Result<P, CaptureError>>, CaptureError>,
) -> bool {
    match copied {
        Err(error) => result == Err::<Option<Result<P, CaptureError>>, CaptureError>(error),
        Ok(()) => if !save {
            result == Ok::<Option<Result<P, CaptureError>>, CaptureError>(None)
        } else {
            exists|encoded: Result<T, CaptureError>| #[trigger]
                encode.ensures((), encoded) && match encoded {
                    Err(error) => result == Ok::<
                        Option<Result<P, CaptureError>>,
                        CaptureError,
                    >(Some(Err(error))),
                    Ok(encoded) => result is Ok && result->Ok_0 is Some && call_ensures(
                        save_under::<T, P, W>,
                        (authorization, encoded, write),
                        result->Ok_0->0,
                    ),
                }
        },
    }
}

/// Finishes an output whose copy gave `copied`, and saves the encoded capture by
/// `save_under`.
pub fn finish_authorized<
    T,
    P,
    E: FnOnce() -> Result<T, CaptureError>,
    W: FnOnce(T) -> Result<P, CaptureError>,
>(
    authorization: &CaptureAuthorization,
    copied: Result<(), CaptureError>,
    save: bool,
    encode: E,
    write: W,
) -> (result: Result<Option<Result<P, CaptureError>>, CaptureError>)
    requires
        copied is Ok && save ==> encode.requires(()),
        forall|encoded: T|
            copied is Ok && save && encode.ensures((), Ok(encoded)) && authorization.was_read(
                Some(true),
            ) ==> write.requires((encoded,)),
    ensures
        is_authorized_finish(authorization, copied, save, encode, write, result),
{
    let run = move |encoded: T| -> (outcome: Result<P, CaptureError>)
        requires
            authorization.was_read(Some(true)) ==> write.requires((encoded,)),
        ensures
            call_ensures(save_under::<T, P, W>, (authorization, encoded, write), outcome),
        { save_under(authorization, encoded, write) };
    finish_output(copied, save, encode, run)
}

/// Number of bytes of an RGBA image.
pub open spec fn rgba_length(width: u32, height: u32) -> int {
    width * height * 4
}

proof fn lemma_rgba_length_fits(width: u32, height: u32)
    ensures
        0 <= width * height <= u64::MAX,
        0 <= rgba_length(width, height) <= u64::MAX * 4,
{
    assert(0 <= width * height <= u32::MAX * u32::MAX) by (nonlinear_arith)
        requires
            0 <= width <= u32::MAX,
            0 <= height <= u32::MAX,
    ;
}

fn rgba_len(width: u32, height: u32) -> (result: u128)
    ensures
        result == rgba_length(width, height),
{
    proof {
        lemma_rgba_length_fits(width, height);
    }
    width as u128 * height as u128 * 4
}

/// The PNG data that `image::codecs::png::PngEncoder` gives for an RGBA image, or `None`
/// where it fails.
pub uninterp spec fn png_encoding(width: u32, height: u32, pixels: Seq<u8>) -> Option<Seq<u8>>;

/// The eight bytes that PNG data starts with.
pub open spec fn png_signature() -> Seq<u8> {
    seq![0x89u8, 0x50u8, 0x4eu8, 0x47u8, 0x0du8, 0x0au8, 0x1au8, 0x0au8]
}

/// The data starts as PNG data does.
pub open spec fn is_png_data(data: Seq<u8>) -> bool {
    data.len() >= 8 && data.take(8) == png_signature()
}

/// `image::codecs::png::PngEncoder::write_image` for an image of four bytes a pixel: the
/// data that it writes. It starts with the PNG signature, and an image without pixels is
/// refused. A buffer of another length makes the encoder panic.
#[verifier::external_body]
fn write_png(width: u32, height: u32, pixels: &[u8]) -> (result: Result<
    Vec<u8>,
    image::ImageError,
>)
    requires
        pixels@.len() == rgba_length(width, height),
    ensures
        match result {
            Ok(encoded) => png_encoding(width, height, pixels@) == Some(encoded@) && is_png_data(
                encoded@,
            ) && width > 0 && height > 0,
            Err(_) => png_encoding(width, height, pixels@) is None,
        },
{
    let mut encoded = Vec::new();
    PngEncoder::new(&mut encoded).write_image(pixels, width, height, ColorType::Rgba8.into())?;
    Ok(encoded)
}

/// What encoding an image gives, where the encoder gives `encoding`.
pub open spec fn capture_png(
    width: u32,
    height: u32,
    length: nat,
    encoding: Option<Seq<u8>>,
) -> Result<Seq<u8>, CaptureError> {
    if rgba_length(width, height) > usize::MAX {
        Err(CaptureError::ImageTooLarge)
    } else if length != rgba_length(width, height) {
        Err(CaptureError::SaveBufferSize)
    } else {
        match encoding {
            Some(encoded) => Ok(encoded),
            None => Err(CaptureError::PngEncoding),
        }
    }
}

/// The buffer of an image that is to be saved has to fit the image.
pub fn check_save_buffer(width: u32, height: u32, length: usize) -> (result: Result<
    (),
    CaptureError,
>)
    ensures
        result == if rgba_length(width, height) > usize::MAX {
            Err::<(), CaptureError>(CaptureError::ImageTooLarge)
        } else if length != rgba_length(width, height) {
            Err::<(), CaptureError>(CaptureError::SaveBufferSize)
        } else {
            Ok::<(), CaptureError>(())
        },
{
    let expected: u128 = rgba_len(width, height);
    if expected > usize::MAX as u128 {
        return Err(CaptureError::ImageTooLarge);
    }
    if length as u128 != expected {
        return Err(CaptureError::SaveBufferSize);
    }
    Ok(())
}

/// Encodes a capture for saving.
pub fn encode_capture_png(width: u32, height: u32, bytes: &[u8]) -> (result: Result<
    Vec<u8>,
    CaptureError,
>)
    ensures
        match result {
            Ok(encoded) => capture_png(
                width,
                height,
                bytes@.len(),
                png_encoding(width, height, bytes@),
            ) == Ok::<Seq<u8>, CaptureError>(encoded@) && is_png_data(encoded@),
            Err(error) => capture_png(
                width,
                height,
                bytes@.len(),
                png_encoding(width, height, bytes@),
            ) == Err::<Seq<u8>, CaptureError>(error),
        },
{
    match check_save_buffer(width, height, bytes.len()) {
        Ok(()) => {},
        Err(error) => {
            return Err(error);
        },
    }
    match write_png(width, height, bytes) {
        Ok(encoded) => Ok(encoded),
        Err(_) => Err(CaptureError::PngEncoding),
    }
}

/// The buffer of an image that goes to the clipboard has to fit the image.
pub fn check_clipboard_buffer(width: u32, height: u32, length: usize) -> (result: Result<
    (),
    CaptureError,
>)
    ensures
        result == if length == rgba_length(width, height) {
            Ok::<(), CaptureError>(())
        } else {
            Err::<(), CaptureError>(CaptureError::FrameBufferSize)
        },
{
    if length as u128 != rgba_len(width, height) {
        return Err(CaptureError::FrameBufferSize);
    }
    Ok(())
}

/// What comes of a copy under a reading: the image goes to the clipboard as it is, and a buffer
/// that does not fit the image does not reach it.
pub open spec fn is_buffer_copy<C: FnOnce(u32, u32, &[u8]) -> Result<(), CaptureError>>(
    reading: Option<bool>,
    width: u32,
    height: u32,
    bytes: &[u8],
    copy: C,
    copied: Result<(), CaptureError>,
) -> bool {
    match authorization_error(reading) {
        Some(error) => copied == Err::<(), CaptureError>(error),
        None => if bytes@.len() == rgba_length(width, height) {
            copy.ensures((width, height, bytes), copied)
        } else {
            copied == Err::<(), CaptureError>(CaptureError::FrameBufferSize)
        },
    }
}

/// Copies an image under a reading of the authorization, or refuses it.
pub fn copy_with_reading<C: FnOnce(u32, u32, &[u8]) -> Result<(), CaptureError>>(
    reading: Option<bool>,
    width: u32,
    height: u32,
    bytes: &[u8],
    copy: C,
) -> (result: Result<(), CaptureError>)
    requires
        authorization_error(reading) is None && bytes@.len() == rgba_length(width, height)
            ==> copy.requires((width, height, bytes)),
    ensures
        is_buffer_copy(reading, width, height, bytes, copy, result),
{
    match authorization_verdict(reading) {
        Ok(()) => {},
        Err(error) => {
            return Err(error);
        },
    }
    match check_clipboard_buffer(width, height, bytes.len()) {
        Ok(()) => copy(width, height, bytes),
        Err(error) => Err(error),
    }
}

/// Copies an image if the authorization is valid, and keeps it so meanwhile. What the lock
/// reads decides, by `copy_with_reading`; copying has to be possible under a valid reading
/// and with a buffer that fits alone.
pub fn copy_under<C: FnOnce(u32, u32, &[u8]) -> Result<(), CaptureError>>(
    authorization: &CaptureAuthorization,
    width: u32,
    height: u32,
    bytes: &[u8],
    copy: C,
) -> (result: Result<(), CaptureError>)
    requires
        authorization.was_read(Some(true)) && bytes@.len() == rgba_length(width, height)
            ==> copy.requires((width, height, bytes)),
    ensures
        exists|reading: Option<bool>| #[trigger]
            authorization.was_read(reading) && call_ensures(
                copy_with_reading::<C>,
                (reading, width, height, bytes, copy),
                result,
            ) && is_buffer_copy(reading, width, height, bytes, copy, result),
{
    let guard = lock_flag(&authorization.valid);
    let reading = authorization.reading_of(&guard);
    copy_with_reading(reading, width, height, bytes, copy)
}

/// What comes of an output whose copy gave `copied` and whose encoding is `encoding`, where
/// the encoded capture is saved by `save_under`.
pub open spec fn is_png_finish<P, W: FnOnce(Vec<u8>) -> Result<P, CaptureError>>(
    authorization: &CaptureAuthorization,
    copied: Result<(), CaptureError>,
    save: bool,
    encoding: Result<Seq<u8>, CaptureError>,
    write: W,
    result: Result<Option<Result<P, CaptureError>>, CaptureError>,
) -> bool {
    match copied {
        Err(error) => result == Err::<Option<Result<P, CaptureError>>, CaptureError>(error),
        Ok(()) => if !save {
            result == Ok::<Option<Result<P, CaptureError>>, CaptureError>(None)
        } else {
            match encoding {
                Err(error) => result == Ok::<Option<Result<P, CaptureError>>, CaptureError>(
                    Some(Err(error)),
                ),
                Ok(data) => result is Ok && result->Ok_0 is Some && exists|encoded: Vec<u8>|
                    #[trigger] encoded@ == data && call_ensures(
                        save_under::<Vec<u8>, P, W>,
                        (authorization, encoded, write),
                        result->Ok_0->0,
                    ),
            }
        },
    }
}

/// Copies a capture to the clipboard by `copy` and, where `save` asks for it, encodes it
/// and saves it by `write`. The image reaches `copy` as it is, and `write` gets its PNG
/// data. A buffer that does not fit the image reaches neither. The authorization is read
/// by `copy_under` before the copy and once more by `save_under` before the save. Nothing is
/// written unless it was copied and `save` asks for it.
pub fn output_capture<
    P,
    C: FnOnce(u32, u32, &[u8]) -> Result<(), CaptureError>,
    W: FnOnce(Vec<u8>) -> Result<P, CaptureError>,
>(
    authorization: &CaptureAuthorization,
    width: u32,
    height: u32,
    bytes: &[u8],
    save: bool,
    copy: C,
    write: W,
) -> (result: Result<Option<Result<P, CaptureError>>, CaptureError>)
    requires
        authorization.was_read(Some(true)) && bytes@.len() == rgba_length(width, height)
            ==> copy.requires((width, height, bytes)),
        forall|encoded: Vec<u8>|
            authorization.was_read(Some(true)) && bytes@.len() == rgba_length(width, height)
                && copy.ensures((width, height, bytes), Ok(())) && save && call_ensures(
                encode_capture_png,
                (width, height, bytes),
                Ok::<Vec<u8>, CaptureError>(encoded),
            ) ==> #[trigger] write.requires((encoded,)),
    ensures
        exists|reading: Option<bool>, copied: Result<(), CaptureError>| #[trigger]
            authorization.was_read(reading) && #[trigger] is_buffer_copy(
                reading,
                width,
                height,
                bytes,
                copy,
                copied,
            ) && call_ensures(
                copy_under::<C>,
                (authorization, width, height, bytes, copy),
                copied,
            ) && is_png_finish(
                authorization,
                copied,
                save,
                capture_png(
                    width,
                    height,
                    bytes@.len(),
                    png_encoding(width, height, bytes@),
                ),
                write,
                result,
            ),
{
    let copied = copy_under(authorization, width, height, bytes, copy);
    let ghost outcome = copied;
    let ghost reading = choose|reading: Option<bool>| #[trigger]
        authorization.was_read(reading) && is_buffer_copy(
            reading,
            width,
            height,
            bytes,
            copy,
            outcome,
        );
    assert(outcome is Ok ==> outcome->Ok_0 == ());
    let encode = || -> (outcome: Result<Vec<u8>, CaptureError>)
        ensures
            call_ensures(encode_capture_png, (width, height, bytes), outcome),
        { encode_capture_png(width, height, bytes) };
    let result = finish_authorized(authorization, copied, save, encode, write);
    assert(is_buffer_copy(reading, width, height, bytes, copy, outcome));
    result
}

/// Data that is saved as it is has to start as PNG data does.
pub fn check_png_payload(png: &[u8]) -> (result: Result<(), CaptureError>)
    ensures
        result == if is_png_data(png@) {
            Ok::<(), CaptureError>(())
        } else {
            Err::<(), CaptureError>(CaptureError::PngPayload)
        },
{
    if png.len() < 8 {
        return Err(CaptureError::PngPayload);
    }
    if png[0] == 0x89 && png[1] == 0x50 && png[2] == 0x4e && png[3] == 0x47 && png[4] == 0x0d
        && png[5] == 0x0a && png[6] == 0x1a && png[7] == 0x0a {
        assert(png@.take(8) =~= png_signature());
        Ok(())
    } else {
        assert(!is_png_data(png@)) by {
            if is_png_data(png@) {
                assert forall|i: int| 0 <= i < 8 implies png@[i] == png_signature()[i] by {
                    assert(png@.take(8)[i] == png@[i]);
                }
                assert(png@[0] == 0x89 && png@[1] == 0x50 && png@[2] == 0x4e && png@[3] == 0x47
                    && png@[4] == 0x0d && png@[5] == 0x0a && png@[6] == 0x1a && png@[7] == 0x0a);
            }
        }
        Err(CaptureError::PngPayload)
    }
}

/// An image read from the clipboard, checked for saving: its sides have to fit in 32 bits
/// and its buffer has to fit the image. The size of the buffer stops at the largest
/// number.
pub fn check_clipboard_image(width: usize, height: usize, length: usize) -> (result: Result<
    (u32, u32),
    CaptureError,
>)
    ensures
        result == if width > u32::MAX {
            Err::<(u32, u32), CaptureError>(CaptureError::ImageTooWide)
        } else if height > u32::MAX {
            Err::<(u32, u32), CaptureError>(CaptureError::ImageTooHigh)
        } else if length != crate::numeric::min_int(width * height * 4, usize::MAX as int) {
            Err::<(u32, u32), CaptureError>(CaptureError::SaveBufferSize)
        } else {
            Ok::<(u32, u32), CaptureError>((width as u32, height as u32))
        },
{
    if width > 0xffff_ffff {
        return Err(CaptureError::ImageTooWide);
    }
    if height > 0xffff_ffff {
        return Err(CaptureError::ImageTooHigh);
    }
    let expected: u128 = rgba_len(width as u32, height as u32);
    let expected: u128 = if expected > usize::MAX as u128 {
        usize::MAX as u128
    } else {
        expected
    };
    if length as u128 != expected {
        return Err(CaptureError::SaveBufferSize);
    }
    Ok((width as u32, height as u32))
}

/// How an operation on the clipboard is repeated: `attempts` times, with a pause in
/// between.
#[derive(Clone, Copy, Debug, PartialEq, Eq, Structural)]
pub struct RetryPlan {
    pub attempts: u32,
    /// In nanoseconds.
    pub pause: u64,
}

impl RetryPlan {
    /// The plan for writing an image to the clipboard.
    pub fn for_copy() -> (result: Self)
        ensures
            result == (RetryPlan { attempts: 3, pause: 30_000_000 }),
    {
        RetryPlan { attempts: 3, pause: 30_000_000 }
    }

    /// The plan for opening the clipboard to read from it.
    pub fn for_read() -> (result: Self)
        ensures
            result == (RetryPlan { attempts: 5, pause: 5_000_000 }),
    {
        RetryPlan { attempts: 5, pause: 5_000_000 }
    }

    /// The pause after the failed attempt number `attempt`, counted from zero, or `None`
    /// after the last one.
    pub fn pause_after(&self, attempt: u32) -> (result: Option<u64>)
        ensures
            result == if attempt + 1 < self.attempts {
                Some(self.pause)
            } else {
                None
            },
    {
        if attempt < u32::MAX && attempt + 1 < self.attempts {
            Some(self.pause)
        } else {
            None
        }
    }
}

/// An output under an authorization that was withdrawn before, or cannot be read, gives
/// the refusal and nothing else.
pub proof fn law_withdrawal_prevents_the_output<
    T,
    P,
    C: FnOnce() -> Result<(), CaptureError>,
    E: FnOnce() -> Result<T, CaptureError>,
    W: FnOnce(T) -> Result<P, CaptureError>,
>(
    before_copy: Option<bool>,
    before_save: Option<bool>,
    save: bool,
    copy: C,
    encode: E,
    write: W,
    result: Result<Option<Result<P, CaptureError>>, CaptureError>,
)
    requires
        before_copy != Some(true),
        is_output(before_copy, before_save, save, copy, encode, write, result),
    ensures
        result is Err,
        authorization_error(before_copy) == Some(result->Err_0),
{
}

/// A withdrawal between the copy and the save keeps the copy and skips only the save.
pub proof fn law_withdrawal_skips_only_the_save<
    T,
    P,
    C: FnOnce() -> Result<(), CaptureError>,
    E: FnOnce() -> Result<T, CaptureError>,
    W: FnOnce(T) -> Result<P, CaptureError>,
>(
    before_save: Option<bool>,
    copy: C,
    encode: E,
    write: W,
    result: Result<Option<Result<P, CaptureError>>, CaptureError>,
)
    requires
        before_save != Some(true),
        forall|copied: Result<(), CaptureError>| copy.ensures((), copied) ==> copied is Ok,
        is_output(Some(true), before_save, true, copy, encode, write, result),
    ensures
        result is Ok,
        result->Ok_0 is Some,
        result->Ok_0->0 is Err,
        authorization_error(before_save) == Some(result->Ok_0->0->Err_0) || encode.ensures(
            (),
            Err(result->Ok_0->0->Err_0),
        ),
{
}

/// A withdrawn authorization, and one that cannot be read, refuse every side effect.
pub proof fn law_only_a_valid_authorization_passes(reading: Option<bool>)
    ensures
        authorization_error(reading) is None <==> reading == Some(true),
{
}

/// A withdrawn authorization is told apart from one that cannot be read.
pub proof fn law_refusals_say_why(reading: Option<bool>)
    ensures
        reading == Some(false) ==> authorization_error(reading) == Some(CaptureError::Revoked),
        reading is None ==> authorization_error(reading) == Some(
            CaptureError::AuthorizationUnreadable,
        ),
        authorization_error(reading) == Some(CaptureError::Revoked) ==> reading == Some(false),
{
}

/// Under a valid authorization a side effect gives its own result; otherwise there is none of
/// its results.
pub proof fn law_valid_readings_let_side_effects_through<
    T,
    W: FnOnce() -> Result<T, CaptureError>,
>(reading: Option<bool>, write: W, result: Result<T, CaptureError>)
    requires
        is_outcome(reading, write, result),
    ensures
        reading == Some(true) ==> write.ensures((), result),
        reading == Some(false) ==> result == Err::<T, CaptureError>(CaptureError::Revoked),
        reading is None ==> result == Err::<T, CaptureError>(
            CaptureError::AuthorizationUnreadable,
        ),
{
}

/// A start that is refused never happens; a session that has started is kept only where the
/// authorization is still valid, and is handed back to be stopped otherwise; a start that
/// fails gives its own error.
pub proof fn law_sessions_are_kept_while_valid<T, F: FnOnce() -> Result<T, CaptureError>>(
    before: Option<bool>,
    after: Option<bool>,
    start: F,
    result: AuthorizedStart<T>,
)
    requires
        is_start(before, after, start, result),
    ensures
        before == Some(false) ==> result == AuthorizedStart::<T>::Failed(CaptureError::Revoked),
        before is None ==> result == AuthorizedStart::<T>::Failed(
            CaptureError::AuthorizationUnreadable,
        ),
        result is Started ==> before == Some(true) && after == Some(true) && start.ensures(
            (),
            Ok(result->Started_0),
        ),
        result is Withdrawn ==> before == Some(true) && after != Some(true) && start.ensures(
            (),
            Ok(result->Withdrawn_0),
        ),
        result is Withdrawn && after == Some(false) ==> result->Withdrawn_1
            == CaptureError::Revoked,
        result is Failed && before == Some(true) ==> start.ensures((), Err(result->Failed_0)),
{
}

/// A copy that fails ends the output with its error; without a save the output ends with the
/// copy; with one, what was encoded is what is written, and its result is handed on.
pub proof fn law_outputs_go_copy_encode_write<
    T,
    P,
    C: FnOnce() -> Result<(), CaptureError>,
    E: FnOnce() -> Result<T, CaptureError>,
    W: FnOnce(T) -> Result<P, CaptureError>,
>(
    save: bool,
    copy: C,
    encode: E,
    write: W,
    result: Result<Option<Result<P, CaptureError>>, CaptureError>,
)
    requires
        is_output(Some(true), Some(true), save, copy, encode, write, result),
    ensures
        result is Err ==> copy.ensures((), Err(result->Err_0)),
        result is Ok ==> copy.ensures((), Ok(())),
        result is Ok ==> (result->Ok_0 is Some <==> save),
        result is Ok && save && result->Ok_0->0 is Ok ==> exists|encoded: T| #[trigger]
            encode.ensures((), Ok(encoded)) && write.ensures((encoded,), result->Ok_0->0),
        result is Ok && save && result->Ok_0->0 is Err ==> encode.ensures(
            (),
            Err(result->Ok_0->0->Err_0),
        ) || exists|encoded: T| #[trigger]
            encode.ensures((), Ok(encoded)) && write.ensures((encoded,), result->Ok_0->0),
{
    let copied = choose|copied: Result<(), CaptureError>| #[trigger]
        is_outcome(Some(true), copy, copied) && match copied {
            Err(error) => result == Err::<Option<Result<P, CaptureError>>, CaptureError>(
                error,
            ),
            Ok(()) => if !save {
                result == Ok::<Option<Result<P, CaptureError>>, CaptureError>(None)
            } else {
                exists|encoded: Result<T, CaptureError>| #[trigger]
                    encode.ensures((), encoded) && match encoded {
                        Err(error) => result == Ok::<
                            Option<Result<P, CaptureError>>,
                            CaptureError,
                        >(Some(Err(error))),
                        Ok(encoded) => match authorization_error(Some(true)) {
                            Some(error) => result == Ok::<
                                Option<Result<P, CaptureError>>,
                                CaptureError,
                            >(Some(Err(error))),
                            None => result is Ok && result->Ok_0 is Some && write.ensures(
                                (encoded,),
                                result->Ok_0->0,
                            ),
                        },
                    }
            },
        };
    assert(copied is Ok ==> copied->Ok_0 == ());
}

/// The same holds of an output whose copy has been made: a failed copy is its result, a copy
/// without a save ends it, and a save writes what was encoded.
pub proof fn law_finished_outputs_follow_the_copy<
    T,
    P,
    E: FnOnce() -> Result<T, CaptureError>,
    W: FnOnce(T) -> Result<P, CaptureError>,
>(
    copied: Result<(), CaptureError>,
    save: bool,
    encode: E,
    write: W,
    result: Result<Option<Result<P, CaptureError>>, CaptureError>,
)
    requires
        is_finish(copied, save, encode, write, result),
    ensures
        result is Err <==> copied is Err,
        result is Err ==> result->Err_0 == copied->Err_0,
        result is Ok ==> (result->Ok_0 is Some <==> save),
        result is Ok && save ==> encode.ensures((), Err(result->Ok_0->0->Err_0)) && result->Ok_0->0
            is Err || exists|encoded: T| #[trigger]
            encode.ensures((), Ok(encoded)) && write.ensures((encoded,), result->Ok_0->0),
{
}

/// A capture that goes to a file is the PNG data of the copied image, and nothing goes there
/// without a copy, without being asked for, or where it could not be encoded.
pub proof fn law_saved_captures_were_copied<P, W: FnOnce(Vec<u8>) -> Result<P, CaptureError>>(
    authorization: &CaptureAuthorization,
    copied: Result<(), CaptureError>,
    save: bool,
    encoding: Result<Seq<u8>, CaptureError>,
    write: W,
    result: Result<Option<Result<P, CaptureError>>, CaptureError>,
)
    requires
        is_png_finish(authorization, copied, save, encoding, write, result),
    ensures
        result is Err <==> copied is Err,
        result is Err ==> result->Err_0 == copied->Err_0,
        result is Ok ==> (result->Ok_0 is Some <==> save),
        result is Ok && save && encoding is Err ==> result->Ok_0->0 == Err::<P, CaptureError>(
            encoding->Err_0,
        ),
        result is Ok && save && encoding is Ok ==> exists|encoded: Vec<u8>| #[trigger]
            encoded@ == encoding->Ok_0 && call_ensures(
                save_under::<Vec<u8>, P, W>,
                (authorization, encoded, write),
                result->Ok_0->0,
            ),
{
}

/// An image has four bytes for each of its pixels, row by row.
pub proof fn law_images_have_four_bytes_a_pixel(width: u32, height: u32)
    ensures
        rgba_length(width, 0) == 0,
        rgba_length(width, 1) == 4 * width,
        height < u32::MAX ==> rgba_length(width, (height + 1) as u32) == rgba_length(width, height)
            + 4 * width,
        rgba_length(width, height) == rgba_length(height, width),
{
    let w = width as int;
    let h = height as int;
    assert(w * (h + 1) == w * h + w) by (nonlinear_arith);
    assert(w * h == h * w) by (nonlinear_arith);
    assert(w * 0 == 0 && w * 1 == w);
}

/// Data is taken for PNG data by its first eight bytes alone.
pub proof fn law_png_data_is_known_by_its_start(data: Seq<u8>, more: Seq<u8>)
    ensures
        is_png_data(data) <==> data.len() >= 8 && data[0] == 0x89 && data[1] == 0x50 && data[2]
            == 0x4e && data[3] == 0x47 && data[4] == 0x0d && data[5] == 0x0a && data[6] == 0x1a
            && data[7] == 0x0a,
        is_png_data(data) ==> is_png_data(data + more),
        is_png_data(png_signature() + more),
{
    let start = data.take(8);
    if data.len() >= 8 {
        assert(start.len() == 8);
        if data[0] == 0x89 && data[1] == 0x50 && data[2] == 0x4e && data[3] == 0x47 && data[4]
            == 0x0d && data[5] == 0x0a && data[6] == 0x1a && data[7] == 0x0a {
            assert(start =~= png_signature());
        }
        if start == png_signature() {
            assert(start[0] == 0x89 && start[1] == 0x50 && start[2] == 0x4e && start[3] == 0x47
                && start[4] == 0x0d && start[5] == 0x0a && start[6] == 0x1a && start[7] == 0x0a);
        }
        assert((data + more).take(8) =~= start);
    }
    assert((png_signature() + more).take(8) =~= png_signature());
}

/// An image is encoded where its buffer has four bytes for each pixel, such a buffer can be
/// held, and the encoder takes it; each of the three has an error of its own.
pub proof fn law_fitting_images_are_encoded(
    width: u32,
    height: u32,
    length: nat,
    encoding: Option<Seq<u8>>,
)
    ensures
        ({
            let needed = width * height * 4;
            let result = capture_png(width, height, length, encoding);
            &&& result is Ok <==> needed <= usize::MAX && length == needed && encoding is Some
            &&& result is Ok ==> result->Ok_0 == encoding->0
            &&& needed > usize::MAX ==> result == Err::<Seq<u8>, CaptureError>(
                CaptureError::ImageTooLarge,
            )
            &&& needed <= usize::MAX && length != needed ==> result == Err::<
                Seq<u8>,
                CaptureError,
            >(CaptureError::SaveBufferSize)
            &&& needed <= usize::MAX && length == needed && encoding is None ==> result == Err::<
                Seq<u8>,
                CaptureError,
            >(CaptureError::PngEncoding)
        }),
{
}

/// An image reaches the clipboard as it is exactly where the authorization is valid and its
/// buffer fits.
pub proof fn law_fitting_images_are_copied<
    C: FnOnce(u32, u32, &[u8]) -> Result<(), CaptureError>,
>(
    reading: Option<bool>,
    width: u32,
    height: u32,
    bytes: &[u8],
    copy: C,
    copied: Result<(), CaptureError>,
)
    requires
        is_buffer_copy(reading, width, height, bytes, copy, copied),
    ensures
        reading == Some(true) && bytes@.len() == width * height * 4 ==> copy.ensures(
            (width, height, bytes),
            copied,
        ),
        reading == Some(true) && bytes@.len() != width * height * 4 ==> copied == Err::<
            (),
            CaptureError,
        >(CaptureError::FrameBufferSize),
        reading == Some(false) ==> copied == Err::<(), CaptureError>(CaptureError::Revoked),
        reading is None ==> copied == Err::<(), CaptureError>(
            CaptureError::AuthorizationUnreadable,
        ),
{
}

} // verus!
