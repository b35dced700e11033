//! Which window events ask for a new look at Teams' windows.

use vstd::prelude::*;

verus! {

pub const EVENT_SYSTEM_FOREGROUND: u32 = 0x0003;

pub const EVENT_SYSTEM_MOVESIZESTART: u32 = 0x000a;

pub const EVENT_SYSTEM_MOVESIZEEND: u32 = 0x000b;

pub const EVENT_SYSTEM_MINIMIZESTART: u32 = 0x0016;

pub const EVENT_SYSTEM_MINIMIZEEND: u32 = 0x0017;

pub const EVENT_OBJECT_CREATE: u32 = 0x8000;

pub const EVENT_OBJECT_DESTROY: u32 = 0x8001;

pub const EVENT_OBJECT_SHOW: u32 = 0x8002;

pub const EVENT_OBJECT_HIDE: u32 = 0x8003;

pub const EVENT_OBJECT_REORDER: u32 = 0x8004;

pub const EVENT_OBJECT_FOCUS: u32 = 0x8005;

pub const EVENT_OBJECT_STATECHANGE: u32 = 0x800a;

pub const EVENT_OBJECT_LOCATIONCHANGE: u32 = 0x800b;

/// Events of the window system itself that ask for a new look.
pub open spec fn is_system_change(event: u32) -> bool {
    ||| event == EVENT_SYSTEM_FOREGROUND
    ||| event == EVENT_SYSTEM_MINIMIZESTART
    ||| event == EVENT_SYSTEM_MINIMIZEEND
    ||| event == EVENT_SYSTEM_MOVESIZEEND
}

/// Events of an object that ask for a new look if the object is a window.
pub open spec fn is_object_change(event: u32) -> bool {
    ||| event == EVENT_OBJECT_CREATE
    ||| event == EVENT_OBJECT_DESTROY
    ||| event == EVENT_OBJECT_SHOW
    ||| event == EVENT_OBJECT_HIDE
    ||| event == EVENT_OBJECT_REORDER
    ||| event == EVENT_OBJECT_STATECHANGE
    ||| event == EVENT_OBJECT_LOCATIONCHANGE
}

/// The event is about a window itself, not about a part of it.
pub open spec fn is_window_object(object_id: i32, child_id: i32) -> bool {
    object_id == 0 && child_id == 0
}

/// Whether an event asks for a new look at the windows.
pub fn win_event_requires_scan(event: u32, object_id: i32, child_id: i32) -> (result: bool)
    ensures
        result == (is_system_change(event) || (is_object_change(event) && is_window_object(
            object_id,
            child_id,
        ))),
{
    if event == EVENT_SYSTEM_FOREGROUND || event == EVENT_SYSTEM_MINIMIZESTART || event
        == EVENT_SYSTEM_MINIMIZEEND || event == EVENT_SYSTEM_MOVESIZEEND {
        return true;
    }
    (event == EVENT_OBJECT_CREATE || event == EVENT_OBJECT_DESTROY || event == EVENT_OBJECT_SHOW
        || event == EVENT_OBJECT_HIDE || event == EVENT_OBJECT_REORDER || event
        == EVENT_OBJECT_STATECHANGE || event == EVENT_OBJECT_LOCATIONCHANGE) && object_id == 0
        && child_id == 0
}

/// Events of the window system that change where a window stands.
pub open spec fn is_system_move(event: u32) -> bool {
    ||| event == EVENT_SYSTEM_MOVESIZESTART
    ||| event == EVENT_SYSTEM_MOVESIZEEND
    ||| event == EVENT_SYSTEM_MINIMIZESTART
    ||| event == EVENT_SYSTEM_MINIMIZEEND
}

/// Events of an object that change where it stands.
pub open spec fn is_object_move(event: u32) -> bool {
    ||| event == EVENT_OBJECT_SHOW
    ||| event == EVENT_OBJECT_HIDE
    ||| event == EVENT_OBJECT_DESTROY
    ||| event == EVENT_OBJECT_LOCATIONCHANGE
}

/// Whether an event may have moved a window that the bar follows.
pub fn win_event_is_window_geometry_follow(event: u32, object_id: i32, child_id: i32) -> (result:
    bool)
    ensures
        result == (is_system_move(event) || (is_object_move(event) && is_window_object(
            object_id,
            child_id,
        ))),
{
    if event == EVENT_SYSTEM_MOVESIZESTART || event == EVENT_SYSTEM_MOVESIZEEND || event
        == EVENT_SYSTEM_MINIMIZESTART || event == EVENT_SYSTEM_MINIMIZEEND {
        return true;
    }
    (event == EVENT_OBJECT_SHOW || event == EVENT_OBJECT_HIDE || event == EVENT_OBJECT_DESTROY
        || event == EVENT_OBJECT_LOCATIONCHANGE) && object_id == 0 && child_id == 0
}

/// Whether an event still asks for a new look once the bar has followed the window: a
/// mere move does not.
pub fn win_event_requires_scan_after_follow(
    event: u32,
    object_id: i32,
    child_id: i32,
    followed: bool,
) -> (result: bool)
    ensures
        result == ((is_system_change(event) || (is_object_change(event) && is_window_object(
            object_id,
            child_id,
        ))) && !(event == EVENT_OBJECT_LOCATIONCHANGE && followed)),
{
    win_event_requires_scan(event, object_id, child_id) && !(event == EVENT_OBJECT_LOCATIONCHANGE
        && followed)
}

/// Windows that come, go, show, hide, change their order, state or place, and a window that
/// comes to the front, is minimized or restored, or was moved, ask for a new look; parts of
/// windows and other events do not.
pub proof fn law_changes_ask_for_a_look(event: u32, object_id: i32, child_id: i32)
    ensures
        is_system_change(event) <==> event == 3 || event == 0xb || event == 0x16 || event == 0x17,
        is_object_change(event) <==> 0x8000 <= event <= 0x8004 || event == 0x800a || event
            == 0x800b,
        is_window_object(object_id, child_id) <==> object_id == 0 && child_id == 0,
        !(is_system_change(event) && is_object_change(event)),
{
}

/// A window that is moved, sized, minimized, restored, shown, hidden or destroyed has to be
/// followed.
pub proof fn law_moves_are_followed(event: u32)
    ensures
        is_system_move(event) <==> event == 0xa || event == 0xb || event == 0x16 || event == 0x17,
        is_object_move(event) <==> event == 0x8001 || event == 0x8002 || event == 0x8003 || event
            == 0x800b,
        is_object_move(event) ==> is_object_change(event),
{
}

} // verus!
