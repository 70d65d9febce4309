use vstd::prelude::*;

verus! {

/// Virtual-key code of the left Windows key.
pub const VK_LWIN: u32 = 0x5B;

/// Virtual-key code of the right Windows key.
pub const VK_RWIN: u32 = 0x5C;

/// Message sent when a key goes down.
pub const WM_KEYDOWN: u32 = 0x0100;

/// Message sent when a key comes up.
pub const WM_KEYUP: u32 = 0x0101;

/// Message sent when a key goes down while Alt is held.
pub const WM_SYSKEYDOWN: u32 = 0x0104;

/// Message sent when a key comes up while Alt is held.
pub const WM_SYSKEYUP: u32 = 0x0105;

/// How far above the bottom of the screen the window is put, so that it
/// does not cover the taskbar.
pub const TASKBAR_OFFSET: i32 = 55;

/// What the keyboard hook does with one event.
#[derive(Clone, Copy, Debug, PartialEq, Eq)]
pub enum KeyVerdict {
    /// Show or hide the window, and keep the event from the system.
    Toggle,
    /// Keep the event from the system and do nothing else.
    Swallow,
    /// Hand the event on to the next hook.
    Forward,
}

/// What to do with the window when it is toggled.
#[derive(Clone, Copy, Debug, PartialEq, Eq)]
pub enum WindowAction {
    /// Hide it.
    Hide,
    /// Move its top left corner to `position`, where one is given, then show
    /// and focus it.
    Show { position: Option<(i32, i32)> },
}

/// Whether a virtual-key code is that of a Windows key.
pub open spec fn is_windows_key(vk_code: u32) -> bool {
    vk_code == VK_LWIN || vk_code == VK_RWIN
}

/// The verdict on a keyboard event. Only events that the hook may handle
/// (`code >= 0`) and that concern a Windows key are kept from the system:
/// the key going down toggles the window, the key coming up is swallowed.
pub open spec fn verdict(code: i32, vk_code: u32, message: u32) -> KeyVerdict {
    if code >= 0 && is_windows_key(vk_code) && (message == WM_KEYDOWN || message == WM_SYSKEYDOWN) {
        KeyVerdict::Toggle
    } else if code >= 0 && is_windows_key(vk_code) && (message == WM_KEYUP || message
        == WM_SYSKEYUP) {
        KeyVerdict::Swallow
    } else {
        KeyVerdict::Forward
    }
}

/// Decides what the keyboard hook does with one event.
pub fn classify_key(code: i32, vk_code: u32, message: u32) -> (r: KeyVerdict)
    ensures
        r == verdict(code, vk_code, message),
{
    if code >= 0 && (vk_code == VK_LWIN || vk_code == VK_RWIN) {
        if message == WM_KEYDOWN || message == WM_SYSKEYDOWN {
            return KeyVerdict::Toggle;
        }
        if message == WM_KEYUP || message == WM_SYSKEYUP {
            return KeyVerdict::Swallow;
        }
    }
    KeyVerdict::Forward
}

/// Where the window goes on a screen of this height: at the left edge, its
/// bottom `TASKBAR_OFFSET` above the bottom of the screen. There is no such
/// place where a height is unknown or the place is not a 32-bit coordinate.
pub open spec fn resting_place(screen_height: Option<u32>, window_height: Option<u32>) -> Option<
    (i32, i32),
> {
    match (screen_height, window_height) {
        (Some(screen), Some(window)) => {
            let y = screen - window - TASKBAR_OFFSET;
            if i32::MIN <= y <= i32::MAX {
                Some((0i32, y as i32))
            } else {
                None
            }
        },
        _ => None,
    }
}

/// What toggling does: a visible window is hidden, a hidden one is put at
/// its resting place and shown.
pub open spec fn toggled(
    visible: bool,
    screen_height: Option<u32>,
    window_height: Option<u32>,
) -> WindowAction {
    if visible {
        WindowAction::Hide
    } else {
        WindowAction::Show { position: resting_place(screen_height, window_height) }
    }
}

/// Decides what to do with the window when the hot key is pressed, from
/// whether it is visible and the heights of the screen and of the window,
/// where they are known.
pub fn toggle_window(visible: bool, screen_height: Option<u32>, window_height: Option<u32>) -> (r:
    WindowAction)
    ensures
        r == toggled(visible, screen_height, window_height),
{
    if visible {
        return WindowAction::Hide;
    }
    let position = match (screen_height, window_height) {
        (Some(screen), Some(window)) => {
            let y: i64 = screen as i64 - window as i64 - TASKBAR_OFFSET as i64;
            if y < i32::MIN as i64 || y > i32::MAX as i64 {
                None
            } else {
                Some((0i32, y as i32))
            }
        },
        _ => None,
    };
    WindowAction::Show { position }
}

} // verus!
