//! Input types: mouse buttons, modifiers, cursor styles, keys, and the
//! translation of XKB keysyms into logical key values.
use vstd::prelude::*;
use crate::text::{chars_of, string_from_chars};

verus! {

/// Mouse button identifier.
#[derive(Debug, Clone, Copy, PartialEq, Eq, Structural)]
pub enum MouseButton {
    Left,
    Right,
    Middle,
}

/// Keyboard modifier state.
#[derive(Debug, Clone, Copy, Default, PartialEq, Eq, Structural)]
pub struct Modifiers {
    pub shift: bool,
    pub ctrl: bool,
    pub alt: bool,
    pub super_: bool,
}

/// Cursor style an element can request when hovered.
#[derive(Debug, Clone, Copy, PartialEq, Eq, Structural)]
pub enum CursorStyle {
    Default,
    Pointer,
    Text,
    Grab,
    Grabbing,
    NotAllowed,
}

/// A keyboard key, as its raw keysym.
#[derive(Debug, Clone, Copy, PartialEq, Eq, Structural)]
pub struct Key(pub u32);

/// Logical value of a key press.
#[derive(Debug, Clone, PartialEq)]
pub enum KeyValue {
    Enter,
    Tab,
    Escape,
    Backspace,
    Delete,
    ArrowUp,
    ArrowDown,
    ArrowLeft,
    ArrowRight,
    Home,
    End,
    PageUp,
    PageDown,
    Space,
    Insert,
    /// Function key F1-F24.
    F(u8),
    Shift,
    Control,
    Alt,
    Super,
    CapsLock,
    NumLock,
    MediaPlay,
    MediaPause,
    MediaStop,
    MediaNext,
    MediaPrev,
    AudioVolumeUp,
    AudioVolumeDown,
    AudioVolumeMute,
    /// A printable character.
    Character(String),
    /// Any other keysym.
    Unknown(u32),
}

/// What an event handler asks of further propagation.
#[derive(Debug, Clone, Copy, PartialEq, Eq, Structural)]
pub enum EventResult {
    /// Keep propagating.
    Continue,
    /// Stop propagation.
    Stop,
    /// Stop propagation and suppress the default action.
    StopAndPreventDefault,
    /// Suppress the default action, keep propagating.
    PreventDefault,
}

/// XKB keysyms of the named keys (from the X keysym definitions).
pub const XK_BACKSPACE: u32 = 0xff08;
pub const XK_TAB: u32 = 0xff09;
pub const XK_RETURN: u32 = 0xff0d;
pub const XK_ESCAPE: u32 = 0xff1b;
pub const XK_HOME: u32 = 0xff50;
pub const XK_LEFT: u32 = 0xff51;
pub const XK_UP: u32 = 0xff52;
pub const XK_RIGHT: u32 = 0xff53;
pub const XK_DOWN: u32 = 0xff54;
pub const XK_PAGE_UP: u32 = 0xff55;
pub const XK_PAGE_DOWN: u32 = 0xff56;
pub const XK_END: u32 = 0xff57;
pub const XK_INSERT: u32 = 0xff63;
pub const XK_DELETE: u32 = 0xffff;
pub const XK_SPACE: u32 = 0x20;

/// The key value named by a keysym, for every keysym other than the
/// printable characters (which `keysym_to_key_value` turns into text).
pub open spec fn named_key(k: u32) -> Option<KeyValue> {
    if k == 0xff0d {
        Some(KeyValue::Enter)
    } else if k == 0xff09 {
        Some(KeyValue::Tab)
    } else if k == 0xff1b {
        Some(KeyValue::Escape)
    } else if k == 0xff08 {
        Some(KeyValue::Backspace)
    } else if k == 0xffff {
        Some(KeyValue::Delete)
    } else if k == 0xff52 {
        Some(KeyValue::ArrowUp)
    } else if k == 0xff54 {
        Some(KeyValue::ArrowDown)
    } else if k == 0xff51 {
        Some(KeyValue::ArrowLeft)
    } else if k == 0xff53 {
        Some(KeyValue::ArrowRight)
    } else if k == 0xff50 {
        Some(KeyValue::Home)
    } else if k == 0xff57 {
        Some(KeyValue::End)
    } else if k == 0xff55 {
        Some(KeyValue::PageUp)
    } else if k == 0xff56 {
        Some(KeyValue::PageDown)
    } else if k == 0x20 {
        Some(KeyValue::Space)
    } else if k == 0xff63 {
        Some(KeyValue::Insert)
    } else if 0xffbe <= k <= 0xffd5 {
        Some(KeyValue::F((k - 0xffbe + 1) as u8))
    } else if k == 0xffe1 || k == 0xffe2 {
        Some(KeyValue::Shift)
    } else if k == 0xffe3 || k == 0xffe4 {
        Some(KeyValue::Control)
    } else if k == 0xffe9 || k == 0xffea {
        Some(KeyValue::Alt)
    } else if k == 0xffeb || k == 0xffec {
        Some(KeyValue::Super)
    } else if k == 0xffe5 {
        Some(KeyValue::CapsLock)
    } else if k == 0xff7f {
        Some(KeyValue::NumLock)
    } else if k == 0x1008ff14 {
        Some(KeyValue::MediaPlay)
    } else if k == 0x1008ff31 {
        Some(KeyValue::MediaPause)
    } else if k == 0x1008ff15 {
        Some(KeyValue::MediaStop)
    } else if k == 0x1008ff17 {
        Some(KeyValue::MediaNext)
    } else if k == 0x1008ff16 {
        Some(KeyValue::MediaPrev)
    } else if k == 0x1008ff13 {
        Some(KeyValue::AudioVolumeUp)
    } else if k == 0x1008ff11 {
        Some(KeyValue::AudioVolumeDown)
    } else if k == 0x1008ff12 {
        Some(KeyValue::AudioVolumeMute)
    } else if 0x21 <= k <= 0x7e {
        None
    } else {
        Some(KeyValue::Unknown(k))
    }
}

/// Convert an XKB keysym into a key value: the named keys, the function
/// keys F1-F24, modifiers and media keys; printable ASCII as a one-character
/// string; anything else as `Unknown`.
pub fn keysym_to_key_value(keysym: u32) -> (r: KeyValue)
    ensures
        match named_key(keysym) {
            Some(v) => r == v,
            None => r matches KeyValue::Character(s) && s@ == seq![keysym as char],
        },
{
    match keysym {
        0xff0d => KeyValue::Enter,
        0xff09 => KeyValue::Tab,
        0xff1b => KeyValue::Escape,
        0xff08 => KeyValue::Backspace,
        0xffff => KeyValue::Delete,
        0xff52 => KeyValue::ArrowUp,
        0xff54 => KeyValue::ArrowDown,
        0xff51 => KeyValue::ArrowLeft,
        0xff53 => KeyValue::ArrowRight,
        0xff50 => KeyValue::Home,
        0xff57 => KeyValue::End,
        0xff55 => KeyValue::PageUp,
        0xff56 => KeyValue::PageDown,
        0x0020 => KeyValue::Space,
        0xff63 => KeyValue::Insert,
        0xffe1 | 0xffe2 => KeyValue::Shift,
        0xffe3 | 0xffe4 => KeyValue::Control,
        0xffe9 | 0xffea => KeyValue::Alt,
        0xffeb | 0xffec => KeyValue::Super,
        0xffe5 => KeyValue::CapsLock,
        0xff7f => KeyValue::NumLock,
        0x1008ff14 => KeyValue::MediaPlay,
        0x1008ff31 => KeyValue::MediaPause,
        0x1008ff15 => KeyValue::MediaStop,
        0x1008ff17 => KeyValue::MediaNext,
        0x1008ff16 => KeyValue::MediaPrev,
        0x1008ff13 => KeyValue::AudioVolumeUp,
        0x1008ff11 => KeyValue::AudioVolumeDown,
        0x1008ff12 => KeyValue::AudioVolumeMute,
        k => {
            if 0xffbe <= k && k <= 0xffd5 {
                KeyValue::F((k - 0xffbe + 1) as u8)
            } else if 0x21 <= k && k <= 0x7e {
                let c = (k as u8) as char;
                assert(c == k as char);
                let mut v: Vec<char> = Vec::new();
                v.push(c);
                KeyValue::Character(string_from_chars(&v))
            } else {
                KeyValue::Unknown(k)
            }
        },
    }
}

/// Apply a handler's result to the propagation flags: `Stop` sets
/// `stopped`, `PreventDefault` sets `default_prevented`,
/// `StopAndPreventDefault` sets both, `Continue` leaves both.
pub fn apply_event_result(result: EventResult, stopped: &mut bool, default_prevented: &mut bool)
    ensures
        *final(stopped) == (*old(stopped) || result == EventResult::Stop || result
            == EventResult::StopAndPreventDefault),
        *final(default_prevented) == (*old(default_prevented) || result
            == EventResult::PreventDefault || result == EventResult::StopAndPreventDefault),
{
    match result {
        EventResult::Continue => {},
        EventResult::Stop => *stopped = true,
        EventResult::StopAndPreventDefault => {
            *stopped = true;
            *default_prevented = true;
        },
        EventResult::PreventDefault => *default_prevented = true,
    }
}

/// The default action that a key press leads to, after the key-down event
/// has gone to the focused element.
#[derive(Debug, Clone, Copy, PartialEq, Eq, Structural)]
pub enum KeyDownRoute {
    /// Tab: unless prevented, move the focus (backward with Shift).
    FocusNavigation { reverse: bool },
    /// Ctrl+C: unless prevented, copy.
    Copy,
    /// Ctrl+X: unless prevented, cut.
    Cut,
    /// Ctrl+V: unless prevented, paste.
    Paste,
    /// Space or Enter with an element focused: unless prevented, activate
    /// it (see `dispatch_form_element_activate`).
    Activate,
    /// An arrow key on a focused slider: move its value by this many steps.
    SliderStep { steps: i32 },
    /// Home on a focused slider: go to its minimum.
    SliderToMin,
    /// End on a focused slider: go to its maximum.
    SliderToMax,
    /// No default action: the key-down event is only dispatched.
    Dispatch,
}

/// The text is one of two given one-character strings.
pub open spec fn is_letter(s: Seq<char>, lower: char, upper: char) -> bool {
    s == seq![lower] || s == seq![upper]
}

fn text_is_letter(s: &String, lower: char, upper: char) -> (r: bool)
    ensures
        r == is_letter(s@, lower, upper),
{
    let v = chars_of(s.as_str());
    v.len() == 1 && (v[0] == lower || v[0] == upper) && {
        assert(v@ =~= seq![v@[0]]);
        true
    }
}

/// The key types one of two given characters.
pub open spec fn types_letter(key: KeyValue, lower: char, upper: char) -> bool {
    match key {
        KeyValue::Character(c) => is_letter(c@, lower, upper),
        _ => false,
    }
}

/// The route of a key press. Tab without Ctrl, Alt or Super navigates the
/// focus; Ctrl+C, Ctrl+X and Ctrl+V (without Alt or Super, either case)
/// are the clipboard keys; Space and Enter activate the focused element;
/// on a focused, enabled slider the arrows step its value (ten steps with
/// Shift; right and up go up) and Home and End go to its ends. Anything
/// else is only dispatched.
pub open spec fn key_down_route(key: KeyValue, m: Modifiers, has_focus: bool, on_slider: bool) -> KeyDownRoute {
    let plain = !m.alt && !m.super_;
    let mult: i32 = if m.shift { 10 } else { 1 };
    if key == KeyValue::Tab && !m.ctrl && plain {
        KeyDownRoute::FocusNavigation { reverse: m.shift }
    } else if m.ctrl && plain && types_letter(key, 'c', 'C') {
        KeyDownRoute::Copy
    } else if m.ctrl && plain && types_letter(key, 'x', 'X') {
        KeyDownRoute::Cut
    } else if m.ctrl && plain && types_letter(key, 'v', 'V') {
        KeyDownRoute::Paste
    } else if has_focus && (key == KeyValue::Enter || key == KeyValue::Space || types_letter(key, ' ', ' ')) {
        KeyDownRoute::Activate
    } else if has_focus && on_slider && (key == KeyValue::ArrowRight || key == KeyValue::ArrowUp) {
        KeyDownRoute::SliderStep { steps: mult }
    } else if has_focus && on_slider && (key == KeyValue::ArrowLeft || key == KeyValue::ArrowDown) {
        KeyDownRoute::SliderStep { steps: (-mult) as i32 }
    } else if has_focus && on_slider && key == KeyValue::Home {
        KeyDownRoute::SliderToMin
    } else if has_focus && on_slider && key == KeyValue::End {
        KeyDownRoute::SliderToMax
    } else {
        KeyDownRoute::Dispatch
    }
}

/// Decide what a key press does by default: `has_focus` says whether an
/// element has the focus, `on_slider` whether that element is an enabled
/// slider.
pub fn route_key_down(key: &KeyValue, modifiers: Modifiers, has_focus: bool, on_slider: bool) -> (r: KeyDownRoute)
    ensures
        r == key_down_route(*key, modifiers, has_focus, on_slider),
{
    let plain = !modifiers.alt && !modifiers.super_;
    let mult: i32 = if modifiers.shift { 10 } else { 1 };
    if let KeyValue::Tab = key {
        if !modifiers.ctrl && plain {
            return KeyDownRoute::FocusNavigation { reverse: modifiers.shift };
        }
    }
    if modifiers.ctrl && plain {
        if let KeyValue::Character(c) = key {
            if text_is_letter(c, 'c', 'C') {
                return KeyDownRoute::Copy;
            }
            if text_is_letter(c, 'x', 'X') {
                return KeyDownRoute::Cut;
            }
            if text_is_letter(c, 'v', 'V') {
                return KeyDownRoute::Paste;
            }
        }
    }
    if has_focus {
        let activates = match key {
            KeyValue::Enter => true,
            KeyValue::Space => true,
            KeyValue::Character(c) => {
                let v = chars_of(c.as_str());
                let r = v.len() == 1 && v[0] == ' ';
                assert(r ==> v@ =~= seq![' ']);
                r
            },
            _ => false,
        };
        if activates {
            return KeyDownRoute::Activate;
        }
        if on_slider {
            match key {
                KeyValue::ArrowRight | KeyValue::ArrowUp => {
                    return KeyDownRoute::SliderStep { steps: mult };
                },
                KeyValue::ArrowLeft | KeyValue::ArrowDown => {
                    return KeyDownRoute::SliderStep { steps: -mult };
                },
                KeyValue::Home => {
                    return KeyDownRoute::SliderToMin;
                },
                KeyValue::End => {
                    return KeyDownRoute::SliderToMax;
                },
                _ => {},
            }
        }
    }
    KeyDownRoute::Dispatch
}

/// Each named key's keysym, as X defines it, translates to that key: Left
/// to `ArrowLeft`, Right to `ArrowRight`, Up to `ArrowUp`, Down to
/// `ArrowDown`, and so on for Home, End, Page Up, Page Down, Tab, Escape,
/// Backspace, Delete, Insert, Return and Space.
pub proof fn lemma_xkb_names()
    ensures
        named_key(XK_LEFT) == Some(KeyValue::ArrowLeft),
        named_key(XK_RIGHT) == Some(KeyValue::ArrowRight),
        named_key(XK_UP) == Some(KeyValue::ArrowUp),
        named_key(XK_DOWN) == Some(KeyValue::ArrowDown),
        named_key(XK_HOME) == Some(KeyValue::Home),
        named_key(XK_END) == Some(KeyValue::End),
        named_key(XK_PAGE_UP) == Some(KeyValue::PageUp),
        named_key(XK_PAGE_DOWN) == Some(KeyValue::PageDown),
        named_key(XK_TAB) == Some(KeyValue::Tab),
        named_key(XK_ESCAPE) == Some(KeyValue::Escape),
        named_key(XK_BACKSPACE) == Some(KeyValue::Backspace),
        named_key(XK_DELETE) == Some(KeyValue::Delete),
        named_key(XK_INSERT) == Some(KeyValue::Insert),
        named_key(XK_RETURN) == Some(KeyValue::Enter),
        named_key(XK_SPACE) == Some(KeyValue::Space),
{
}

/// On a focused, enabled slider the Right and Up keys raise the value and
/// the Left and Down keys lower it, by one step (ten with Shift), whatever
/// other modifiers are held; Home goes to the minimum and End to the
/// maximum.
pub proof fn lemma_arrow_keys_move_slider(m: Modifiers)
    ensures
        key_down_route(named_key(XK_RIGHT)->0, m, true, true) == (KeyDownRoute::SliderStep { steps: if m.shift { 10i32 } else { 1i32 } }),
        key_down_route(named_key(XK_UP)->0, m, true, true) == (KeyDownRoute::SliderStep { steps: if m.shift { 10i32 } else { 1i32 } }),
        key_down_route(named_key(XK_LEFT)->0, m, true, true) == (KeyDownRoute::SliderStep { steps: if m.shift { -10i32 } else { -1i32 } }),
        key_down_route(named_key(XK_DOWN)->0, m, true, true) == (KeyDownRoute::SliderStep { steps: if m.shift { -10i32 } else { -1i32 } }),
        key_down_route(named_key(XK_HOME)->0, m, true, true) == KeyDownRoute::SliderToMin,
        key_down_route(named_key(XK_END)->0, m, true, true) == KeyDownRoute::SliderToMax,
{
}

} // verus!
