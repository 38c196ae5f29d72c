//! The keys and mouse buttons that a window reports, and their codes in Linux input events.

use vstd::prelude::*;

verus! {

/// The code of horizontal motion.
pub const REL_X: u16 = 0;

/// The code of vertical motion.
pub const REL_Y: u16 = 1;

/// The code of a wheel.
pub const REL_WHEEL: u16 = 8;

/// The code of the left mouse button.
pub const BTN_LEFT: u16 = 0x110;

/// The code of the right mouse button.
pub const BTN_RIGHT: u16 = 0x111;

/// The code of the middle mouse button.
pub const BTN_MIDDLE: u16 = 0x112;

/// A key by its place on the keyboard, as far as it has a code.
#[derive(Debug, Clone, Copy, PartialEq, Eq, Structural)]
pub enum Key {
    Escape,
    Digit1,
    Digit2,
    Digit3,
    Digit4,
    Digit5,
    Digit6,
    Digit7,
    Digit8,
    Digit9,
    Digit0,
    Minus,
    Equal,
    Backspace,
    Tab,
    KeyQ,
    KeyW,
    KeyE,
    KeyR,
    KeyT,
    KeyY,
    KeyU,
    KeyI,
    KeyO,
    KeyP,
    BracketLeft,
    BracketRight,
    Enter,
    ControlLeft,
    KeyA,
    KeyS,
    KeyD,
    KeyF,
    KeyG,
    KeyH,
    KeyJ,
    KeyK,
    KeyL,
    Semicolon,
    Quote,
    Backquote,
    ShiftLeft,
    Backslash,
    KeyZ,
    KeyX,
    KeyC,
    KeyV,
    KeyB,
    KeyN,
    KeyM,
    Comma,
    Period,
    Slash,
    ShiftRight,
    AltLeft,
    Space,
    CapsLock,
    F1,
    F2,
    F3,
    F4,
    F5,
    F6,
    F7,
    F8,
    F9,
    F10,
    F11,
    F12,
    ControlRight,
    AltRight,
    Home,
    ArrowUp,
    PageUp,
    ArrowLeft,
    ArrowRight,
    End,
    ArrowDown,
    PageDown,
    Insert,
    Delete,
}

/// A mouse button, as far as it has a code.
#[derive(Debug, Clone, Copy, PartialEq, Eq, Structural)]
pub enum Button {
    Left,
    Right,
    Middle,
}

/// The code of a key.
pub open spec fn key_code(key: Key) -> u16 {
    match key {
        Key::Escape => 1,
        Key::Digit1 => 2,
        Key::Digit2 => 3,
        Key::Digit3 => 4,
        Key::Digit4 => 5,
        Key::Digit5 => 6,
        Key::Digit6 => 7,
        Key::Digit7 => 8,
        Key::Digit8 => 9,
        Key::Digit9 => 10,
        Key::Digit0 => 11,
        Key::Minus => 12,
        Key::Equal => 13,
        Key::Backspace => 14,
        Key::Tab => 15,
        Key::KeyQ => 16,
        Key::KeyW => 17,
        Key::KeyE => 18,
        Key::KeyR => 19,
        Key::KeyT => 20,
        Key::KeyY => 21,
        Key::KeyU => 22,
        Key::KeyI => 23,
        Key::KeyO => 24,
        Key::KeyP => 25,
        Key::BracketLeft => 26,
        Key::BracketRight => 27,
        Key::Enter => 28,
        Key::ControlLeft => 29,
        Key::KeyA => 30,
        Key::KeyS => 31,
        Key::KeyD => 32,
        Key::KeyF => 33,
        Key::KeyG => 34,
        Key::KeyH => 35,
        Key::KeyJ => 36,
        Key::KeyK => 37,
        Key::KeyL => 38,
        Key::Semicolon => 39,
        Key::Quote => 40,
        Key::Backquote => 41,
        Key::ShiftLeft => 42,
        Key::Backslash => 43,
        Key::KeyZ => 44,
        Key::KeyX => 45,
        Key::KeyC => 46,
        Key::KeyV => 47,
        Key::KeyB => 48,
        Key::KeyN => 49,
        Key::KeyM => 50,
        Key::Comma => 51,
        Key::Period => 52,
        Key::Slash => 53,
        Key::ShiftRight => 54,
        Key::AltLeft => 56,
        Key::Space => 57,
        Key::CapsLock => 58,
        Key::F1 => 59,
        Key::F2 => 60,
        Key::F3 => 61,
        Key::F4 => 62,
        Key::F5 => 63,
        Key::F6 => 64,
        Key::F7 => 65,
        Key::F8 => 66,
        Key::F9 => 67,
        Key::F10 => 68,
        Key::F11 => 87,
        Key::F12 => 88,
        Key::ControlRight => 97,
        Key::AltRight => 100,
        Key::Home => 102,
        Key::ArrowUp => 103,
        Key::PageUp => 104,
        Key::ArrowLeft => 105,
        Key::ArrowRight => 106,
        Key::End => 107,
        Key::ArrowDown => 108,
        Key::PageDown => 109,
        Key::Insert => 110,
        Key::Delete => 111,
    }
}

/// The key of a code.
pub open spec fn key_of(code: u16) -> Option<Key> {
    if code == 1 {
        Some(Key::Escape)
    } else if code == 2 {
        Some(Key::Digit1)
    } else if code == 3 {
        Some(Key::Digit2)
    } else if code == 4 {
        Some(Key::Digit3)
    } else if code == 5 {
        Some(Key::Digit4)
    } else if code == 6 {
        Some(Key::Digit5)
    } else if code == 7 {
        Some(Key::Digit6)
    } else if code == 8 {
        Some(Key::Digit7)
    } else if code == 9 {
        Some(Key::Digit8)
    } else if code == 10 {
        Some(Key::Digit9)
    } else if code == 11 {
        Some(Key::Digit0)
    } else if code == 12 {
        Some(Key::Minus)
    } else if code == 13 {
        Some(Key::Equal)
    } else if code == 14 {
        Some(Key::Backspace)
    } else if code == 15 {
        Some(Key::Tab)
    } else if code == 16 {
        Some(Key::KeyQ)
    } else if code == 17 {
        Some(Key::KeyW)
    } else if code == 18 {
        Some(Key::KeyE)
    } else if code == 19 {
        Some(Key::KeyR)
    } else if code == 20 {
        Some(Key::KeyT)
    } else if code == 21 {
        Some(Key::KeyY)
    } else if code == 22 {
        Some(Key::KeyU)
    } else if code == 23 {
        Some(Key::KeyI)
    } else if code == 24 {
        Some(Key::KeyO)
    } else if code == 25 {
        Some(Key::KeyP)
    } else if code == 26 {
        Some(Key::BracketLeft)
    } else if code == 27 {
        Some(Key::BracketRight)
    } else if code == 28 {
        Some(Key::Enter)
    } else if code == 29 {
        Some(Key::ControlLeft)
    } else if code == 30 {
        Some(Key::KeyA)
    } else if code == 31 {
        Some(Key::KeyS)
    } else if code == 32 {
        Some(Key::KeyD)
    } else if code == 33 {
        Some(Key::KeyF)
    } else if code == 34 {
        Some(Key::KeyG)
    } else if code == 35 {
        Some(Key::KeyH)
    } else if code == 36 {
        Some(Key::KeyJ)
    } else if code == 37 {
        Some(Key::KeyK)
    } else if code == 38 {
        Some(Key::KeyL)
    } else if code == 39 {
        Some(Key::Semicolon)
    } else if code == 40 {
        Some(Key::Quote)
    } else if code == 41 {
        Some(Key::Backquote)
    } else if code == 42 {
        Some(Key::ShiftLeft)
    } else if code == 43 {
        Some(Key::Backslash)
    } else if code == 44 {
        Some(Key::KeyZ)
    } else if code == 45 {
        Some(Key::KeyX)
    } else if code == 46 {
        Some(Key::KeyC)
    } else if code == 47 {
        Some(Key::KeyV)
    } else if code == 48 {
        Some(Key::KeyB)
    } else if code == 49 {
        Some(Key::KeyN)
    } else if code == 50 {
        Some(Key::KeyM)
    } else if code == 51 {
        Some(Key::Comma)
    } else if code == 52 {
        Some(Key::Period)
    } else if code == 53 {
        Some(Key::Slash)
    } else if code == 54 {
        Some(Key::ShiftRight)
    } else if code == 56 {
        Some(Key::AltLeft)
    } else if code == 57 {
        Some(Key::Space)
    } else if code == 58 {
        Some(Key::CapsLock)
    } else if code == 59 {
        Some(Key::F1)
    } else if code == 60 {
        Some(Key::F2)
    } else if code == 61 {
        Some(Key::F3)
    } else if code == 62 {
        Some(Key::F4)
    } else if code == 63 {
        Some(Key::F5)
    } else if code == 64 {
        Some(Key::F6)
    } else if code == 65 {
        Some(Key::F7)
    } else if code == 66 {
        Some(Key::F8)
    } else if code == 67 {
        Some(Key::F9)
    } else if code == 68 {
        Some(Key::F10)
    } else if code == 87 {
        Some(Key::F11)
    } else if code == 88 {
        Some(Key::F12)
    } else if code == 97 {
        Some(Key::ControlRight)
    } else if code == 100 {
        Some(Key::AltRight)
    } else if code == 102 {
        Some(Key::Home)
    } else if code == 103 {
        Some(Key::ArrowUp)
    } else if code == 104 {
        Some(Key::PageUp)
    } else if code == 105 {
        Some(Key::ArrowLeft)
    } else if code == 106 {
        Some(Key::ArrowRight)
    } else if code == 107 {
        Some(Key::End)
    } else if code == 108 {
        Some(Key::ArrowDown)
    } else if code == 109 {
        Some(Key::PageDown)
    } else if code == 110 {
        Some(Key::Insert)
    } else if code == 111 {
        Some(Key::Delete)
    } else {
        None
    }
}

/// The code of a key that has one.
pub fn winit_keycode_to_evdev(key: Option<Key>) -> (r: Option<u16>)
    ensures
        r == match key {
            Some(k) => Some(key_code(k)),
            None => None,
        },
{
    let key = match key {
        None => {
            return None;
        },
        Some(key) => key,
    };
    Some(
        match key {
            Key::Escape => 1,
            Key::Digit1 => 2,
            Key::Digit2 => 3,
            Key::Digit3 => 4,
            Key::Digit4 => 5,
            Key::Digit5 => 6,
            Key::Digit6 => 7,
            Key::Digit7 => 8,
            Key::Digit8 => 9,
            Key::Digit9 => 10,
            Key::Digit0 => 11,
            Key::Minus => 12,
            Key::Equal => 13,
            Key::Backspace => 14,
            Key::Tab => 15,
            Key::KeyQ => 16,
            Key::KeyW => 17,
            Key::KeyE => 18,
            Key::KeyR => 19,
            Key::KeyT => 20,
            Key::KeyY => 21,
            Key::KeyU => 22,
            Key::KeyI => 23,
            Key::KeyO => 24,
            Key::KeyP => 25,
            Key::BracketLeft => 26,
            Key::BracketRight => 27,
            Key::Enter => 28,
            Key::ControlLeft => 29,
            Key::KeyA => 30,
            Key::KeyS => 31,
            Key::KeyD => 32,
            Key::KeyF => 33,
            Key::KeyG => 34,
            Key::KeyH => 35,
            Key::KeyJ => 36,
            Key::KeyK => 37,
            Key::KeyL => 38,
            Key::Semicolon => 39,
            Key::Quote => 40,
            Key::Backquote => 41,
            Key::ShiftLeft => 42,
            Key::Backslash => 43,
            Key::KeyZ => 44,
            Key::KeyX => 45,
            Key::KeyC => 46,
            Key::KeyV => 47,
            Key::KeyB => 48,
            Key::KeyN => 49,
            Key::KeyM => 50,
            Key::Comma => 51,
            Key::Period => 52,
            Key::Slash => 53,
            Key::ShiftRight => 54,
            Key::AltLeft => 56,
            Key::Space => 57,
            Key::CapsLock => 58,
            Key::F1 => 59,
            Key::F2 => 60,
            Key::F3 => 61,
            Key::F4 => 62,
            Key::F5 => 63,
            Key::F6 => 64,
            Key::F7 => 65,
            Key::F8 => 66,
            Key::F9 => 67,
            Key::F10 => 68,
            Key::F11 => 87,
            Key::F12 => 88,
            Key::ControlRight => 97,
            Key::AltRight => 100,
            Key::Home => 102,
            Key::ArrowUp => 103,
            Key::PageUp => 104,
            Key::ArrowLeft => 105,
            Key::ArrowRight => 106,
            Key::End => 107,
            Key::ArrowDown => 108,
            Key::PageDown => 109,
            Key::Insert => 110,
            Key::Delete => 111,
        },
    )
}

/// No two keys have the same code: every code is read back as the key it stands for.
pub proof fn law_key_codes_differ(a: Key, b: Key)
    ensures
        key_of(key_code(a)) == Some(a),
        a != b ==> key_code(a) != key_code(b),
{
    lemma_key_of(a);
    lemma_key_of(b);
}

/// The keys of the main block, row by row, from the escape key to the right shift key.
pub open spec fn main_block() -> Seq<Key> {
    seq![
        Key::Escape,
        Key::Digit1,
        Key::Digit2,
        Key::Digit3,
        Key::Digit4,
        Key::Digit5,
        Key::Digit6,
        Key::Digit7,
        Key::Digit8,
        Key::Digit9,
        Key::Digit0,
        Key::Minus,
        Key::Equal,
        Key::Backspace,
        Key::Tab,
        Key::KeyQ,
        Key::KeyW,
        Key::KeyE,
        Key::KeyR,
        Key::KeyT,
        Key::KeyY,
        Key::KeyU,
        Key::KeyI,
        Key::KeyO,
        Key::KeyP,
        Key::BracketLeft,
        Key::BracketRight,
        Key::Enter,
        Key::ControlLeft,
        Key::KeyA,
        Key::KeyS,
        Key::KeyD,
        Key::KeyF,
        Key::KeyG,
        Key::KeyH,
        Key::KeyJ,
        Key::KeyK,
        Key::KeyL,
        Key::Semicolon,
        Key::Quote,
        Key::Backquote,
        Key::ShiftLeft,
        Key::Backslash,
        Key::KeyZ,
        Key::KeyX,
        Key::KeyC,
        Key::KeyV,
        Key::KeyB,
        Key::KeyN,
        Key::KeyM,
        Key::Comma,
        Key::Period,
        Key::Slash,
        Key::ShiftRight,
    ]
}

/// The keys below the main block and above it that follow them.
pub open spec fn lower_and_function_keys() -> Seq<Key> {
    seq![
        Key::AltLeft,
        Key::Space,
        Key::CapsLock,
        Key::F1,
        Key::F2,
        Key::F3,
        Key::F4,
        Key::F5,
        Key::F6,
        Key::F7,
        Key::F8,
        Key::F9,
        Key::F10,
    ]
}

/// The keys of the editing block.
pub open spec fn editing_block() -> Seq<Key> {
    seq![
        Key::Home,
        Key::ArrowUp,
        Key::PageUp,
        Key::ArrowLeft,
        Key::ArrowRight,
        Key::End,
        Key::ArrowDown,
        Key::PageDown,
        Key::Insert,
        Key::Delete,
    ]
}

/// The codes run along the keyboard: each key of a block has the code after that of the key before it,
/// from 1 on in the main block, from 56 on for the keys around it and from 102 on in the editing block.
pub proof fn law_codes_run_along_the_keyboard(i: int)
    ensures
        0 <= i < main_block().len() ==> key_code(main_block()[i]) == 1 + i,
        0 <= i < lower_and_function_keys().len() ==> key_code(lower_and_function_keys()[i]) == 56 + i,
        0 <= i < editing_block().len() ==> key_code(editing_block()[i]) == 102 + i,
        main_block().len() == 54,
        lower_and_function_keys().len() == 13,
        editing_block().len() == 10,
        key_code(Key::F11) == 87 && key_code(Key::F12) == 88,
        key_code(Key::ControlRight) == 97 && key_code(Key::AltRight) == 100,
{
}

proof fn lemma_key_of(key: Key)
    ensures
        key_of(key_code(key)) == Some(key),
{
}

/// The code of a mouse button.
pub open spec fn button_code(button: Button) -> u16 {
    match button {
        Button::Left => BTN_LEFT,
        Button::Right => BTN_RIGHT,
        Button::Middle => BTN_MIDDLE,
    }
}

/// The code of a mouse button that has one.
pub fn winit_mouse_button_to_evdev(button: Option<Button>) -> (r: Option<u16>)
    ensures
        r == match button {
            Some(b) => Some(button_code(b)),
            None => None,
        },
{
    match button {
        Some(Button::Left) => Some(BTN_LEFT),
        Some(Button::Right) => Some(BTN_RIGHT),
        Some(Button::Middle) => Some(BTN_MIDDLE),
        None => None,
    }
}

/// Buttons are told apart from each other and from keys by their codes.
pub proof fn law_buttons_are_no_keys(button: Button, key: Key)
    ensures
        button_code(button) != key_code(key),
{
}

/// The code that a key or a button is passed on under is the one that it is read back from, and what
/// has no code is not passed on.
pub proof fn law_passed_codes_are_read_back(
    key: Option<Key>,
    code: Option<u16>,
    button: Option<Button>,
    button_passed: Option<u16>,
)
    requires
        call_ensures(winit_keycode_to_evdev, (key,), code),
        call_ensures(winit_mouse_button_to_evdev, (button,), button_passed),
    ensures
        key is Some <==> code is Some,
        key matches Some(k) ==> key_of(code->0) == Some(k),
        button is Some <==> button_passed is Some,
        button == Some(Button::Left) <==> button_passed == Some(0x110u16),
        button == Some(Button::Right) <==> button_passed == Some(0x111u16),
        button == Some(Button::Middle) <==> button_passed == Some(0x112u16),
{
    if let Some(k) = key {
        law_key_codes_differ(k, k);
    }
}

} // verus!
