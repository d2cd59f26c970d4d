//! USB HID keyboard usages (page 0x07) to PC set-1 scan codes, with the
//! extended-key flag that the 0xE0-prefixed keys need.

use vstd::prelude::*;

verus! {

/// Scan codes of the letters a..z (usages 0x04..0x1D).
pub open spec fn letter_scans() -> Seq<u16> {
    seq![
        0x1Eu16, 0x30, 0x2E, 0x20, 0x12, 0x21, 0x22, 0x23, 0x17, 0x24, 0x25, 0x26, 0x32,
        0x31, 0x18, 0x19, 0x10, 0x13, 0x1F, 0x14, 0x16, 0x2F, 0x11, 0x2D, 0x15, 0x2C,
    ]
}

/// Enter, Escape, Backspace, Tab, Space and the punctuation keys
/// (usages 0x28..0x38).
pub open spec fn punct_scans() -> Seq<u16> {
    seq![
        0x1Cu16, 0x01, 0x0E, 0x0F, 0x39, 0x0C, 0x0D, 0x1A, 0x1B, 0x2B, 0x2B, 0x27, 0x28,
        0x29, 0x33, 0x34, 0x35,
    ]
}

/// Insert, Home, Page Up, Delete, End, Page Down and the arrows
/// (usages 0x49..0x52), all extended.
pub open spec fn nav_scans() -> Seq<u16> {
    seq![0x52u16, 0x47, 0x49, 0x53, 0x4F, 0x51, 0x4D, 0x4B, 0x50, 0x48]
}

/// Keypad 1..9, 0 and the decimal point (usages 0x59..0x63).
pub open spec fn keypad_scans() -> Seq<u16> {
    seq![0x4Fu16, 0x50, 0x51, 0x4B, 0x4C, 0x4D, 0x47, 0x48, 0x49, 0x52, 0x53]
}

/// The modifier keys (usages 0xE0..0xE7): left Ctrl, Shift, Alt, GUI, then
/// the right ones.
pub open spec fn modifier_scans() -> Seq<(u16, bool)> {
    seq![
        (0x1Du16, false), (0x2A, false), (0x38, false), (0x5B, true),
        (0x1D, true), (0x36, false), (0x38, true), (0x5C, true),
    ]
}

/// The scan code and extended flag of a HID keyboard usage, if it has one.
pub open spec fn hid_scancode(code: u16) -> Option<(u16, bool)> {
    if 0x04 <= code <= 0x1D {
        Some((letter_scans()[code - 0x04], false))
    } else if 0x1E <= code <= 0x27 {
        Some(((code - 0x1C) as u16, false))
    } else if 0x28 <= code <= 0x38 {
        Some((punct_scans()[code - 0x28], false))
    } else if code == 0x39 {
        Some((0x3A, false))
    } else if 0x3A <= code <= 0x43 {
        Some(((code + 1) as u16, false))
    } else if code == 0x44 {
        Some((0x57, false))
    } else if code == 0x45 {
        Some((0x58, false))
    } else if code == 0x46 {
        Some((0x37, true))
    } else if code == 0x47 {
        Some((0x46, false))
    } else if 0x49 <= code <= 0x52 {
        Some((nav_scans()[code - 0x49], true))
    } else if code == 0x53 {
        Some((0x45, false))
    } else if code == 0x54 {
        Some((0x35, true))
    } else if code == 0x55 {
        Some((0x37, false))
    } else if code == 0x56 {
        Some((0x4A, false))
    } else if code == 0x57 {
        Some((0x4E, false))
    } else if code == 0x58 {
        Some((0x1C, true))
    } else if 0x59 <= code <= 0x63 {
        Some((keypad_scans()[code - 0x59], false))
    } else if code == 0x64 {
        Some((0x56, false))
    } else if code == 0x65 {
        Some((0x5D, true))
    } else if 0xE0 <= code <= 0xE7 {
        Some(modifier_scans()[code - 0xE0])
    } else {
        None
    }
}

/// Translate a HID keyboard usage to the scan code injected for it.
pub fn hid_to_scancode(code: u16) -> (r: Option<(u16, bool)>)
    ensures
        r == hid_scancode(code),
{
    let letters: [u16; 26] = [
        0x1E, 0x30, 0x2E, 0x20, 0x12, 0x21, 0x22, 0x23, 0x17, 0x24, 0x25, 0x26, 0x32,
        0x31, 0x18, 0x19, 0x10, 0x13, 0x1F, 0x14, 0x16, 0x2F, 0x11, 0x2D, 0x15, 0x2C,
    ];
    let punct: [u16; 17] = [
        0x1C, 0x01, 0x0E, 0x0F, 0x39, 0x0C, 0x0D, 0x1A, 0x1B, 0x2B, 0x2B, 0x27, 0x28,
        0x29, 0x33, 0x34, 0x35,
    ];
    let nav: [u16; 10] = [0x52, 0x47, 0x49, 0x53, 0x4F, 0x51, 0x4D, 0x4B, 0x50, 0x48];
    let keypad: [u16; 11] = [0x4F, 0x50, 0x51, 0x4B, 0x4C, 0x4D, 0x47, 0x48, 0x49, 0x52, 0x53];
    let modifiers: [(u16, bool); 8] = [
        (0x1D, false), (0x2A, false), (0x38, false), (0x5B, true),
        (0x1D, true), (0x36, false), (0x38, true), (0x5C, true),
    ];
    assert(letters@ =~= letter_scans());
    assert(punct@ =~= punct_scans());
    assert(nav@ =~= nav_scans());
    assert(keypad@ =~= keypad_scans());
    assert(modifiers@ =~= modifier_scans());
    if 0x04 <= code && code <= 0x1D {
        Some((letters[(code - 0x04) as usize], false))
    } else if 0x1E <= code && code <= 0x27 {
        Some((code - 0x1C, false))
    } else if 0x28 <= code && code <= 0x38 {
        Some((punct[(code - 0x28) as usize], false))
    } else if code == 0x39 {
        Some((0x3A, false))
    } else if 0x3A <= code && code <= 0x43 {
        Some((code + 1, false))
    } else if code == 0x44 {
        Some((0x57, false))
    } else if code == 0x45 {
        Some((0x58, false))
    } else if code == 0x46 {
        Some((0x37, true))
    } else if code == 0x47 {
        Some((0x46, false))
    } else if 0x49 <= code && code <= 0x52 {
        Some((nav[(code - 0x49) as usize], true))
    } else if code == 0x53 {
        Some((0x45, false))
    } else if code == 0x54 {
        Some((0x35, true))
    } else if code == 0x55 {
        Some((0x37, false))
    } else if code == 0x56 {
        Some((0x4A, false))
    } else if code == 0x57 {
        Some((0x4E, false))
    } else if code == 0x58 {
        Some((0x1C, true))
    } else if 0x59 <= code && code <= 0x63 {
        Some((keypad[(code - 0x59) as usize], false))
    } else if code == 0x64 {
        Some((0x56, false))
    } else if code == 0x65 {
        Some((0x5D, true))
    } else if 0xE0 <= code && code <= 0xE7 {
        Some(modifiers[(code - 0xE0) as usize])
    } else {
        None
    }
}

} // verus!
