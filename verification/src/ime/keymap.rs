//! IBus key constants and modifier masks (X11 keysym values).
use vstd::prelude::*;
use crate::text::char_from_u32;

verus! {

/// Key release flag.
pub const IBUS_RELEASE_MASK: u32 = 0x4000_0000;
/// Shift modifier.
pub const IBUS_SHIFT_MASK: u32 = 0x1;
/// Control modifier.
pub const IBUS_CONTROL_MASK: u32 = 0x4;
/// Alt modifier.
pub const IBUS_MOD1_MASK: u32 = 0x8;

pub const IBUS_KEY_SPACE: u32 = 0x0020;
pub const IBUS_KEY_RETURN: u32 = 0xFF0D;
pub const IBUS_KEY_ESCAPE: u32 = 0xFF1B;
pub const IBUS_KEY_BACKSPACE: u32 = 0xFF08;
pub const IBUS_KEY_TAB: u32 = 0xFF09;
pub const IBUS_KEY_UP: u32 = 0xFF52;
pub const IBUS_KEY_DOWN: u32 = 0xFF54;
pub const IBUS_KEY_LEFT: u32 = 0xFF51;
pub const IBUS_KEY_RIGHT: u32 = 0xFF53;
pub const IBUS_KEY_PAGE_UP: u32 = 0xFF55;
pub const IBUS_KEY_PAGE_DOWN: u32 = 0xFF56;
pub const IBUS_KEY_F6: u32 = 0xFFC3;
pub const IBUS_KEY_F7: u32 = 0xFFC4;
pub const IBUS_KEY_F8: u32 = 0xFFC5;
pub const IBUS_KEY_F9: u32 = 0xFFC6;
pub const IBUS_KEY_F10: u32 = 0xFFC7;
pub const IBUS_KEY_MUHENKAN: u32 = 0xFF22;
pub const IBUS_KEY_HENKAN_MODE: u32 = 0xFF23;
pub const IBUS_KEY_ZENKAKU_HANKAKU: u32 = 0xFF2A;

/// Whether a keyval is a printable ASCII character (space through `~`).
pub open spec fn printable(keyval: u32) -> bool {
    0x20 <= keyval <= 0x7E
}

/// Checks if a keyval is a printable ASCII character (a-z, 0-9, punctuation).
pub fn is_printable_ascii(keyval: u32) -> (r: bool)
    ensures
        r == printable(keyval),
{
    0x20 <= keyval && keyval <= 0x7E
}

/// Converts a keyval to a char (for printable ASCII).
pub fn keyval_to_char(keyval: u32) -> (r: Option<char>)
    ensures
        r == (if printable(keyval) { Some(keyval as char) } else { None::<char> }),
{
    if is_printable_ascii(keyval) {
        char_from_u32(keyval)
    } else {
        None
    }
}

/// Checks if modifier keys (Ctrl, Alt) are pressed.
pub fn has_modifier(state: u32) -> (r: bool)
    ensures
        r == (state & (IBUS_CONTROL_MASK | IBUS_MOD1_MASK) != 0),
{
    state & (IBUS_CONTROL_MASK | IBUS_MOD1_MASK) != 0
}

/// Checks if this is a key release event.
pub fn is_release(state: u32) -> (r: bool)
    ensures
        r == (state & IBUS_RELEASE_MASK != 0),
{
    state & IBUS_RELEASE_MASK != 0
}

} // verus!
