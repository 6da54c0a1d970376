//! Key event filtering.
//!
//! Each pressed key either counts toward typing activity or is one of the
//! four excluded modifier keys (left/right Control, left/right Alt), which
//! must not keep the touchpad suppressed on their own.

use vstd::prelude::*;

verus! {

pub const LCTL: u32 = 29;

pub const LALT: u32 = 56;

pub const RALT: u32 = 100;

pub const RCTL: u32 = 97;

/// Whether a key code belongs to the fixed modifier exclusion set.
pub open spec fn excluded_key(code: u32) -> bool {
    code == LCTL || code == LALT || code == RALT || code == RCTL
}

/// Whether a pressed key counts toward typing activity: every key does,
/// except the four excluded modifiers.
pub fn counts_as_typing(keycode: u32) -> (r: bool)
    ensures
        r == !excluded_key(keycode),
{
    !(keycode == LCTL || keycode == LALT || keycode == RALT || keycode == RCTL)
}

} // verus!
