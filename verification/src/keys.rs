//! Scancode primitives: the `Key` type and the distinguished modifier keys.
use vstd::prelude::*;

verus! {

/// An opaque 16-bit scancode, as the kernel reports it.
pub type Key = u16;

// The scancodes the library itself must know: the eight physical modifier
// keys, and the left-hand representative emitted for each logical modifier.
pub const KEY_LEFTSHIFT: Key = 42;
pub const KEY_RIGHTSHIFT: Key = 54;
pub const KEY_LEFTCTRL: Key = 29;
pub const KEY_RIGHTCTRL: Key = 97;
pub const KEY_LEFTALT: Key = 56;
pub const KEY_RIGHTALT: Key = 100;
pub const KEY_LEFTMETA: Key = 125;
pub const KEY_RIGHTMETA: Key = 126;

/// The distinguished modifier-key subset: left/right shift, control, alt and
/// meta. Only these are synthesized for a chord's modifier entourage.
pub open spec fn spec_is_modifier_key(key: Key) -> bool {
    ||| key == KEY_LEFTSHIFT
    ||| key == KEY_RIGHTSHIFT
    ||| key == KEY_LEFTCTRL
    ||| key == KEY_RIGHTCTRL
    ||| key == KEY_LEFTALT
    ||| key == KEY_RIGHTALT
    ||| key == KEY_LEFTMETA
    ||| key == KEY_RIGHTMETA
}

/// Whether `key` is one of the eight physical modifier keys.
pub fn is_modifier_key(key: Key) -> (r: bool)
    ensures
        r == spec_is_modifier_key(key),
{
    key == KEY_LEFTSHIFT || key == KEY_RIGHTSHIFT || key == KEY_LEFTCTRL || key == KEY_RIGHTCTRL
        || key == KEY_LEFTALT || key == KEY_RIGHTALT || key == KEY_LEFTMETA || key == KEY_RIGHTMETA
}

} // verus!
