//! Declarations for the outside items the library leans on: the raw kernel
//! event type it carries through opaquely, and reference-counted sharing.
use std::rc::Rc;
use vstd::prelude::*;

verus! {

/// Relies on std's `Rc::clone`: the result is another pointer to the same
/// allocation, so it carries the same value.
#[verifier::external_body]
pub fn rc_dup<T>(v: &Rc<T>) -> (res: Rc<T>)
    ensures
        res == *v,
{
    Rc::clone(v)
}

/// Relies on evdev's `InputEvent`: a raw kernel input event. The handler
/// never reads it; events of types it does not treat are carried through
/// unchanged, from the input stream to the passthrough action.
#[verifier::external_type_specification]
#[verifier::external_body]
pub struct ExInputEvent(evdev::InputEvent);

} // verus!
