//! Output of the event handler: the ordered actions the dispatcher performs,
//! and the commands it applies to the one-shot override timer.
use crate::event::KeyValue;
use crate::keys::Key;
use vstd::prelude::*;

verus! {

/// A relative event to be emitted downstream.
#[derive(Clone, Copy, PartialEq, Eq, Structural, Debug)]
pub struct RelativeEventAction {
    pub code: u16,
    pub value: i32,
}

/// One instruction to the action dispatcher.
pub enum Action {
    /// Emit a key event (the emitter follows it with a synchronization).
    KeyEvent { key: Key, value: KeyValue },
    /// Emit a single relative event that is not mouse motion.
    RelativeEvent(RelativeEventAction),
    /// Emit the listed mouse-motion events with one synchronization at the
    /// end, so the cursor moves once by the combined delta.
    MouseMovementEventCollection(Vec<RelativeEventAction>),
    /// Pass a raw kernel event through unchanged.
    InputEvent(evdev::InputEvent),
    /// Spawn a detached process.
    Command(Vec<String>),
    /// Sleep for the keypress delay, in milliseconds.
    Delay(u64),
}

/// One instruction to apply to the one-shot override timer. The handler owns
/// the timer's logical state; the caller performs these on the real timer in
/// order.
#[derive(Clone, Copy, PartialEq, Eq, Structural, Debug)]
pub enum TimerOp {
    /// Disarm the timer.
    Disarm,
    /// Arm the timer to fire once after the given number of milliseconds.
    Arm(u64),
}

} // verus!
