//! Input to the event handler: key events, relative events, opaque
//! passthrough events, and the override-timer expiry pseudo-event.
use crate::keys::Key;
use vstd::prelude::*;

verus! {

/// The transition a key event reports: release (0), press (1) or repeat (2).
/// Any other integer coming from a device is invalid input.
#[derive(Clone, Copy, PartialEq, Eq, Structural, Debug)]
pub enum KeyValue {
    Press,
    Release,
    Repeat,
}

/// A key event: a scancode together with its transition.
#[derive(Clone, Copy, PartialEq, Eq, Structural, Debug)]
pub struct KeyEvent {
    pub key: Key,
    pub value: KeyValue,
}

/// A relative-axis event: an axis code and a signed magnitude.
#[derive(Clone, Copy, PartialEq, Eq, Structural, Debug)]
pub struct RelativeEvent {
    pub code: u16,
    pub value: i32,
}

/// One event handed to the handler by the driver loop.
pub enum Event {
    /// A key event from a grabbed device.
    KeyEvent(KeyEvent),
    /// A relative-axis event from a grabbed device.
    RelativeEvent(RelativeEvent),
    /// Any other kernel event, passed through opaquely.
    OtherEvents(evdev::InputEvent),
    /// The one-shot override timer fired.
    OverrideTimeout,
}

impl KeyValue {
    /// Decodes an integer transition value; any value outside {0, 1, 2} is
    /// invalid input and yields `None`.
    pub fn new(value: i32) -> (r: Option<KeyValue>)
        ensures
            r == (if value == 0 {
                Some(KeyValue::Release)
            } else if value == 1 {
                Some(KeyValue::Press)
            } else if value == 2 {
                Some(KeyValue::Repeat)
            } else {
                None::<KeyValue>
            }),
    {
        match value {
            0 => Some(KeyValue::Release),
            1 => Some(KeyValue::Press),
            2 => Some(KeyValue::Repeat),
            _ => None,
        }
    }

    /// The integer the kernel uses for this transition.
    pub fn value(&self) -> (r: i32)
        ensures
            r == self.spec_value(),
    {
        match self {
            KeyValue::Release => 0,
            KeyValue::Press => 1,
            KeyValue::Repeat => 2,
        }
    }

    /// The integer encoding of the transition.
    pub open spec fn spec_value(&self) -> i32 {
        match self {
            KeyValue::Release => 0,
            KeyValue::Press => 1,
            KeyValue::Repeat => 2,
        }
    }
}

impl KeyEvent {
    /// Builds a key event from its two parts.
    pub fn new(key: Key, value: KeyValue) -> (r: KeyEvent)
        ensures
            r == (KeyEvent { key, value }),
    {
        KeyEvent { key, value }
    }

    /// Builds a key event from raw code and integer value. The device layer
    /// never produces a value outside {0, 1, 2}, so such input is excluded.
    pub fn new_with(code: u16, value: i32) -> (r: KeyEvent)
        requires
            value == 0 || value == 1 || value == 2,
        ensures
            r.key == code,
            r.value.spec_value() == value,
    {
        let key_value = match KeyValue::new(value) {
            Some(v) => v,
            None => KeyValue::Release,
        };
        KeyEvent { key: code, value: key_value }
    }

    /// The event's scancode.
    pub fn code(&self) -> (r: u16)
        ensures
            r == self.key,
    {
        self.key
    }

    /// The event's transition as the kernel's integer.
    pub fn value(&self) -> (r: i32)
        ensures
            r == self.value.spec_value(),
    {
        self.value.value()
    }
}

impl RelativeEvent {
    /// Builds a relative event from raw code and value.
    pub fn new_with(code: u16, value: i32) -> (r: RelativeEvent)
        ensures
            r == (RelativeEvent { code, value }),
    {
        RelativeEvent { code, value }
    }
}

} // verus!
