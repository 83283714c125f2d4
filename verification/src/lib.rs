//! Core event-transformation logic of a key-remapping daemon for an
//! evdev-style input subsystem.
//!
//! The library turns raw input events (key, relative, passthrough, timer
//! expiry) into an ordered list of synthetic actions, applying a declarative
//! remap configuration: modifier tracking, per-key substitution (modmap),
//! multi-purpose key timing, chord lookup (keymap) with nested overrides and
//! timeouts, and a "disguise" encoding that lets relative events take part in
//! chord matching.
use vstd::prelude::*;

pub mod action;
pub mod config;
pub mod event;
pub mod keys;
pub mod laws;
pub mod event_handler;
pub mod model;
pub mod outside;

verus! {

/// Offset added to disguised relative-event scancodes so that they sit above
/// every real scancode and cannot collide with physical keys.
pub const DISGUISED_EVENT_OFFSETTER: u16 = 59974;

} // verus!
