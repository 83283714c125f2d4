//! The small building blocks: key-value decoding, press classification, and
//! remap-row detection.
use std::rc::Rc;
use xremap::config::is_remap;
use xremap::config::KeymapAction;
use xremap::config::KeyPress;
use xremap::config::Remap;
use xremap::event::KeyEvent;
use xremap::event::KeyValue;
use xremap::event::RelativeEvent;
use xremap::event_handler::is_pressed;

#[test]
fn key_value_decodes_valid_integers() {
    assert!(matches!(KeyValue::new(0), Some(KeyValue::Release)));
    assert!(matches!(KeyValue::new(1), Some(KeyValue::Press)));
    assert!(matches!(KeyValue::new(2), Some(KeyValue::Repeat)));
    assert_eq!(KeyValue::new(0).unwrap().value(), 0);
    assert_eq!(KeyValue::new(1).unwrap().value(), 1);
    assert_eq!(KeyValue::new(2).unwrap().value(), 2);
}

#[test]
fn key_value_rejects_other_integers() {
    assert!(KeyValue::new(-1).is_none());
    assert!(KeyValue::new(3).is_none());
    assert!(KeyValue::new(255).is_none());
}

#[test]
fn key_event_accessors() {
    let ev = KeyEvent::new_with(30, 1);
    assert_eq!(ev.code(), 30);
    assert_eq!(ev.value(), 1);
    let ev = KeyEvent::new(30, KeyValue::Release);
    assert_eq!(ev.value(), 0);
}

#[test]
fn relative_event_constructor() {
    let ev = RelativeEvent::new_with(8, -3);
    assert_eq!((ev.code, ev.value), (8, -3));
}

#[test]
fn is_pressed_classifies_values() {
    assert!(is_pressed(1));
    assert!(is_pressed(2));
    assert!(!is_pressed(0));
}

#[test]
fn is_remap_detects_remap_rows() {
    let remap = KeymapAction::Remap(Remap {
        remap: vec![],
        timeout_millis: None,
        timeout_key: None,
    });
    let press = KeymapAction::KeyPress(KeyPress { key: 48, modifiers: Rc::new(vec![]) });
    assert!(is_remap(&vec![Rc::new(remap)]));
    assert!(!is_remap(&vec![Rc::new(press)]));
    assert!(is_remap(&vec![]));
}
