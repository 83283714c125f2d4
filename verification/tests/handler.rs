//! End-to-end behaviour of the event handler: keymap chords, overrides with
//! timeouts, multi-purpose keys, relative-event disguising, and the
//! handler's state invariants.
use std::rc::Rc;
use xremap::action::Action;
use xremap::action::TimerOp;
use xremap::config::Application;
use xremap::config::Config;
use xremap::config::KeyPress;
use xremap::config::KeymapAction;
use xremap::config::Modifier;
use xremap::config::Modmap;
use xremap::config::ModmapAction;
use xremap::config::MultiPurposeKey;
use xremap::config::OverrideEntry;
use xremap::config::PressReleaseKey;
use xremap::config::Remap;
use xremap::event::Event;
use xremap::event::KeyEvent;
use xremap::event::RelativeEvent;
use xremap::event_handler::EventHandler;
use xremap::keys::KEY_LEFTCTRL;
use xremap::keys::KEY_LEFTSHIFT;
use xremap::DISGUISED_EVENT_OFFSETTER;

const KEY_ESC: u16 = 1;
const KEY_A: u16 = 30;
const KEY_B: u16 = 48;
const KEY_X: u16 = 45;
const KEY_E: u16 = 18;
const KEY_CAPSLOCK: u16 = 58;
const KEY_SPACE: u16 = 57;
const KEY_F: u16 = 33;
const KEY_FIND: u16 = 136;

fn empty_config() -> Config {
    Config { modmap: vec![], keymap_table: vec![], virtual_modifiers: vec![] }
}

fn chord(key: u16, modifiers: Vec<Modifier>) -> KeyPress {
    KeyPress { key, modifiers: Rc::new(modifiers) }
}

fn entry(modifiers: Vec<Modifier>, actions: Vec<KeymapAction>, exact_match: bool) -> OverrideEntry {
    OverrideEntry {
        modifiers: Rc::new(modifiers),
        actions: Rc::new(actions.into_iter().map(Rc::new).collect()),
        exact_match,
        application: None,
        mode: None,
    }
}

fn key_event(code: u16, value: i32) -> Event {
    Event::KeyEvent(KeyEvent::new_with(code, value))
}

fn feed(handler: &mut EventHandler, config: &Config, events: Vec<Event>, now: u64) -> Vec<Action> {
    handler.on_events(&events, config, &None, now).0
}

fn as_key(action: &Action) -> (u16, i32) {
    match action {
        Action::KeyEvent { key, value } => (*key, value.value()),
        other => panic!("expected a key event, got {:?}", kind_of(other)),
    }
}

fn kind_of(action: &Action) -> &'static str {
    match action {
        Action::KeyEvent { .. } => "key",
        Action::RelativeEvent(_) => "relative",
        Action::MouseMovementEventCollection(_) => "mouse",
        Action::InputEvent(_) => "input",
        Action::Command(_) => "command",
        Action::Delay(_) => "delay",
    }
}

fn assert_keys(actions: &[Action], expected: &[(u16, i32)]) {
    let got: Vec<(u16, i32)> = actions.iter().map(as_key).collect();
    assert_eq!(got, expected.to_vec());
}

fn ab_config() -> Config {
    // KEY_A + Control -> KeyPress(KEY_B)
    Config {
        modmap: vec![],
        keymap_table: vec![(
            KEY_A,
            vec![entry(
                vec![Modifier::Control],
                vec![KeymapAction::KeyPress(chord(KEY_B, vec![]))],
                false,
            )],
        )],
        virtual_modifiers: vec![],
    }
}

#[test]
fn passthrough_key_press() {
    // A press with no Control and no matching chord passes through.
    let mut handler = EventHandler::new("default", 0);
    let config = ab_config();
    let out = feed(&mut handler, &config, vec![key_event(KEY_A, 1)], 0);
    assert_keys(&out, &[(KEY_A, 1)]);
}

#[test]
fn chord_with_held_control() {
    let mut handler = EventHandler::new("default", 0);
    let config = ab_config();
    let out = feed(&mut handler, &config, vec![key_event(KEY_LEFTCTRL, 1)], 0);
    assert_keys(&out, &[(KEY_LEFTCTRL, 1)]);
    let out = feed(&mut handler, &config, vec![key_event(KEY_A, 1)], 0);
    // The chord requires no modifiers of its own, so the held Control is
    // released around it and restored afterwards: the entourage.
    assert_eq!(as_key(&out[0]), (KEY_LEFTCTRL, 0));
    assert_eq!(as_key(&out[1]), (KEY_B, 1));
    assert_eq!(as_key(&out[2]), (KEY_B, 0));
    assert!(matches!(out[3], Action::Delay(0)));
    assert_eq!(as_key(&out[4]), (KEY_LEFTCTRL, 1));
    assert_eq!(out.len(), 5);
    let out = feed(&mut handler, &config, vec![key_event(KEY_A, 0)], 0);
    // The physical release pairs with the recorded press of KEY_A.
    assert_keys(&out, &[(KEY_A, 0)]);
    let out = feed(&mut handler, &config, vec![key_event(KEY_LEFTCTRL, 0)], 0);
    assert_keys(&out, &[(KEY_LEFTCTRL, 0)]);
}

#[test]
fn entourage_presses_missing_modifier() {
    // KEY_A -> Shift+B with nothing held: Shift is pressed around the chord.
    let config = Config {
        modmap: vec![],
        keymap_table: vec![(
            KEY_A,
            vec![entry(
                vec![],
                vec![KeymapAction::KeyPress(chord(KEY_B, vec![Modifier::Shift]))],
                false,
            )],
        )],
        virtual_modifiers: vec![],
    };
    let mut handler = EventHandler::new("default", 0);
    let out = feed(&mut handler, &config, vec![key_event(KEY_A, 1)], 0);
    assert_eq!(as_key(&out[0]), (KEY_LEFTSHIFT, 1));
    assert_eq!(as_key(&out[1]), (KEY_B, 1));
    assert_eq!(as_key(&out[2]), (KEY_B, 0));
    assert!(matches!(out[3], Action::Delay(0)));
    assert_eq!(as_key(&out[4]), (KEY_LEFTSHIFT, 0));
    assert_eq!(out.len(), 5);
}

#[test]
fn no_entourage_when_modifiers_match() {
    // Emitting Control+B while Control is exactly held: no entourage.
    let config = Config {
        modmap: vec![],
        keymap_table: vec![(
            KEY_A,
            vec![entry(
                vec![Modifier::Control],
                vec![KeymapAction::KeyPress(chord(KEY_B, vec![Modifier::Control]))],
                false,
            )],
        )],
        virtual_modifiers: vec![],
    };
    let mut handler = EventHandler::new("default", 0);
    feed(&mut handler, &config, vec![key_event(KEY_LEFTCTRL, 1)], 0);
    let out = feed(&mut handler, &config, vec![key_event(KEY_A, 1)], 0);
    assert_eq!(as_key(&out[0]), (KEY_B, 1));
    assert_eq!(as_key(&out[1]), (KEY_B, 0));
    assert!(matches!(out[2], Action::Delay(0)));
    assert_eq!(out.len(), 3);
}

fn multi_purpose_config() -> Config {
    Config {
        modmap: vec![Modmap {
            remap: vec![(
                KEY_CAPSLOCK,
                ModmapAction::MultiPurposeKey(MultiPurposeKey {
                    held: KEY_LEFTCTRL,
                    alone: KEY_ESC,
                    alone_timeout_millis: 100,
                }),
            )],
            application: None,
        }],
        keymap_table: vec![],
        virtual_modifiers: vec![],
    }
}

#[test]
fn multi_purpose_tap_emits_alone_key() {
    let config = multi_purpose_config();
    let mut handler = EventHandler::new("default", 0);
    let out = feed(&mut handler, &config, vec![key_event(KEY_CAPSLOCK, 1)], 0);
    assert!(out.is_empty());
    let out = feed(&mut handler, &config, vec![key_event(KEY_CAPSLOCK, 0)], 50);
    assert_keys(&out, &[(KEY_ESC, 1), (KEY_ESC, 0)]);
}

#[test]
fn multi_purpose_exact_timeout_resolves_held() {
    // Held for exactly the timeout: the held key is emitted, not the alone one.
    let config = multi_purpose_config();
    let mut handler = EventHandler::new("default", 0);
    feed(&mut handler, &config, vec![key_event(KEY_CAPSLOCK, 1)], 0);
    let out = feed(&mut handler, &config, vec![key_event(KEY_CAPSLOCK, 0)], 100);
    assert_keys(&out, &[(KEY_LEFTCTRL, 1), (KEY_LEFTCTRL, 0)]);
}

#[test]
fn multi_purpose_forced_held_by_other_press() {
    let config = multi_purpose_config();
    let mut handler = EventHandler::new("default", 0);
    assert!(feed(&mut handler, &config, vec![key_event(KEY_CAPSLOCK, 1)], 0).is_empty());
    let out = feed(&mut handler, &config, vec![key_event(KEY_X, 1)], 50);
    assert_keys(&out, &[(KEY_LEFTCTRL, 1), (KEY_X, 1)]);
    let out = feed(&mut handler, &config, vec![key_event(KEY_X, 0)], 60);
    assert_keys(&out, &[(KEY_X, 0)]);
    let out = feed(&mut handler, &config, vec![key_event(KEY_CAPSLOCK, 0)], 70);
    assert_keys(&out, &[(KEY_LEFTCTRL, 0)]);
}

fn space_remap_config() -> Config {
    // KEY_SPACE pushes an override: KEY_F -> KeyPress(KEY_FIND), timeout 1 s.
    Config {
        modmap: vec![],
        keymap_table: vec![(
            KEY_SPACE,
            vec![entry(
                vec![],
                vec![KeymapAction::Remap(Remap {
                    remap: vec![(
                        KEY_F,
                        vec![entry(
                            vec![],
                            vec![KeymapAction::KeyPress(chord(KEY_FIND, vec![]))],
                            false,
                        )],
                    )],
                    timeout_millis: Some(1000),
                    timeout_key: None,
                })],
                false,
            )],
        )],
        virtual_modifiers: vec![],
    }
}

#[test]
fn override_chord_within_timeout() {
    let config = space_remap_config();
    let mut handler = EventHandler::new("default", 0);
    let (out, ops) = handler.on_events(&vec![key_event(KEY_SPACE, 1)], &config, &None, 0);
    assert!(out.is_empty());
    assert_eq!(ops, vec![TimerOp::Disarm, TimerOp::Arm(1000)]);
    let (out, ops) = handler.on_events(&vec![key_event(KEY_F, 1)], &config, &None, 500);
    assert_eq!(ops, vec![TimerOp::Disarm]);
    assert_eq!(as_key(&out[0]), (KEY_FIND, 1));
    assert_eq!(as_key(&out[1]), (KEY_FIND, 0));
    assert!(matches!(out[2], Action::Delay(0)));
    assert_eq!(out.len(), 3);
}

#[test]
fn override_timeout_emits_pending_key_once() {
    let config = space_remap_config();
    let mut handler = EventHandler::new("default", 0);
    feed(&mut handler, &config, vec![key_event(KEY_SPACE, 1)], 0);
    let (out, ops) = handler.on_events(&vec![Event::OverrideTimeout], &config, &None, 1000);
    assert_keys(&out, &[(KEY_SPACE, 1), (KEY_SPACE, 0)]);
    assert_eq!(ops, vec![TimerOp::Disarm]);
    // The override state is fully cleared.
    assert!(handler.override_remaps.is_empty());
    assert!(handler.override_timeout_key.is_none());
    // A second timeout emits nothing further.
    let (out, _) = handler.on_events(&vec![Event::OverrideTimeout], &config, &None, 2000);
    assert!(out.is_empty());
}

#[test]
fn escape_next_key_skips_one_press() {
    // KEY_A -> B unconditionally, KEY_E arms the escape.
    let config = Config {
        modmap: vec![],
        keymap_table: vec![
            (
                KEY_A,
                vec![entry(vec![], vec![KeymapAction::KeyPress(chord(KEY_B, vec![]))], false)],
            ),
            (KEY_E, vec![entry(vec![], vec![KeymapAction::EscapeNextKey(true)], false)]),
        ],
        virtual_modifiers: vec![],
    };
    let mut handler = EventHandler::new("default", 0);
    assert!(feed(&mut handler, &config, vec![key_event(KEY_E, 1)], 0).is_empty());
    assert!(handler.escape_next_key);
    // The escaped press passes through although the chord would match.
    let out = feed(&mut handler, &config, vec![key_event(KEY_A, 1)], 0);
    assert_keys(&out, &[(KEY_A, 1)]);
    assert!(!handler.escape_next_key);
    // The escape is spent: the next press resolves through the keymap.
    let out = feed(&mut handler, &config, vec![key_event(KEY_A, 1)], 0);
    assert_eq!(as_key(&out[0]), (KEY_B, 1));
}

#[test]
fn modifiers_stay_within_modifier_and_virtual_keys() {
    let config = Config {
        modmap: vec![],
        keymap_table: vec![],
        virtual_modifiers: vec![KEY_CAPSLOCK],
    };
    let mut handler = EventHandler::new("default", 0);
    // A virtual modifier press is tracked and suppressed.
    let out = feed(&mut handler, &config, vec![key_event(KEY_CAPSLOCK, 1)], 0);
    assert!(out.is_empty());
    feed(&mut handler, &config, vec![key_event(KEY_LEFTSHIFT, 1)], 0);
    feed(&mut handler, &config, vec![key_event(KEY_A, 1)], 0);
    for k in &handler.modifiers {
        assert!(*k == KEY_CAPSLOCK || *k == KEY_LEFTSHIFT);
    }
    assert!(handler.modifiers.contains(&KEY_CAPSLOCK));
    assert!(handler.modifiers.contains(&KEY_LEFTSHIFT));
}

#[test]
fn press_release_hooks_run_around_key() {
    let config = Config {
        modmap: vec![Modmap {
            remap: vec![(
                KEY_A,
                ModmapAction::PressReleaseKey(PressReleaseKey {
                    press: vec![KeymapAction::Launch(vec!["marker".to_string()])],
                    release: vec![],
                }),
            )],
            application: None,
        }],
        keymap_table: vec![],
        virtual_modifiers: vec![],
    };
    let mut handler = EventHandler::new("default", 0);
    let out = feed(&mut handler, &config, vec![key_event(KEY_A, 1)], 0);
    assert!(matches!(&out[0], Action::Command(c) if c == &vec!["marker".to_string()]));
    assert_eq!(as_key(&out[1]), (KEY_A, 1));
    assert_eq!(out.len(), 2);
}

#[test]
fn modmap_application_filter() {
    let config = Config {
        modmap: vec![Modmap {
            remap: vec![(KEY_A, ModmapAction::Key(KEY_B))],
            application: Some(Rc::new(Application {
                only: Some(Rc::new(vec!["term".to_string()])),
                not: None,
            })),
        }],
        keymap_table: vec![],
        virtual_modifiers: vec![],
    };
    let mut handler = EventHandler::new("default", 0);
    let out = handler.on_events(
        &vec![key_event(KEY_A, 1)],
        &config,
        &Some("term".to_string()),
        0,
    ).0;
    assert_keys(&out, &[(KEY_B, 1)]);
    let mut handler = EventHandler::new("default", 0);
    let out = handler.on_events(
        &vec![key_event(KEY_A, 1)],
        &config,
        &Some("editor".to_string()),
        0,
    ).0;
    assert_keys(&out, &[(KEY_A, 1)]);
}

#[test]
fn relative_event_passes_through_when_unmapped() {
    let config = empty_config();
    let mut handler = EventHandler::new("default", 0);
    let out = feed(
        &mut handler,
        &config,
        vec![Event::RelativeEvent(RelativeEvent::new_with(8, 3))],
        0,
    );
    assert_eq!(out.len(), 1);
    match &out[0] {
        Action::RelativeEvent(r) => {
            assert_eq!((r.code, r.value), (8, 3));
        },
        other => panic!("expected a relative event, got {}", kind_of(other)),
    }
}

#[test]
fn mouse_motion_is_coalesced() {
    let config = empty_config();
    let mut handler = EventHandler::new("default", 0);
    let out = feed(
        &mut handler,
        &config,
        vec![
            Event::RelativeEvent(RelativeEvent::new_with(0, 5)),
            Event::RelativeEvent(RelativeEvent::new_with(1, -2)),
        ],
        0,
    );
    assert_eq!(out.len(), 1);
    match &out[0] {
        Action::MouseMovementEventCollection(items) => {
            assert_eq!(items.len(), 2);
            assert_eq!((items[0].code, items[0].value), (0, 5));
            assert_eq!((items[1].code, items[1].value), (1, -2));
        },
        other => panic!("expected coalesced mouse motion, got {}", kind_of(other)),
    }
}

#[test]
fn remapped_scroll_is_suppressed() {
    // A chord bound to the disguised alias of an upscroll suppresses it, and
    // the zero value counts as positive.
    let disguised_up = 8 * 2 + DISGUISED_EVENT_OFFSETTER;
    let config = Config {
        modmap: vec![],
        keymap_table: vec![(
            disguised_up,
            vec![entry(vec![], vec![KeymapAction::KeyPress(chord(KEY_B, vec![]))], false)],
        )],
        virtual_modifiers: vec![],
    };
    let mut handler = EventHandler::new("default", 0);
    let out = feed(
        &mut handler,
        &config,
        vec![Event::RelativeEvent(RelativeEvent::new_with(8, 0))],
        0,
    );
    // Only the chord comes out; the scroll itself is swallowed.
    assert_eq!(as_key(&out[0]), (KEY_B, 1));
    assert_eq!(as_key(&out[1]), (KEY_B, 0));
    assert!(matches!(out[2], Action::Delay(0)));
    assert_eq!(out.len(), 3);
    // A downscroll maps to a distinct alias and passes through here.
    let out = feed(
        &mut handler,
        &config,
        vec![Event::RelativeEvent(RelativeEvent::new_with(8, -1))],
        0,
    );
    assert_eq!(out.len(), 1);
    assert!(matches!(&out[0], Action::RelativeEvent(r) if r.code == 8 && r.value == -1));
}

#[test]
fn other_events_pass_through() {
    let config = empty_config();
    let mut handler = EventHandler::new("default", 0);
    let raw = evdev::InputEvent::new(3, 1, 42);
    let out = feed(&mut handler, &config, vec![Event::OtherEvents(raw)], 0);
    assert_eq!(out.len(), 1);
    match &out[0] {
        Action::InputEvent(ev) => {
            assert_eq!(ev.code(), 1);
            assert_eq!(ev.value(), 42);
        },
        other => panic!("expected a raw passthrough, got {}", kind_of(other)),
    }
}

#[test]
fn with_mark_adds_shift() {
    let config = Config {
        modmap: vec![],
        keymap_table: vec![
            (KEY_E, vec![entry(vec![], vec![KeymapAction::SetMark(true)], false)]),
            (
                KEY_A,
                vec![entry(
                    vec![],
                    vec![KeymapAction::WithMark(chord(KEY_B, vec![]))],
                    false,
                )],
            ),
        ],
        virtual_modifiers: vec![],
    };
    let mut handler = EventHandler::new("default", 0);
    assert!(feed(&mut handler, &config, vec![key_event(KEY_E, 1)], 0).is_empty());
    let out = feed(&mut handler, &config, vec![key_event(KEY_A, 1)], 0);
    assert_eq!(as_key(&out[0]), (KEY_LEFTSHIFT, 1));
    assert_eq!(as_key(&out[1]), (KEY_B, 1));
    assert_eq!(as_key(&out[2]), (KEY_B, 0));
}

#[test]
fn multi_purpose_repeat_emits_held_press_at_expiry() {
    let config = multi_purpose_config();
    let mut handler = EventHandler::new("default", 0);
    assert!(feed(&mut handler, &config, vec![key_event(KEY_CAPSLOCK, 1)], 0).is_empty());
    // Repeats within the timeout stay silent.
    assert!(feed(&mut handler, &config, vec![key_event(KEY_CAPSLOCK, 2)], 50).is_empty());
    // The first repeat at or past the timeout emits the held press once.
    let out = feed(&mut handler, &config, vec![key_event(KEY_CAPSLOCK, 2)], 120);
    assert_keys(&out, &[(KEY_LEFTCTRL, 1)]);
    // Later repeats emit held repeats.
    let out = feed(&mut handler, &config, vec![key_event(KEY_CAPSLOCK, 2)], 150);
    assert_keys(&out, &[(KEY_LEFTCTRL, 2)]);
}

#[test]
fn keypress_delay_is_emitted() {
    let config = Config {
        modmap: vec![],
        keymap_table: vec![(
            KEY_A,
            vec![entry(vec![], vec![KeymapAction::KeyPress(chord(KEY_B, vec![]))], false)],
        )],
        virtual_modifiers: vec![],
    };
    let mut handler = EventHandler::new("default", 7);
    let out = feed(&mut handler, &config, vec![key_event(KEY_A, 1)], 0);
    assert!(matches!(out[2], Action::Delay(7)));
}

#[test]
fn mode_gates_keymap_rows() {
    // KEY_E switches the mode; KEY_A maps to B only in mode "insert".
    let gated = OverrideEntry {
        modifiers: Rc::new(vec![]),
        actions: Rc::new(vec![Rc::new(KeymapAction::KeyPress(chord(KEY_B, vec![])))]),
        exact_match: false,
        application: None,
        mode: Some(Rc::new(vec!["insert".to_string()])),
    };
    let config = Config {
        modmap: vec![],
        keymap_table: vec![
            (KEY_A, vec![gated]),
            (
                KEY_E,
                vec![entry(
                    vec![],
                    vec![KeymapAction::SetMode("insert".to_string())],
                    false,
                )],
            ),
        ],
        virtual_modifiers: vec![],
    };
    let mut handler = EventHandler::new("default", 0);
    // In the starting mode the row does not apply.
    let out = feed(&mut handler, &config, vec![key_event(KEY_A, 1)], 0);
    assert_keys(&out, &[(KEY_A, 1)]);
    assert!(feed(&mut handler, &config, vec![key_event(KEY_E, 1)], 0).is_empty());
    // In "insert" mode the chord resolves; the pass-through press of KEY_A
    // is still held, so its alias record rewrites nothing here.
    let out = feed(&mut handler, &config, vec![key_event(KEY_A, 2)], 0);
    assert_eq!(as_key(&out[0]), (KEY_B, 1));
}

#[test]
fn with_mark_keeps_shift_when_already_held() {
    // Mark set and Shift physically held: the chord does not require Shift,
    // so Shift is appended to it and the held Shift stays in place.
    let config = Config {
        modmap: vec![],
        keymap_table: vec![
            (KEY_E, vec![entry(vec![], vec![KeymapAction::SetMark(true)], false)]),
            (
                KEY_A,
                vec![entry(
                    vec![],
                    vec![KeymapAction::WithMark(chord(KEY_B, vec![]))],
                    false,
                )],
            ),
        ],
        virtual_modifiers: vec![],
    };
    let mut handler = EventHandler::new("default", 0);
    assert!(feed(&mut handler, &config, vec![key_event(KEY_E, 1)], 0).is_empty());
    feed(&mut handler, &config, vec![key_event(KEY_LEFTSHIFT, 1)], 0);
    let out = feed(&mut handler, &config, vec![key_event(KEY_A, 1)], 0);
    assert_eq!(as_key(&out[0]), (KEY_B, 1));
    assert_eq!(as_key(&out[1]), (KEY_B, 0));
    assert!(matches!(out[2], Action::Delay(0)));
    assert_eq!(out.len(), 3);
}

#[test]
fn with_mark_does_not_duplicate_required_shift() {
    // The chord already requires Shift: the mark appends nothing, and the
    // entourage presses Shift exactly once.
    let config = Config {
        modmap: vec![],
        keymap_table: vec![
            (KEY_E, vec![entry(vec![], vec![KeymapAction::SetMark(true)], false)]),
            (
                KEY_A,
                vec![entry(
                    vec![],
                    vec![KeymapAction::WithMark(chord(KEY_B, vec![Modifier::Shift]))],
                    false,
                )],
            ),
        ],
        virtual_modifiers: vec![],
    };
    let mut handler = EventHandler::new("default", 0);
    assert!(feed(&mut handler, &config, vec![key_event(KEY_E, 1)], 0).is_empty());
    let out = feed(&mut handler, &config, vec![key_event(KEY_A, 1)], 0);
    assert_eq!(as_key(&out[0]), (KEY_LEFTSHIFT, 1));
    assert_eq!(as_key(&out[1]), (KEY_B, 1));
    assert_eq!(as_key(&out[2]), (KEY_B, 0));
    assert!(matches!(out[3], Action::Delay(0)));
    assert_eq!(as_key(&out[4]), (KEY_LEFTSHIFT, 0));
    assert_eq!(out.len(), 5);
}
