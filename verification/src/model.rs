//! The mathematical model of the event handler.
//!
//! Every contract in this crate speaks over these specification functions:
//! an abstract handler state, and one interpreter function per stage of the
//! pipeline (modmap dispatch, press aliasing, multi-purpose flush, keymap
//! resolution, action dispatch, and the per-event step).
use crate::action::TimerOp;
use crate::config::Application;
use crate::config::Config;
use crate::config::KeymapAction;
use crate::config::KeyPress;
use crate::config::Modifier;
use crate::config::ModmapAction;
use crate::config::OverrideEntry;
use crate::config::Remap;
use crate::config::built_entries;
use crate::config::spec_is_remap;
use crate::event::Event;
use crate::event::KeyValue;
use crate::event::RelativeEvent;
use crate::action::RelativeEventAction;
use crate::event_handler::MultiPurposeKeyState;
use crate::keys::Key;
use crate::keys::KEY_LEFTALT;
use crate::keys::KEY_LEFTCTRL;
use crate::keys::KEY_LEFTMETA;
use crate::keys::KEY_LEFTSHIFT;
use crate::keys::KEY_RIGHTALT;
use crate::keys::KEY_RIGHTCTRL;
use crate::keys::KEY_RIGHTMETA;
use crate::keys::KEY_RIGHTSHIFT;
use crate::keys::spec_is_modifier_key;
use crate::DISGUISED_EVENT_OFFSETTER;
use std::rc::Rc;
use vstd::prelude::*;

verus! {

/// An integer key-event value the device layer may produce.
pub open spec fn valid_value(value: i32) -> bool {
    value == 0 || value == 1 || value == 2
}

/// The transition a valid integer value denotes.
pub open spec fn key_value_of(value: i32) -> KeyValue {
    if value == 1 {
        KeyValue::Press
    } else if value == 2 {
        KeyValue::Repeat
    } else {
        KeyValue::Release
    }
}

/// Abstract form of one emitted action.
pub enum ActionM {
    KeyEvent { key: Key, value: KeyValue },
    RelativeEvent { code: u16, value: i32 },
    MouseMovement(Seq<RelativeEventAction>),
    InputEvent(evdev::InputEvent),
    Command(Seq<String>),
    Delay(u64),
}

/// Abstract form of one keymap action.
pub enum KeymapActionM {
    KeyPress(KeyPress),
    Remap(Remap),
    Launch(Seq<String>),
    SetMode(Seq<char>),
    SetMark(bool),
    WithMark(KeyPress),
    EscapeNextKey(bool),
    SetExtraModifiers(Seq<Key>),
}

/// Abstract form of a keymap action value.
pub open spec fn km_action_m(a: KeymapAction) -> KeymapActionM {
    match a {
        KeymapAction::KeyPress(kp) => KeymapActionM::KeyPress(kp),
        KeymapAction::Remap(r) => KeymapActionM::Remap(r),
        KeymapAction::Launch(c) => KeymapActionM::Launch(c@),
        KeymapAction::SetMode(m) => KeymapActionM::SetMode(m@),
        KeymapAction::SetMark(b) => KeymapActionM::SetMark(b),
        KeymapAction::WithMark(kp) => KeymapActionM::WithMark(kp),
        KeymapAction::EscapeNextKey(b) => KeymapActionM::EscapeNextKey(b),
        KeymapAction::SetExtraModifiers(ks) => KeymapActionM::SetExtraModifiers(ks@),
    }
}

/// The abstract state of the handler: every field the pipeline reads or
/// writes, with buffers as sequences.
#[verifier::ext_equal]
pub struct HandlerM {
    pub modifiers: Seq<Key>,
    pub extra_modifiers: Seq<Key>,
    pub pressed_keys: Seq<(Key, Key)>,
    pub app_cache: Option<Seq<char>>,
    pub multi_purpose: Seq<(Key, MultiPurposeKeyState)>,
    pub overrides: Seq<Seq<(Key, Seq<OverrideEntry>)>>,
    pub timeout_key: Option<Key>,
    pub mode: Seq<char>,
    pub mark_set: bool,
    pub escape_next_key: bool,
    pub delay: u64,
    pub actions: Seq<ActionM>,
    pub timer_ops: Seq<TimerOp>,
}

/// Abstract form of one buffered action.
pub open spec fn action_m(a: crate::action::Action) -> ActionM {
    match a {
        crate::action::Action::KeyEvent { key, value } => ActionM::KeyEvent { key, value },
        crate::action::Action::RelativeEvent(r) => ActionM::RelativeEvent {
            code: r.code,
            value: r.value,
        },
        crate::action::Action::MouseMovementEventCollection(v) => ActionM::MouseMovement(v@),
        crate::action::Action::InputEvent(e) => ActionM::InputEvent(e),
        crate::action::Action::Command(c) => ActionM::Command(c@),
        crate::action::Action::Delay(d) => ActionM::Delay(d),
    }
}

/// Abstract form of a buffered action list.
pub open spec fn actions_m(v: Seq<crate::action::Action>) -> Seq<ActionM> {
    v.map_values(|a: crate::action::Action| action_m(a))
}

/// Abstract form of a resolved tagged-action list.
pub open spec fn tagged_m(ts: Seq<crate::event_handler::TaggedAction>) -> Seq<
    (KeymapActionM, bool),
> {
    ts.map_values(|t: crate::event_handler::TaggedAction| (km_action_m(*t.action), t.exact_match))
}

/// `s` without every occurrence of `key`, in order.
pub open spec fn keys_without(s: Seq<Key>, key: Key) -> Seq<Key>
    decreases s.len(),
{
    if s.len() == 0 {
        Seq::empty()
    } else {
        let rest = keys_without(s.drop_last(), key);
        if s.last() != key {
            rest.push(s.last())
        } else {
            rest
        }
    }
}

/// A key-event action in abstract form.
pub open spec fn key_ev(key: Key, value: i32) -> ActionM {
    ActionM::KeyEvent { key, value: key_value_of(value) }
}

/// Key events for each listed key, all with one value.
pub open spec fn keys_acts(keys: Seq<Key>, value: i32) -> Seq<ActionM> {
    keys.map_values(|k: Key| key_ev(k, value))
}

// ---------------------------------------------------------------------------
// Modifier matching and diffing
// ---------------------------------------------------------------------------
/// Whether the required modifier `m` is met by the physical key `key`.
pub open spec fn mod_covers(m: Modifier, key: Key) -> bool {
    match m {
        Modifier::Shift => key == KEY_LEFTSHIFT || key == KEY_RIGHTSHIFT,
        Modifier::Control => key == KEY_LEFTCTRL || key == KEY_RIGHTCTRL,
        Modifier::Alt => key == KEY_LEFTALT || key == KEY_RIGHTALT,
        Modifier::Windows => key == KEY_LEFTMETA || key == KEY_RIGHTMETA,
        Modifier::Key(k) => key == k,
    }
}

/// Whether some required modifier of the list is met by `key`.
pub open spec fn spec_contains_modifier(mods: Seq<Modifier>, key: Key) -> bool {
    exists|i: int| 0 <= i < mods.len() && mod_covers(#[trigger] mods[i], key)
}

/// Whether the pressed set meets the required modifier `m`.
pub open spec fn spec_match_modifier(pressed: Seq<Key>, m: Modifier) -> bool {
    match m {
        Modifier::Shift => pressed.contains(KEY_LEFTSHIFT) || pressed.contains(KEY_RIGHTSHIFT),
        Modifier::Control => pressed.contains(KEY_LEFTCTRL) || pressed.contains(KEY_RIGHTCTRL),
        Modifier::Alt => pressed.contains(KEY_LEFTALT) || pressed.contains(KEY_RIGHTALT),
        Modifier::Windows => pressed.contains(KEY_LEFTMETA) || pressed.contains(KEY_RIGHTMETA),
        Modifier::Key(k) => pressed.contains(k),
    }
}

/// The physical key emitted for a modifier that is required but absent.
pub open spec fn mod_fallback_key(m: Modifier) -> Key {
    match m {
        Modifier::Shift => KEY_LEFTSHIFT,
        Modifier::Control => KEY_LEFTCTRL,
        Modifier::Alt => KEY_LEFTALT,
        Modifier::Windows => KEY_LEFTMETA,
        Modifier::Key(k) => k,
    }
}

/// The pressed keys that the required modifiers do not account for, in
/// pressed order.
pub open spec fn extra_modifiers_of(pressed: Seq<Key>, mods: Seq<Modifier>) -> Seq<Key>
    decreases pressed.len(),
{
    if pressed.len() == 0 {
        Seq::empty()
    } else {
        let rest = extra_modifiers_of(pressed.drop_last(), mods);
        if !spec_contains_modifier(mods, pressed.last()) {
            rest.push(pressed.last())
        } else {
            rest
        }
    }
}

/// The keys to press for required modifiers the pressed set does not meet,
/// in requirement order.
pub open spec fn missing_modifiers_of(pressed: Seq<Key>, mods: Seq<Modifier>) -> Seq<Key>
    decreases mods.len(),
{
    if mods.len() == 0 {
        Seq::empty()
    } else {
        let rest = missing_modifiers_of(pressed, mods.drop_last());
        if !spec_match_modifier(pressed, mods.last()) {
            rest.push(mod_fallback_key(mods.last()))
        } else {
            rest
        }
    }
}

/// The extra modifiers actually released around a chord: physical modifier
/// keys not already treated as virtually released.
pub open spec fn retained_extra(extra: Seq<Key>, extra_state: Seq<Key>) -> Seq<Key>
    decreases extra.len(),
{
    if extra.len() == 0 {
        Seq::empty()
    } else {
        let rest = retained_extra(extra.drop_last(), extra_state);
        if spec_is_modifier_key(extra.last()) && !extra_state.contains(extra.last()) {
            rest.push(extra.last())
        } else {
            rest
        }
    }
}

/// The missing modifiers actually pressed around a chord: physical modifier
/// keys only.
pub open spec fn retained_missing(missing: Seq<Key>) -> Seq<Key>
    decreases missing.len(),
{
    if missing.len() == 0 {
        Seq::empty()
    } else {
        let rest = retained_missing(missing.drop_last());
        if spec_is_modifier_key(missing.last()) {
            rest.push(missing.last())
        } else {
            rest
        }
    }
}

/// The actions emitted for one chord: press the missing modifiers, release
/// the extra ones, press and release the key, delay, then restore.
pub open spec fn keypress_emission(
    pressed: Seq<Key>,
    extra_state: Seq<Key>,
    key: Key,
    mods: Seq<Modifier>,
    delay: u64,
) -> Seq<ActionM> {
    let extra = retained_extra(extra_modifiers_of(pressed, mods), extra_state);
    let missing = retained_missing(missing_modifiers_of(pressed, mods));
    keys_acts(missing, 1) + keys_acts(extra, 0) + seq![
        key_ev(key, 1),
        key_ev(key, 0),
        ActionM::Delay(delay),
    ] + keys_acts(extra, 1) + keys_acts(missing, 0)
}

/// Whether the chord already requires Shift.
pub open spec fn spec_has_shift(mods: Seq<Modifier>) -> bool {
    exists|i: int| 0 <= i < mods.len() && #[trigger] mods[i] is Shift
}

/// The chord modifiers after the mark: Shift is appended when the mark is
/// set and the chord does not already require Shift.
pub open spec fn with_mark_mods(mods: Seq<Modifier>, mark_set: bool) -> Seq<Modifier> {
    if mark_set && !spec_has_shift(mods) {
        mods.push(Modifier::Shift)
    } else {
        mods
    }
}

// ---------------------------------------------------------------------------
// Association lists
// ---------------------------------------------------------------------------
/// The value stored for `key`, scanning from the front.
pub open spec fn assoc_get<V>(s: Seq<(Key, V)>, key: Key) -> Option<V>
    decreases s.len(),
{
    if s.len() == 0 {
        None
    } else if s[0].0 == key {
        Some(s[0].1)
    } else {
        assoc_get(s.skip(1), key)
    }
}

/// `s` with the first binding of `key` removed.
pub open spec fn assoc_remove<V>(s: Seq<(Key, V)>, key: Key) -> Seq<(Key, V)>
    decreases s.len(),
{
    if s.len() == 0 {
        s
    } else if s[0].0 == key {
        s.skip(1)
    } else {
        seq![s[0]] + assoc_remove(s.skip(1), key)
    }
}

/// `s` with `key` bound to `v`: any earlier binding is removed and the new
/// one appended.
pub open spec fn assoc_set<V>(s: Seq<(Key, V)>, key: Key, v: V) -> Seq<(Key, V)> {
    assoc_remove(s, key).push((key, v))
}

/// `s` with the first binding of `key` replaced in place by `v`; unchanged
/// when absent.
pub open spec fn assoc_update<V>(s: Seq<(Key, V)>, key: Key, v: V) -> Seq<(Key, V)>
    decreases s.len(),
{
    if s.len() == 0 {
        s
    } else if s[0].0 == key {
        s.update(0, (key, v))
    } else {
        seq![s[0]] + assoc_update(s.skip(1), key, v)
    }
}

// ---------------------------------------------------------------------------
// Application and mode matching
// ---------------------------------------------------------------------------
/// The focused-application name used for matching: the probed name, or
/// empty when the probe had nothing.
pub open spec fn focus_app(focus: Option<String>) -> Seq<char> {
    match focus {
        Some(s) => s@,
        None => Seq::empty(),
    }
}

/// Whether the matcher accepts the focused application `app`: with `only`,
/// some listed name equals it; otherwise with `not`, no listed name equals
/// it; with neither list, nothing is accepted.
pub open spec fn spec_app_matches(a: Application, app: Seq<char>) -> bool {
    match a.only {
        Some(list) => exists|i: int| 0 <= i < list@.len() && (#[trigger] list@[i])@ == app,
        None => match a.not {
            Some(list) => forall|i: int| 0 <= i < list@.len() ==> (#[trigger] list@[i])@ != app,
            None => false,
        },
    }
}

/// Whether an entry's application filter accepts `app`.
pub open spec fn app_ok(filter: Option<Rc<Application>>, app: Seq<char>) -> bool {
    match filter {
        Some(a) => spec_app_matches(*a, app),
        None => true,
    }
}

/// Whether an entry's mode filter accepts the active mode.
pub open spec fn mode_ok(filter: Option<Rc<Vec<String>>>, mode: Seq<char>) -> bool {
    match filter {
        Some(list) => exists|i: int| 0 <= i < list@.len() && (#[trigger] list@[i])@ == mode,
        None => true,
    }
}

// ---------------------------------------------------------------------------
// Keymap resolution
// ---------------------------------------------------------------------------
/// Whether a row takes part in the given resolution pass.
pub open spec fn entry_accepted(
    e: OverrideEntry,
    pressed: Seq<Key>,
    exact_pass: bool,
    stage2: bool,
    app: Seq<char>,
    mode: Seq<char>,
) -> bool {
    &&& (exact_pass || !e.exact_match)
    &&& missing_modifiers_of(pressed, e.modifiers@).len() == 0
    &&& (!exact_pass || extra_modifiers_of(pressed, e.modifiers@).len() == 0)
    &&& (!stage2 || app_ok(e.application, app))
    &&& (!stage2 || mode_ok(e.mode, mode))
}

/// A row's actions, each tagged with one exact-match flag.
pub open spec fn base_tagged(actions: Seq<Rc<KeymapAction>>, exact_match: bool) -> Seq<
    (KeymapActionM, bool),
> {
    actions.map_values(|a: Rc<KeymapAction>| (km_action_m(*a), exact_match))
}

pub open spec fn with_extra_m(
    actions: Seq<Rc<KeymapAction>>,
    extra: Seq<Key>,
    exact_match: bool,
) -> Seq<(KeymapActionM, bool)> {
    let base = base_tagged(actions, exact_match);
    if extra.len() > 0 {
        seq![(KeymapActionM::SetExtraModifiers(extra), exact_match)] + base + seq![
            (KeymapActionM::SetExtraModifiers(Seq::empty()), exact_match),
        ]
    } else {
        base
    }
}

/// The tagged actions a row contributes when accepted.
pub open spec fn wrapped_actions(e: OverrideEntry, pressed: Seq<Key>) -> Seq<
    (KeymapActionM, bool),
> {
    with_extra_m(e.actions@, extra_modifiers_of(pressed, e.modifiers@), e.exact_match)
}

/// One resolution pass over the rows: the first accepted non-remap row ends
/// the pass with its actions; accepted all-remap rows are collected and
/// returned together at the end.
pub open spec fn pass_actions(
    entries: Seq<OverrideEntry>,
    pressed: Seq<Key>,
    exact_pass: bool,
    stage2: bool,
    app: Seq<char>,
    mode: Seq<char>,
    acc: Seq<(KeymapActionM, bool)>,
) -> Option<Seq<(KeymapActionM, bool)>>
    decreases entries.len(),
{
    if entries.len() == 0 {
        if acc.len() == 0 {
            None
        } else {
            Some(acc)
        }
    } else {
        let e = entries[0];
        let rest = entries.skip(1);
        if !entry_accepted(e, pressed, exact_pass, stage2, app, mode) {
            pass_actions(rest, pressed, exact_pass, stage2, app, mode, acc)
        } else {
            let acts = wrapped_actions(e, pressed);
            if acc.len() == 0 && !spec_is_remap(e.actions@) {
                Some(acts)
            } else if spec_is_remap(e.actions@) {
                pass_actions(rest, pressed, exact_pass, stage2, app, mode, acc + acts)
            } else {
                pass_actions(rest, pressed, exact_pass, stage2, app, mode, acc)
            }
        }
    }
}

/// Two-pass resolution: exact matches first, then loose ones.
pub open spec fn two_pass(
    entries: Seq<OverrideEntry>,
    pressed: Seq<Key>,
    stage2: bool,
    app: Seq<char>,
    mode: Seq<char>,
) -> Option<Seq<(KeymapActionM, bool)>> {
    match pass_actions(entries, pressed, true, stage2, app, mode, Seq::empty()) {
        Some(r) => Some(r),
        None => pass_actions(entries, pressed, false, stage2, app, mode, Seq::empty()),
    }
}

/// The rows a table holds for `key` (first binding, as tables bind each key
/// once).
pub open spec fn table_entries(t: Seq<(Key, Seq<OverrideEntry>)>, key: Key) -> Seq<OverrideEntry> {
    match assoc_get(t, key) {
        Some(entries) => entries,
        None => Seq::empty(),
    }
}

/// The rows the override stack holds for `key`, in stack order.
pub open spec fn stack_entries(
    stack: Seq<Seq<(Key, Seq<OverrideEntry>)>>,
    key: Key,
) -> Seq<OverrideEntry>
    decreases stack.len(),
{
    if stack.len() == 0 {
        Seq::empty()
    } else {
        table_entries(stack[0], key) + stack_entries(stack.skip(1), key)
    }
}

/// The abstract form of an override table.
pub open spec fn table_m(t: Vec<(Key, Vec<OverrideEntry>)>) -> Seq<(Key, Seq<OverrideEntry>)> {
    t@.map_values(|p: (Key, Vec<OverrideEntry>)| (p.0, p.1@))
}

/// The abstract table a nested remap pushes, rows widened by the pushing
/// chord's exact-match flag.
pub open spec fn built_table_m(t: Vec<(Key, Vec<OverrideEntry>)>, exact_match: bool) -> Seq<
    (Key, Seq<OverrideEntry>),
> {
    t@.map_values(|p: (Key, Vec<OverrideEntry>)| (p.0, built_entries(p.1@, exact_match)))
}

// ---------------------------------------------------------------------------
// State transformers
// ---------------------------------------------------------------------------
/// Clearing the override state: the timer is disarmed, the stack and the
/// timeout key are dropped.
pub open spec fn spec_remove_override(s: HandlerM) -> HandlerM {
    HandlerM {
        overrides: Seq::empty(),
        timeout_key: None,
        timer_ops: s.timer_ops.push(TimerOp::Disarm),
        ..s
    }
}

/// Override expiry: the pending timeout key, if any, is emitted as a press
/// and release, then the override state is cleared.
pub open spec fn timeout_state(s: HandlerM) -> HandlerM {
    let s1 = match s.timeout_key {
        Some(k) => HandlerM { actions: s.actions + seq![key_ev(k, 1), key_ev(k, 0)], ..s },
        None => s,
    };
    spec_remove_override(s1)
}

/// Effect of one tagged keymap action on the handler state.
pub open spec fn apply_tagged(s: HandlerM, a: KeymapActionM, exact_match: bool, key: Key) -> HandlerM {
    match a {
        KeymapActionM::KeyPress(kp) => HandlerM {
            actions: s.actions + keypress_emission(
                s.modifiers,
                s.extra_modifiers,
                kp.key,
                kp.modifiers@,
                s.delay,
            ),
            ..s
        },
        KeymapActionM::Remap(r) => {
            let pushed = HandlerM {
                overrides: s.overrides.push(built_table_m(r.remap, exact_match)),
                ..s
            };
            if s.overrides.len() == 0 && r.timeout_millis is Some {
                HandlerM {
                    timer_ops: pushed.timer_ops + seq![
                        TimerOp::Disarm,
                        TimerOp::Arm(r.timeout_millis->Some_0),
                    ],
                    timeout_key: match r.timeout_key {
                        Some(k) => Some(k),
                        None => Some(key),
                    },
                    ..pushed
                }
            } else {
                pushed
            }
        },
        KeymapActionM::Launch(cmd) => HandlerM {
            actions: s.actions.push(ActionM::Command(cmd)),
            ..s
        },
        KeymapActionM::SetMode(m) => HandlerM { mode: m, ..s },
        KeymapActionM::SetMark(b) => HandlerM { mark_set: b, ..s },
        KeymapActionM::WithMark(kp) => HandlerM {
            actions: s.actions + keypress_emission(
                s.modifiers,
                s.extra_modifiers,
                kp.key,
                with_mark_mods(kp.modifiers@, s.mark_set),
                s.delay,
            ),
            ..s
        },
        KeymapActionM::EscapeNextKey(b) => HandlerM { escape_next_key: b, ..s },
        KeymapActionM::SetExtraModifiers(ks) => HandlerM { extra_modifiers: ks, ..s },
    }
}

/// Effect of a list of tagged actions, applied in order.
pub open spec fn apply_tagged_seq(
    s: HandlerM,
    acts: Seq<(KeymapActionM, bool)>,
    key: Key,
) -> HandlerM
    decreases acts.len(),
{
    if acts.len() == 0 {
        s
    } else {
        apply_tagged_seq(apply_tagged(s, acts[0].0, acts[0].1, key), acts.skip(1), key)
    }
}

/// Keymap lookup for a pressed key: consume the override stack when it has
/// rows for the key, fire the pending timeout when it does not, then fall
/// back to the static table with application and mode filters.
pub open spec fn spec_find_keymap(s: HandlerM, cfg: Config, key: Key, app: Seq<char>) -> (
    HandlerM,
    Option<Seq<(KeymapActionM, bool)>>,
) {
    let base = table_entries(table_m(cfg.keymap_table), key);
    let stage2 = two_pass(base, s.modifiers, true, app, s.mode);
    if s.overrides.len() > 0 {
        let ov = stack_entries(s.overrides, key);
        if ov.len() > 0 {
            let s1 = spec_remove_override(s);
            match two_pass(ov, s1.modifiers, false, app, s1.mode) {
                Some(r) => (s1, Some(r)),
                None => (timeout_state(s1), stage2),
            }
        } else {
            (timeout_state(s), stage2)
        }
    } else {
        (s, stage2)
    }
}

/// Modmap lookup: the first block that binds `key` and whose application
/// filter accepts the focused application.
pub open spec fn spec_find_modmap(
    modmaps: Seq<crate::config::Modmap>,
    key: Key,
    app: Seq<char>,
) -> Option<ModmapAction>
    decreases modmaps.len(),
{
    if modmaps.len() == 0 {
        None
    } else {
        match assoc_get(modmaps[0].remap@, key) {
            Some(action) => if app_ok(modmaps[0].application, app) {
                Some(action)
            } else {
                spec_find_modmap(modmaps.skip(1), key, app)
            },
            None => spec_find_modmap(modmaps.skip(1), key, app),
        }
    }
}

// ---------------------------------------------------------------------------
// Multi-purpose key timing
// ---------------------------------------------------------------------------
/// A multi-purpose state after a repeat at `now`.
pub open spec fn repeat_state(st: MultiPurposeKeyState, now: u64) -> MultiPurposeKeyState {
    match st.alone_timeout_at {
        Some(t) => if now < t {
            st
        } else {
            MultiPurposeKeyState { alone_timeout_at: None, ..st }
        },
        None => st,
    }
}

/// What a repeat at `now` emits: nothing while still delayed, the held
/// press at expiry, repeats of the held key after.
pub open spec fn repeat_out(st: MultiPurposeKeyState, now: u64) -> Seq<(Key, i32)> {
    match st.alone_timeout_at {
        Some(t) => if now < t {
            Seq::empty()
        } else {
            seq![(st.held, 1)]
        },
        None => seq![(st.held, 2)],
    }
}

/// What a release at `now` emits: the alone tap within the timeout, the
/// held pair at or after it, or just the held release once resolved.
pub open spec fn release_out(st: MultiPurposeKeyState, now: u64) -> Seq<(Key, i32)> {
    match st.alone_timeout_at {
        Some(t) => if now < t {
            seq![(st.alone, 1), (st.alone, 0)]
        } else {
            seq![(st.held, 1), (st.held, 0)]
        },
        None => seq![(st.held, 0)],
    }
}

/// A state forced into held resolution.
pub open spec fn forced_state(st: MultiPurposeKeyState) -> MultiPurposeKeyState {
    MultiPurposeKeyState { alone_timeout_at: None, ..st }
}

/// What forcing a state emits: the held press, once, if still delayed.
pub open spec fn force_out(st: MultiPurposeKeyState) -> Seq<(Key, i32)> {
    if st.alone_timeout_at is Some {
        seq![(st.held, 1)]
    } else {
        Seq::empty()
    }
}

/// The presses emitted when every pending multi-purpose key is forced held,
/// in table order.
pub open spec fn flushed_of(multi: Seq<(Key, MultiPurposeKeyState)>) -> Seq<(Key, i32)>
    decreases multi.len(),
{
    if multi.len() == 0 {
        Seq::empty()
    } else {
        force_out(multi[0].1) + flushed_of(multi.skip(1))
    }
}

/// Whether some emitted pair is a press.
pub open spec fn any_press(kvs: Seq<(Key, i32)>) -> bool {
    exists|i: int| 0 <= i < kvs.len() && (#[trigger] kvs[i]).1 == 1
}

/// Every emitted value is a valid transition.
pub open spec fn all_valid(kvs: Seq<(Key, i32)>) -> bool {
    forall|i: int| 0 <= i < kvs.len() ==> valid_value((#[trigger] kvs[i]).1)
}

/// Hook actions of a press-release substitution, tagged for dispatch.
pub open spec fn hooks_tagged(hooks: Seq<KeymapAction>) -> Seq<(KeymapActionM, bool)> {
    hooks.map_values(|a: KeymapAction| (km_action_m(a), false))
}

/// Modmap dispatch: what one substitution does to the state and which
/// key-value pairs go on through the pipeline.
pub open spec fn spec_dispatch_keys(
    s: HandlerM,
    action: ModmapAction,
    key: Key,
    value: i32,
    now: u64,
) -> (HandlerM, Seq<(Key, i32)>) {
    match action {
        ModmapAction::Key(k) => (s, seq![(k, value)]),
        ModmapAction::MultiPurposeKey(mp) => {
            if value == 1 {
                let st = MultiPurposeKeyState {
                    held: mp.held,
                    alone: mp.alone,
                    alone_timeout_at: Some(now.saturating_add(mp.alone_timeout_millis)),
                };
                (HandlerM { multi_purpose: assoc_set(s.multi_purpose, key, st), ..s }, Seq::empty())
            } else if value == 2 {
                match assoc_get(s.multi_purpose, key) {
                    Some(st) => (
                        HandlerM {
                            multi_purpose: assoc_update(s.multi_purpose, key, repeat_state(st, now)),
                            ..s
                        },
                        repeat_out(st, now),
                    ),
                    None => (s, seq![(key, value)]),
                }
            } else {
                match assoc_get(s.multi_purpose, key) {
                    Some(st) => (
                        HandlerM { multi_purpose: assoc_remove(s.multi_purpose, key), ..s },
                        release_out(st, now),
                    ),
                    None => (s, seq![(key, value)]),
                }
            }
        },
        ModmapAction::PressReleaseKey(pr) => {
            if value == 1 || value == 0 {
                let hooks = if value == 1 {
                    pr.press@
                } else {
                    pr.release@
                };
                (apply_tagged_seq(s, hooks_tagged(hooks), key), seq![(key, value)])
            } else {
                (s, seq![(key, value)])
            }
        },
    }
}

/// Press aliasing: a press records the key it was emitted as; a release or
/// repeat of a recorded key is rewritten to that key, and a release forgets
/// it. Skipped unless exactly one pair with the original value is in flight.
pub open spec fn spec_maintain(
    pressed_keys: Seq<(Key, Key)>,
    key: Key,
    value: i32,
    kvs: Seq<(Key, i32)>,
) -> (Seq<(Key, Key)>, Seq<(Key, i32)>) {
    if kvs.len() != 1 || value != kvs[0].1 {
        (pressed_keys, kvs)
    } else if value == 1 {
        (assoc_set(pressed_keys, key, kvs[0].0), kvs)
    } else {
        let kvs2 = match assoc_get(pressed_keys, key) {
            Some(orig) => seq![(orig, value)],
            None => kvs,
        };
        let pressed2 = if value == 0 {
            assoc_remove(pressed_keys, key)
        } else {
            pressed_keys
        };
        (pressed2, kvs2)
    }
}

/// Multi-purpose flush: any press in flight forces every pending key into
/// held resolution, and the forced presses go first.
pub open spec fn spec_flush(
    multi: Seq<(Key, MultiPurposeKeyState)>,
    kvs: Seq<(Key, i32)>,
) -> (Seq<(Key, MultiPurposeKeyState)>, Seq<(Key, i32)>) {
    if !any_press(kvs) {
        (multi, kvs)
    } else {
        (
            multi.map_values(|p: (Key, MultiPurposeKeyState)| (p.0, forced_state(p.1))),
            flushed_of(multi) + kvs,
        )
    }
}

/// The pressed-modifier set after a key event: a press inserts, a release
/// removes, a repeat leaves it.
pub open spec fn upd_modifiers(modifiers: Seq<Key>, key: Key, value: i32) -> Seq<Key> {
    if value == 1 {
        if modifiers.contains(key) {
            modifiers
        } else {
            modifiers.push(key)
        }
    } else if value == 0 {
        keys_without(modifiers, key)
    } else {
        modifiers
    }
}

// ---------------------------------------------------------------------------
// The per-event step
// ---------------------------------------------------------------------------
/// One key-value pair through the keymap stage. Returns the next state and
/// whether this pair asks the caller to re-emit the original relative event.
pub open spec fn spec_key_step(
    s: HandlerM,
    cfg: Config,
    k: Key,
    v: i32,
    app: Seq<char>,
    orig_code: u16,
    orig_value: i32,
    send_flag: bool,
) -> (HandlerM, bool) {
    if cfg.virtual_modifiers@.contains(k) {
        (HandlerM { modifiers: upd_modifiers(s.modifiers, k, v), ..s }, send_flag)
    } else {
        let s1 = if spec_is_modifier_key(k) {
            HandlerM { modifiers: upd_modifiers(s.modifiers, k, v), ..s }
        } else {
            s
        };
        let dispatched = if !spec_is_modifier_key(k) && (v == 1 || v == 2) {
            if s.escape_next_key {
                Some((HandlerM { escape_next_key: false, ..s1 }, false))
            } else {
                let (s2, found) = spec_find_keymap(s1, cfg, k, app);
                match found {
                    Some(acts) => Some((apply_tagged_seq(s2, acts, k), true)),
                    None => Some((s2, false)),
                }
            }
        } else {
            None
        };
        match dispatched {
            Some((s2, was_dispatched)) => if was_dispatched {
                (s2, send_flag)
            } else if k >= DISGUISED_EVENT_OFFSETTER && k == orig_code && v == orig_value {
                (s2, true)
            } else {
                (HandlerM { actions: s2.actions.push(key_ev(k, v)), ..s2 }, send_flag)
            },
            None => if k >= DISGUISED_EVENT_OFFSETTER && k == orig_code && v == orig_value {
                (s1, true)
            } else {
                (HandlerM { actions: s1.actions.push(key_ev(k, v)), ..s1 }, send_flag)
            },
        }
    }
}

/// The keymap stage over a list of key-value pairs.
pub open spec fn spec_key_loop(
    s: HandlerM,
    cfg: Config,
    kvs: Seq<(Key, i32)>,
    app: Seq<char>,
    orig_code: u16,
    orig_value: i32,
    send_flag: bool,
) -> (HandlerM, bool)
    decreases kvs.len(),
{
    if kvs.len() == 0 {
        (s, send_flag)
    } else {
        let (s1, f1) = spec_key_step(s, cfg, kvs[0].0, kvs[0].1, app, orig_code, orig_value, send_flag);
        spec_key_loop(s1, cfg, kvs.skip(1), app, orig_code, orig_value, f1)
    }
}

/// The pipeline prefix of one key event: cache refresh, modmap dispatch,
/// press aliasing and multi-purpose flush. Returns the state and the
/// key-value pairs the keymap stage then walks.
pub open spec fn spec_prepare_key_event(
    s: HandlerM,
    cfg: Config,
    code: u16,
    value: i32,
    focus: Option<String>,
    now: u64,
) -> (HandlerM, Seq<(Key, i32)>) {
    let app = focus_app(focus);
    let s0 = HandlerM { app_cache: Some(app), ..s };
    let (s1, kvs0) = match spec_find_modmap(cfg.modmap@, code, app) {
        Some(action) => spec_dispatch_keys(s0, action, code, value, now),
        None => (s0, seq![(code, value)]),
    };
    let (pressed2, kvs1) = spec_maintain(s1.pressed_keys, code, value, kvs0);
    let s2 = HandlerM { pressed_keys: pressed2, ..s1 };
    let (multi2, kvs2) = if s2.multi_purpose.len() > 0 {
        spec_flush(s2.multi_purpose, kvs1)
    } else {
        (s2.multi_purpose, kvs1)
    };
    (HandlerM { multi_purpose: multi2, ..s2 }, kvs2)
}

/// One key event through the whole pipeline: cache refresh, modmap, press
/// aliasing, multi-purpose flush, then the keymap stage pair by pair.
pub open spec fn spec_on_key_event(
    s: HandlerM,
    cfg: Config,
    code: u16,
    value: i32,
    focus: Option<String>,
    now: u64,
) -> (HandlerM, bool) {
    let (s3, kvs2) = spec_prepare_key_event(s, cfg, code, value, focus, now);
    spec_key_loop(s3, cfg, kvs2, focus_app(focus), code, value, false)
}

// ---------------------------------------------------------------------------
// Relative events and the event loop
// ---------------------------------------------------------------------------
/// The synthetic scancode a relative event is disguised as: the axis code
/// doubled, plus one for a negative value, offset above all real scancodes.
/// A zero value counts as positive.
pub open spec fn disguised_code(code: u16, value: i32) -> int {
    2 * code + (if value < 0 {
        1int
    } else {
        0int
    }) + DISGUISED_EVENT_OFFSETTER
}

/// A relative event the disguise arithmetic accepts without overflow.
pub open spec fn rel_wf(code: u16) -> bool {
    2 * code + 1 + DISGUISED_EVENT_OFFSETTER <= u16::MAX
}

/// An event the handler accepts.
pub open spec fn event_wf(e: Event) -> bool {
    match e {
        Event::RelativeEvent(re) => rel_wf(re.code),
        _ => true,
    }
}

/// One relative event: a disguised press, then — when the press passed
/// through unchanged — the original event, buffered for pointer axes and
/// emitted directly otherwise, then a disguised release.
pub open spec fn spec_on_relative_event(
    s: HandlerM,
    coll: Seq<RelativeEvent>,
    re: RelativeEvent,
    cfg: Config,
    focus: Option<String>,
    now: u64,
) -> (HandlerM, Seq<RelativeEvent>) {
    let key = disguised_code(re.code, re.value) as u16;
    let (s1, send) = spec_on_key_event(s, cfg, key, 1, focus, now);
    let (s2, coll2) = if send {
        if re.code <= 2 {
            (s1, coll.push(re))
        } else {
            (
                HandlerM {
                    actions: s1.actions.push(
                        ActionM::RelativeEvent { code: re.code, value: re.value },
                    ),
                    ..s1
                },
                coll,
            )
        }
    } else {
        (s1, coll)
    };
    (spec_on_key_event(s2, cfg, key, 0, focus, now).0, coll2)
}

/// One incoming event.
pub open spec fn spec_on_event(
    s: HandlerM,
    coll: Seq<RelativeEvent>,
    ev: Event,
    cfg: Config,
    focus: Option<String>,
    now: u64,
) -> (HandlerM, Seq<RelativeEvent>) {
    match ev {
        Event::KeyEvent(ke) => (
            spec_on_key_event(s, cfg, ke.key, ke.value.spec_value(), focus, now).0,
            coll,
        ),
        Event::RelativeEvent(re) => spec_on_relative_event(s, coll, re, cfg, focus, now),
        Event::OtherEvents(raw) => (
            HandlerM { actions: s.actions.push(ActionM::InputEvent(raw)), ..s },
            coll,
        ),
        Event::OverrideTimeout => (timeout_state(s), coll),
    }
}

/// A batch of events, in order.
pub open spec fn spec_events_loop(
    s: HandlerM,
    coll: Seq<RelativeEvent>,
    events: Seq<Event>,
    cfg: Config,
    focus: Option<String>,
    now: u64,
) -> (HandlerM, Seq<RelativeEvent>)
    decreases events.len(),
{
    if events.len() == 0 {
        (s, coll)
    } else {
        let (s1, coll1) = spec_on_event(s, coll, events[0], cfg, focus, now);
        spec_events_loop(s1, coll1, events.skip(1), cfg, focus, now)
    }
}

/// The mouse-motion actions buffered during a batch, as one collection.
pub open spec fn rel_actions_of(coll: Seq<RelativeEvent>) -> Seq<RelativeEventAction> {
    coll.map_values(|r: RelativeEvent| RelativeEventAction { code: r.code, value: r.value })
}

/// A whole batch: every event in order, then the coalesced mouse motion.
pub open spec fn spec_on_events(
    s: HandlerM,
    events: Seq<Event>,
    cfg: Config,
    focus: Option<String>,
    now: u64,
) -> HandlerM {
    let (s1, coll) = spec_events_loop(s, Seq::empty(), events, cfg, focus, now);
    if coll.len() > 0 {
        HandlerM { actions: s1.actions.push(ActionM::MouseMovement(rel_actions_of(coll))), ..s1 }
    } else {
        s1
    }
}

// ---------------------------------------------------------------------------
// Lemmas about the recursive model functions
// ---------------------------------------------------------------------------
/// Appending one tagged action folds as one more application.
pub proof fn lemma_apply_tagged_seq_snoc(
    s: HandlerM,
    acts: Seq<(KeymapActionM, bool)>,
    a: (KeymapActionM, bool),
    key: Key,
)
    ensures
        apply_tagged_seq(s, acts.push(a), key) == apply_tagged(
            apply_tagged_seq(s, acts, key),
            a.0,
            a.1,
            key,
        ),
    decreases acts.len(),
{
    if acts.len() == 0 {
        assert(acts.push(a)[0] == a);
        assert(acts.push(a).skip(1) =~= Seq::empty());
        assert(apply_tagged_seq(s, acts, key) == s);
        assert(apply_tagged_seq(apply_tagged(s, a.0, a.1, key), acts.push(a).skip(1), key)
            == apply_tagged(s, a.0, a.1, key));
    } else {
        assert(acts.push(a)[0] == acts[0]);
        assert(acts.push(a).skip(1) =~= acts.skip(1).push(a));
        let s1 = apply_tagged(s, acts[0].0, acts[0].1, key);
        lemma_apply_tagged_seq_snoc(s1, acts.skip(1), a, key);
        assert(apply_tagged_seq(s, acts.push(a), key) == apply_tagged_seq(
            s1,
            acts.skip(1).push(a),
            key,
        ));
        assert(apply_tagged_seq(s, acts, key) == apply_tagged_seq(s1, acts.skip(1), key));
    }
}

/// Dispatching tagged actions never touches the application cache, the
/// pressed modifiers, the aliasing table or the multi-purpose table.
pub broadcast proof fn lemma_apply_tagged_seq_cache(
    s: HandlerM,
    acts: Seq<(KeymapActionM, bool)>,
    key: Key,
)
    ensures
        (#[trigger] apply_tagged_seq(s, acts, key)).app_cache == s.app_cache,
        apply_tagged_seq(s, acts, key).modifiers == s.modifiers,
        apply_tagged_seq(s, acts, key).pressed_keys == s.pressed_keys,
        apply_tagged_seq(s, acts, key).multi_purpose == s.multi_purpose,
        apply_tagged_seq(s, acts, key).delay == s.delay,
    decreases acts.len(),
{
    if acts.len() > 0 {
        lemma_apply_tagged_seq_cache(apply_tagged(s, acts[0].0, acts[0].1, key), acts.skip(1), key);
    }
}

/// Appending one pending key extends the flush output at the end.
pub proof fn lemma_flushed_of_snoc(s: Seq<(Key, MultiPurposeKeyState)>, x: (Key, MultiPurposeKeyState))
    ensures
        flushed_of(s.push(x)) == flushed_of(s) + force_out(x.1),
    decreases s.len(),
{
    if s.len() == 0 {
        assert(s.push(x)[0] == x);
        assert(s.push(x).skip(1) =~= Seq::empty());
        assert(flushed_of(s.push(x).skip(1)) =~= Seq::empty());
        assert(flushed_of(s) =~= Seq::empty());
        assert(flushed_of(s.push(x)) =~= flushed_of(s) + force_out(x.1));
    } else {
        assert(s.push(x)[0] == s[0]);
        assert(s.push(x).skip(1) =~= s.skip(1).push(x));
        lemma_flushed_of_snoc(s.skip(1), x);
        assert(flushed_of(s.push(x)) == force_out(s[0].1) + flushed_of(s.skip(1).push(x)));
        assert(flushed_of(s) == force_out(s[0].1) + flushed_of(s.skip(1)));
        assert(flushed_of(s.push(x)) =~= flushed_of(s) + force_out(x.1));
    }
}

/// Appending one table extends the stack's rows at the end.
pub proof fn lemma_stack_entries_snoc(
    stack: Seq<Seq<(Key, Seq<OverrideEntry>)>>,
    t: Seq<(Key, Seq<OverrideEntry>)>,
    key: Key,
)
    ensures
        stack_entries(stack.push(t), key) == stack_entries(stack, key) + table_entries(t, key),
    decreases stack.len(),
{
    if stack.len() == 0 {
        assert(stack.push(t)[0] == t);
        assert(stack.push(t).skip(1) =~= Seq::empty());
        assert(stack_entries(stack.push(t).skip(1), key) =~= Seq::empty());
        assert(stack_entries(stack, key) =~= Seq::empty());
        assert(stack_entries(stack.push(t), key) =~= stack_entries(stack, key) + table_entries(
            t,
            key,
        ));
    } else {
        assert(stack.push(t)[0] == stack[0]);
        assert(stack.push(t).skip(1) =~= stack.skip(1).push(t));
        lemma_stack_entries_snoc(stack.skip(1), t, key);
        assert(stack_entries(stack.push(t), key) == table_entries(stack[0], key) + stack_entries(
            stack.skip(1).push(t),
            key,
        ));
        assert(stack_entries(stack, key) == table_entries(stack[0], key) + stack_entries(
            stack.skip(1),
            key,
        ));
        assert(stack_entries(stack.push(t), key) =~= stack_entries(stack, key) + table_entries(
            t,
            key,
        ));
    }
}

/// Every pair a flush emits carries a press value.
pub proof fn lemma_flushed_valid(multi: Seq<(Key, MultiPurposeKeyState)>)
    ensures
        all_valid(flushed_of(multi)),
        forall|i: int| 0 <= i < flushed_of(multi).len() ==> (#[trigger] flushed_of(multi)[i]).1 == 1,
    decreases multi.len(),
{
    if multi.len() > 0 {
        lemma_flushed_valid(multi.skip(1));
    }
}

/// What the association operations do at the first binding of `key`.
pub proof fn lemma_assoc_found<V>(s: Seq<(Key, V)>, key: Key, i: int)
    requires
        0 <= i < s.len(),
        s[i].0 == key,
        forall|j: int| 0 <= j < i ==> (#[trigger] s[j]).0 != key,
    ensures
        assoc_get(s, key) == Some(s[i].1),
        assoc_remove(s, key) == s.subrange(0, i) + s.skip(i + 1),
    decreases i,
{
    if i == 0 {
        assert(assoc_remove(s, key) =~= s.subrange(0, 0int) + s.skip(1));
    } else {
        assert(forall|j: int|
            0 <= j < i - 1 ==> (#[trigger] s.skip(1)[j]).0 == s[j + 1].0 && s[j + 1].0 != key);
        lemma_assoc_found(s.skip(1), key, i - 1);
        assert(s.skip(1)[i - 1] == s[i]);
        assert(assoc_remove(s, key) =~= s.subrange(0, i) + s.skip(i + 1)) by {
            assert(assoc_remove(s.skip(1), key) == s.skip(1).subrange(0, i - 1) + s.skip(1).skip(i));
            assert(seq![s[0]] + (s.skip(1).subrange(0, i - 1) + s.skip(1).skip(i)) =~= s.subrange(
                0,
                i,
            ) + s.skip(i + 1));
        }
    }
}

/// In-place replacement at the first binding of `key`.
pub proof fn lemma_assoc_update_found<V>(s: Seq<(Key, V)>, key: Key, v: V, i: int)
    requires
        0 <= i < s.len(),
        s[i].0 == key,
        forall|j: int| 0 <= j < i ==> (#[trigger] s[j]).0 != key,
    ensures
        assoc_update(s, key, v) == s.update(i, (key, v)),
    decreases i,
{
    if i == 0 {
        assert(assoc_update(s, key, v) =~= s.update(0, (key, v)));
    } else {
        assert(forall|j: int|
            0 <= j < i - 1 ==> (#[trigger] s.skip(1)[j]).0 == s[j + 1].0 && s[j + 1].0 != key);
        lemma_assoc_update_found(s.skip(1), key, v, i - 1);
        assert(s.skip(1)[i - 1] == s[i]);
        assert(assoc_update(s, key, v) =~= s.update(i, (key, v))) by {
            assert(s.skip(1).update(i - 1, (key, v)) =~= s.update(i, (key, v)).skip(1));
            assert(seq![s[0]] + s.skip(1).update(i - 1, (key, v)) =~= s.update(i, (key, v)));
        }
    }
}

/// The association operations when `key` is absent.
pub proof fn lemma_assoc_none<V>(s: Seq<(Key, V)>, key: Key, v: V)
    requires
        forall|j: int| 0 <= j < s.len() ==> (#[trigger] s[j]).0 != key,
    ensures
        assoc_get(s, key) == None::<V>,
        assoc_remove(s, key) == s,
        assoc_update(s, key, v) == s,
    decreases s.len(),
{
    if s.len() == 0 {
        assert(assoc_remove(s, key) =~= s);
        assert(assoc_update(s, key, v) =~= s);
    } else {
        assert(forall|j: int|
            0 <= j < s.skip(1).len() ==> (#[trigger] s.skip(1)[j]).0 == s[j + 1].0 && s[j + 1].0
                != key);
        lemma_assoc_none(s.skip(1), key, v);
        assert(assoc_remove(s, key) =~= s) by {
            assert(seq![s[0]] + s.skip(1) =~= s);
        }
        assert(assoc_update(s, key, v) =~= s) by {
            assert(seq![s[0]] + s.skip(1) =~= s);
        }
    }
}

} // verus!
