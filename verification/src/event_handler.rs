//! The stateful event handler: the core that turns raw input events into
//! synthetic actions under a remap configuration.
use crate::action::Action;
use crate::action::TimerOp;
use crate::config::Application;
use crate::config::Config;
use crate::config::KeymapAction;
use crate::config::is_remap;
use crate::config::KeyPress;
use crate::config::Modifier;
use crate::config::OverrideEntry;
use crate::event::Event;
use crate::event::KeyValue;
use crate::keys::Key;
use crate::keys::is_modifier_key;
use crate::keys::spec_is_modifier_key;
use crate::model::HandlerM;
use crate::model::key_ev;
use crate::model::key_value_of;
use crate::model::keys_acts;
use crate::model::keys_without;
use crate::model::keypress_emission;
use crate::model::extra_modifiers_of;
use crate::model::missing_modifiers_of;
use crate::model::retained_extra;
use crate::model::retained_missing;
use crate::model::mod_covers;
use crate::model::spec_contains_modifier;
use crate::model::spec_match_modifier;
use crate::model::spec_app_matches;
use crate::model::with_mark_mods;
use crate::model::valid_value;
use crate::model::table_m;
use crate::outside::rc_dup;
use std::rc::Rc;
use vstd::prelude::*;

verus! {

broadcast use crate::model::lemma_apply_tagged_seq_cache;

/// Integer value of a key release.
pub const RELEASE: i32 = 0;

/// Integer value of a key press.
pub const PRESS: i32 = 1;

/// Integer value of a key repeat.
pub const REPEAT: i32 = 2;

/// Whether a key-event value is a press or a repeat.
pub fn is_pressed(value: i32) -> (r: bool)
    ensures
        r == (value == 1 || value == 2),
{
    value == PRESS || value == REPEAT
}

/// A keymap action resolved for dispatch, tagged with the exact-match flag
/// of the row it came from.
pub struct TaggedAction {
    pub action: Rc<KeymapAction>,
    pub exact_match: bool,
}

/// The timing state of one pressed multi-purpose key.
#[derive(Clone, Copy, PartialEq, Eq, Structural, Debug)]
pub struct MultiPurposeKeyState {
    pub held: Key,
    pub alone: Key,
    /// The instant, in milliseconds, until which a lone tap still counts;
    /// `None` once the key is resolved as held.
    pub alone_timeout_at: Option<u64>,
}

impl MultiPurposeKeyState {
    /// A repeat: keep delaying within the timeout, emit the held press once
    /// at expiry, and held repeats after that.
    pub fn repeat(&mut self, now: u64) -> (r: Vec<(Key, i32)>)
        ensures
            *final(self) == crate::model::repeat_state(*old(self), now),
            r@ == crate::model::repeat_out(*old(self), now),
    {
        let mut out: Vec<(Key, i32)> = Vec::new();
        match self.alone_timeout_at {
            Some(timeout_at) => {
                if now < timeout_at {
                } else {
                    self.alone_timeout_at = None;
                    out.push((self.held, PRESS));
                }
            },
            None => {
                out.push((self.held, REPEAT));
            },
        }
        proof {
            assert(out@ =~= crate::model::repeat_out(*old(self), now));
        }
        out
    }

    /// A release: the lone tap within the timeout, the held pair at or
    /// after it, or only the held release once resolved.
    pub fn release(&self, now: u64) -> (r: Vec<(Key, i32)>)
        ensures
            r@ == crate::model::release_out(*self, now),
    {
        let mut out: Vec<(Key, i32)> = Vec::new();
        match self.alone_timeout_at {
            Some(timeout_at) => {
                if now < timeout_at {
                    out.push((self.alone, PRESS));
                    out.push((self.alone, RELEASE));
                } else {
                    out.push((self.held, PRESS));
                    out.push((self.held, RELEASE));
                }
            },
            None => {
                out.push((self.held, RELEASE));
            },
        }
        proof {
            assert(out@ =~= crate::model::release_out(*self, now));
        }
        out
    }

    /// Forcing: a still-pending key resolves as held and emits its press.
    pub fn force_held(&mut self) -> (r: Vec<(Key, i32)>)
        ensures
            *final(self) == crate::model::forced_state(*old(self)),
            r@ == crate::model::force_out(*old(self)),
    {
        let mut out: Vec<(Key, i32)> = Vec::new();
        if self.alone_timeout_at.is_some() {
            self.alone_timeout_at = None;
            out.push((self.held, PRESS));
        }
        proof {
            assert(out@ =~= crate::model::force_out(*old(self)));
        }
        out
    }
}

/// The stateful core: consumes events, carries the four interacting state
/// machines, and buffers the actions and timer commands one batch produces.
pub struct EventHandler {
    /// Currently pressed modifier keys.
    pub modifiers: Vec<Key>,
    /// Modifiers treated as virtually released while emitting a chord.
    pub extra_modifiers: Vec<Key>,
    /// For each physically held key, the key its press was emitted as.
    pub pressed_keys: Vec<(Key, Key)>,
    /// The focused application, resolved once per key event.
    pub application_cache: Option<String>,
    /// Pending multi-purpose keys and their timing state.
    pub multi_purpose_keys: Vec<(Key, MultiPurposeKeyState)>,
    /// The stack of nested override tables.
    pub override_remaps: Vec<Vec<(Key, Vec<OverrideEntry>)>>,
    /// The key emitted if the override expires unused.
    pub override_timeout_key: Option<Key>,
    /// The active mode.
    pub mode: String,
    /// Whether `WithMark` chords gain Shift.
    pub mark_set: bool,
    /// Whether the next press escapes remap resolution.
    pub escape_next_key: bool,
    /// The delay emitted after each synthetic chord, in milliseconds.
    pub keypress_delay: u64,
    /// Actions buffered for the dispatcher.
    pub actions: Vec<Action>,
    /// Commands buffered for the override timer.
    pub timer_ops: Vec<TimerOp>,
}

impl EventHandler {
    /// The abstract state.
    pub open spec fn m(&self) -> HandlerM {
        HandlerM {
            modifiers: self.modifiers@,
            extra_modifiers: self.extra_modifiers@,
            pressed_keys: self.pressed_keys@,
            app_cache: match self.application_cache {
                Some(s) => Some(s@),
                None => None,
            },
            multi_purpose: self.multi_purpose_keys@,
            overrides: self.override_remaps@.map_values(
                |t: Vec<(Key, Vec<OverrideEntry>)>| table_m(t),
            ),
            timeout_key: self.override_timeout_key,
            mode: self.mode@,
            mark_set: self.mark_set,
            escape_next_key: self.escape_next_key,
            delay: self.keypress_delay,
            actions: crate::model::actions_m(self.actions@),
            timer_ops: self.timer_ops@,
        }
    }

    /// A fresh handler: no state, the given mode, the given chord delay.
    pub fn new(mode: &str, keypress_delay: u64) -> (r: EventHandler)
        ensures
            r.m() == (HandlerM {
                modifiers: Seq::empty(),
                extra_modifiers: Seq::empty(),
                pressed_keys: Seq::empty(),
                app_cache: None::<Seq<char>>,
                multi_purpose: Seq::empty(),
                overrides: Seq::empty(),
                timeout_key: None::<Key>,
                mode: mode@,
                mark_set: false,
                escape_next_key: false,
                delay: keypress_delay,
                actions: Seq::empty(),
                timer_ops: Seq::empty(),
            }),
    {
        let r = EventHandler {
            modifiers: Vec::new(),
            extra_modifiers: Vec::new(),
            pressed_keys: Vec::new(),
            application_cache: None,
            multi_purpose_keys: Vec::new(),
            override_remaps: Vec::new(),
            override_timeout_key: None,
            mode: mode.to_owned(),
            mark_set: false,
            escape_next_key: false,
            keypress_delay,
            actions: Vec::new(),
            timer_ops: Vec::new(),
        };
        proof {
            assert(r.m() =~~= (HandlerM {
                modifiers: Seq::empty(),
                extra_modifiers: Seq::empty(),
                pressed_keys: Seq::empty(),
                app_cache: None::<Seq<char>>,
                multi_purpose: Seq::empty(),
                overrides: Seq::empty(),
                timeout_key: None::<Key>,
                mode: mode@,
                mark_set: false,
                escape_next_key: false,
                delay: keypress_delay,
                actions: Seq::empty(),
                timer_ops: Seq::empty(),
            }));
        }
        r
    }

    /// Buffers one action.
    fn send_action(&mut self, action: Action)
        ensures
            final(self).m() == (HandlerM {
                actions: old(self).m().actions.push(crate::model::action_m(action)),
                ..old(self).m()
            }),
    {
        let ghost a = action;
        self.actions.push(action);
        proof {
            assert(self.m() =~~= (HandlerM {
                actions: old(self).m().actions.push(crate::model::action_m(a)),
                ..old(self).m()
            }));
        }
    }

    /// The transition for a valid integer value.
    fn to_key_value(value: i32) -> (r: KeyValue)
        requires
            valid_value(value),
        ensures
            r == key_value_of(value),
    {
        if value == PRESS {
            KeyValue::Press
        } else if value == REPEAT {
            KeyValue::Repeat
        } else {
            KeyValue::Release
        }
    }

    /// Buffers one key event.
    fn send_key(&mut self, key: Key, value: i32)
        requires
            valid_value(value),
        ensures
            final(self).m() == (HandlerM {
                actions: old(self).m().actions.push(key_ev(key, value)),
                ..old(self).m()
            }),
    {
        let kv = Self::to_key_value(value);
        self.send_action(Action::KeyEvent { key, value: kv });
    }

    /// Buffers one key event per listed key, in order, all with one value.
    fn send_keys(&mut self, keys: &Vec<Key>, value: i32)
        requires
            valid_value(value),
        ensures
            final(self).m() == (HandlerM {
                actions: old(self).m().actions + keys_acts(keys@, value),
                ..old(self).m()
            }),
    {
        let mut i: usize = 0;
        while i < keys.len()
            invariant
                valid_value(value),
                i <= keys@.len(),
                self.m() == (HandlerM {
                    actions: old(self).m().actions + keys_acts(keys@.subrange(0, i as int), value),
                    ..old(self).m()
                }),
            decreases keys@.len() - i,
        {
            self.send_key(keys[i], value);
            proof {
                assert(keys_acts(keys@.subrange(0, i + 1 as int), value) =~= keys_acts(
                    keys@.subrange(0, i as int),
                    value,
                ).push(key_ev(keys@[i as int], value)));
                assert(self.m() =~~= (HandlerM {
                    actions: old(self).m().actions + keys_acts(
                        keys@.subrange(0, i + 1 as int),
                        value,
                    ),
                    ..old(self).m()
                }));
            }
            i = i + 1;
        }
        proof {
            assert(keys@.subrange(0, keys@.len() as int) =~= keys@);
        }
    }

    /// Buffers a command action.
    fn run_command(&mut self, command: Vec<String>)
        ensures
            final(self).m() == (HandlerM {
                actions: old(self).m().actions.push(crate::model::ActionM::Command(command@)),
                ..old(self).m()
            }),
    {
        self.send_action(Action::Command(command));
    }

    /// Records a press of a tracked modifier, or forgets a release.
    fn update_modifier(&mut self, key: Key, value: i32)
        ensures
            final(self).m() == (HandlerM {
                modifiers: crate::model::upd_modifiers(old(self).m().modifiers, key, value),
                ..old(self).m()
            }),
    {
        if value == PRESS {
            if !contains_key(&self.modifiers, key) {
                self.modifiers.push(key);
            }
        } else if value == RELEASE {
            let filtered = remove_key(&self.modifiers, key);
            self.modifiers = filtered;
        }
        proof {
            assert(self.m() =~~= (HandlerM {
                modifiers: crate::model::upd_modifiers(old(self).m().modifiers, key, value),
                ..old(self).m()
            }));
        }
    }

    /// Whether the pressed set meets the required modifier.
    fn match_modifier(&self, modifier: &Modifier) -> (r: bool)
        ensures
            r == spec_match_modifier(self.modifiers@, *modifier),
    {
        match modifier {
            Modifier::Shift => contains_key(&self.modifiers, crate::keys::KEY_LEFTSHIFT)
                || contains_key(&self.modifiers, crate::keys::KEY_RIGHTSHIFT),
            Modifier::Control => contains_key(&self.modifiers, crate::keys::KEY_LEFTCTRL)
                || contains_key(&self.modifiers, crate::keys::KEY_RIGHTCTRL),
            Modifier::Alt => contains_key(&self.modifiers, crate::keys::KEY_LEFTALT)
                || contains_key(&self.modifiers, crate::keys::KEY_RIGHTALT),
            Modifier::Windows => contains_key(&self.modifiers, crate::keys::KEY_LEFTMETA)
                || contains_key(&self.modifiers, crate::keys::KEY_RIGHTMETA),
            Modifier::Key(k) => contains_key(&self.modifiers, *k),
        }
    }

    /// The pressed keys the required modifiers do not account for, and the
    /// keys to press for required modifiers that are absent.
    fn diff_modifiers(&self, modifiers: &Vec<Modifier>) -> (r: (Vec<Key>, Vec<Key>))
        ensures
            r.0@ == extra_modifiers_of(self.modifiers@, modifiers@),
            r.1@ == missing_modifiers_of(self.modifiers@, modifiers@),
    {
        let mut extra: Vec<Key> = Vec::new();
        let mut i: usize = 0;
        while i < self.modifiers.len()
            invariant
                i <= self.modifiers@.len(),
                extra@ == extra_modifiers_of(self.modifiers@.subrange(0, i as int), modifiers@),
            decreases self.modifiers@.len() - i,
        {
            let key = self.modifiers[i];
            if !contains_modifier(modifiers, key) {
                extra.push(key);
            }
            proof {
                assert(self.modifiers@.subrange(0, i + 1 as int).drop_last() =~= self.modifiers@
                    .subrange(0, i as int));
                assert(self.modifiers@.subrange(0, i + 1 as int).last() == self.modifiers@[
                    i as int
                ]);
            }
            i = i + 1;
        }
        proof {
            assert(self.modifiers@.subrange(0, self.modifiers@.len() as int) =~= self.modifiers@);
        }
        let mut missing: Vec<Key> = Vec::new();
        let mut j: usize = 0;
        while j < modifiers.len()
            invariant
                j <= modifiers@.len(),
                missing@ == missing_modifiers_of(self.modifiers@, modifiers@.subrange(0, j as int)),
            decreases modifiers@.len() - j,
        {
            let m = &modifiers[j];
            if !self.match_modifier(m) {
                let k = match m {
                    Modifier::Shift => crate::keys::KEY_LEFTSHIFT,
                    Modifier::Control => crate::keys::KEY_LEFTCTRL,
                    Modifier::Alt => crate::keys::KEY_LEFTALT,
                    Modifier::Windows => crate::keys::KEY_LEFTMETA,
                    Modifier::Key(key) => *key,
                };
                missing.push(k);
            }
            proof {
                assert(modifiers@.subrange(0, j + 1 as int).drop_last() =~= modifiers@.subrange(
                    0,
                    j as int,
                ));
                assert(modifiers@.subrange(0, j + 1 as int).last() == modifiers@[j as int]);
            }
            j = j + 1;
        }
        proof {
            assert(modifiers@.subrange(0, modifiers@.len() as int) =~= modifiers@);
        }
        (extra, missing)
    }

    /// Whether the matcher accepts the resolved focused application.
    #[verifier::loop_isolation(false)]
    fn match_application(&self, application_matcher: &Application) -> (r: bool)
        requires
            self.application_cache is Some,
        ensures
            r == spec_app_matches(*application_matcher, self.m().app_cache->Some_0),
    {
        let cached = match &self.application_cache {
            Some(s) => s,
            None => {
                proof {
                    assert(false);
                }
                return false;
            },
        };
        match &application_matcher.only {
            Some(only) => {
                let list = &**only;
                let mut i: usize = 0;
                while i < list.len()
                    invariant
                        i <= list@.len(),
                        forall|j: int| 0 <= j < i ==> (#[trigger] list@[j])@ != cached@,
                    decreases list@.len() - i,
                {
                    if cached.eq(&list[i]) {
                        proof {
                            let l = application_matcher.only->Some_0;
                            assert((#[trigger] l@[i as int])@ == cached@);
                        }
                        return true;
                    }
                    i = i + 1;
                }
                false
            },
            None => {
                match &application_matcher.not {
                    Some(not) => {
                        let list = &**not;
                        let mut i: usize = 0;
                        while i < list.len()
                            invariant
                                i <= list@.len(),
                                forall|j: int| 0 <= j < i ==> (#[trigger] list@[j])@ != cached@,
                            decreases list@.len() - i,
                        {
                            if cached.eq(&list[i]) {
                                proof {
                                    let l = application_matcher.not->Some_0;
                                    assert(l@ == list@);
                                    assert((#[trigger] l@[i as int])@ == cached@);
                                }
                                return false;
                            }
                            i = i + 1;
                        }
                        true
                    },
                    None => false,
                }
            },
        }
    }

    /// The chord with Shift appended when the mark is set and the chord
    /// does not already require Shift.
    fn with_mark(&self, key_press: &KeyPress) -> (r: KeyPress)
        ensures
            r.key == key_press.key,
            r.modifiers@ == with_mark_mods(key_press.modifiers@, self.mark_set),
    {
        if self.mark_set && !has_shift_modifier(&key_press.modifiers) {
            let mut mods: Vec<Modifier> = Vec::new();
            let source = &*key_press.modifiers;
            let mut i: usize = 0;
            while i < source.len()
                invariant
                    i <= source@.len(),
                    mods@ == source@.subrange(0, i as int),
                decreases source@.len() - i,
            {
                mods.push(source[i]);
                proof {
                    assert(mods@ =~= source@.subrange(0, i + 1 as int));
                }
                i = i + 1;
            }
            proof {
                assert(source@.subrange(0, source@.len() as int) =~= source@);
            }
            mods.push(Modifier::Shift);
            KeyPress { key: key_press.key, modifiers: Rc::new(mods) }
        } else {
            KeyPress { key: key_press.key, modifiers: rc_dup(&key_press.modifiers) }
        }
    }

    /// Emits a chord: presses the missing modifiers, releases the extra
    /// ones, presses and releases the key, delays, then restores the
    /// physical modifier state in reverse.
    pub fn send_key_press(&mut self, key_press: &KeyPress)
        ensures
            final(self).m() == (HandlerM {
                actions: old(self).m().actions + keypress_emission(
                    old(self).m().modifiers,
                    old(self).m().extra_modifiers,
                    key_press.key,
                    key_press.modifiers@,
                    old(self).m().delay,
                ),
                ..old(self).m()
            }),
    {
        let (mut extra_modifiers, mut missing_modifiers) = self.diff_modifiers(
            &key_press.modifiers,
        );
        let extra = retain_entourage_extra(&extra_modifiers, &self.extra_modifiers);
        let missing = retain_entourage_missing(&missing_modifiers);

        self.send_keys(&missing, PRESS);
        self.send_keys(&extra, RELEASE);
        self.send_key(key_press.key, PRESS);
        self.send_key(key_press.key, RELEASE);
        let delay = self.keypress_delay;
        self.send_action(Action::Delay(delay));
        self.send_keys(&extra, PRESS);
        self.send_keys(&missing, RELEASE);
        proof {
            assert(self.m() =~~= (HandlerM {
                actions: old(self).m().actions + keypress_emission(
                    old(self).m().modifiers,
                    old(self).m().extra_modifiers,
                    key_press.key,
                    key_press.modifiers@,
                    old(self).m().delay,
                ),
                ..old(self).m()
            }));
        }
    }

    /// Press aliasing: remembers on a press which key was emitted, rewrites
    /// a later release or repeat to that key, and forgets it on release.
    /// Skipped unless exactly one pair with the original value is in flight.
    fn maintain_pressed_keys(&mut self, key: Key, value: i32, events: &mut Vec<(Key, i32)>)
        ensures
            ({
                let (p2, k2) = crate::model::spec_maintain(
                    old(self).m().pressed_keys,
                    key,
                    value,
                    old(events)@,
                );
                &&& final(self).m() == (HandlerM { pressed_keys: p2, ..old(self).m() })
                &&& final(events)@ == k2
                &&& crate::model::all_valid(old(events)@) && valid_value(value)
                    ==> crate::model::all_valid(k2)
            }),
    {
        if events.len() != 1 || value != events[0].1 {
            proof {
                assert(final(self).m() =~~= (HandlerM {
                    pressed_keys: old(self).m().pressed_keys,
                    ..old(self).m()
                }));
            }
            return;
        }
        let event0 = (events[0].0, events[0].1);
        if value == PRESS {
            match assoc_index(&self.pressed_keys, key) {
                Some(i) => {
                    proof {
                        crate::model::lemma_assoc_found(self.pressed_keys@, key, i as int);
                    }
                    self.pressed_keys.remove(i);
                    proof {
                        assert(self.pressed_keys@ =~= crate::model::assoc_remove(
                            old(self).pressed_keys@,
                            key,
                        ));
                    }
                },
                None => {
                    proof {
                        crate::model::lemma_assoc_none(self.pressed_keys@, key, event0.0);
                    }
                },
            }
            self.pressed_keys.push((key, event0.0));
            proof {
                assert(self.pressed_keys@ =~= crate::model::assoc_set(
                    old(self).pressed_keys@,
                    key,
                    event0.0,
                ));
                assert(self.m() =~~= (HandlerM {
                    pressed_keys: crate::model::assoc_set(
                        old(self).m().pressed_keys,
                        key,
                        event0.0,
                    ),
                    ..old(self).m()
                }));
            }
        } else {
            match assoc_index(&self.pressed_keys, key) {
                Some(i) => {
                    proof {
                        crate::model::lemma_assoc_found(self.pressed_keys@, key, i as int);
                    }
                    let original_key = self.pressed_keys[i].1;
                    events.remove(0);
                    events.insert(0, (original_key, value));
                    proof {
                        assert(events@ =~= seq![(original_key, value)]);
                    }
                    if value == RELEASE {
                        self.pressed_keys.remove(i);
                        proof {
                            assert(self.pressed_keys@ =~= crate::model::assoc_remove(
                                old(self).pressed_keys@,
                                key,
                            ));
                        }
                    }
                },
                None => {
                    proof {
                        crate::model::lemma_assoc_none(self.pressed_keys@, key, key);
                    }
                },
            }
            proof {
                let (p2, k2) = crate::model::spec_maintain(
                    old(self).m().pressed_keys,
                    key,
                    value,
                    old(events)@,
                );
                assert(self.m() =~~= (HandlerM { pressed_keys: p2, ..old(self).m() }));
                assert(events@ =~= k2);
            }
        }
    }

    /// Multi-purpose flush: a press in flight forces every pending key into
    /// held resolution; the forced presses go first.
    fn flush_timeout_keys(&mut self, key_values: Vec<(Key, i32)>) -> (r: Vec<(Key, i32)>)
        ensures
            ({
                let (m2, k2) = crate::model::spec_flush(old(self).m().multi_purpose, key_values@);
                &&& final(self).m() == (HandlerM { multi_purpose: m2, ..old(self).m() })
                &&& r@ == k2
                &&& crate::model::all_valid(key_values@) ==> crate::model::all_valid(k2)
            }),
    {
        let mut flush = false;
        let mut i: usize = 0;
        while i < key_values.len()
            invariant
                i <= key_values@.len(),
                flush == crate::model::any_press(key_values@.subrange(0, i as int)),
            decreases key_values@.len() - i,
        {
            proof {
                assert(key_values@.subrange(0, i + 1 as int).drop_last() =~= key_values@.subrange(
                    0,
                    i as int,
                ));
            }
            if key_values[i].1 == PRESS {
                flush = true;
                proof {
                    assert((key_values@.subrange(0, i + 1 as int)[i as int]).1 == 1);
                }
            }
            proof {
                let pre = key_values@.subrange(0, i as int);
                let post = key_values@.subrange(0, i + 1 as int);
                assert(forall|j: int| 0 <= j < pre.len() ==> pre[j] == #[trigger] post[j]);
                assert(crate::model::any_press(post) == (crate::model::any_press(pre)
                    || key_values@[i as int].1 == 1)) by {
                    if crate::model::any_press(pre) {
                        let w = choose|j: int| 0 <= j < pre.len() && (#[trigger] pre[j]).1 == 1;
                        assert(post[w].1 == 1);
                    }
                    if key_values@[i as int].1 == 1 {
                        assert(post[i as int].1 == 1);
                    }
                    if crate::model::any_press(post) {
                        let w = choose|j: int| 0 <= j < post.len() && (#[trigger] post[j]).1 == 1;
                        if w < i {
                            assert(pre[w].1 == 1);
                        }
                    }
                }
            }
            i = i + 1;
        }
        proof {
            assert(key_values@.subrange(0, key_values@.len() as int) =~= key_values@);
        }
        if flush {
            let mut flushed: Vec<(Key, i32)> = Vec::new();
            let mut new_multi: Vec<(Key, MultiPurposeKeyState)> = Vec::new();
            let mut j: usize = 0;
            while j < self.multi_purpose_keys.len()
                invariant
                    j <= self.multi_purpose_keys@.len(),
                    flushed@ == crate::model::flushed_of(
                        self.multi_purpose_keys@.subrange(0, j as int),
                    ),
                    new_multi@ == self.multi_purpose_keys@.subrange(0, j as int).map_values(
                        |p: (Key, MultiPurposeKeyState)| (p.0, crate::model::forced_state(p.1)),
                    ),
                decreases self.multi_purpose_keys@.len() - j,
            {
                let pair_key = self.multi_purpose_keys[j].0;
                let mut st = self.multi_purpose_keys[j].1;
                let out = st.force_held();
                let mut oi: usize = 0;
                while oi < out.len()
                    invariant
                        oi <= out@.len(),
                        flushed@ == crate::model::flushed_of(
                            self.multi_purpose_keys@.subrange(0, j as int),
                        ) + out@.subrange(0, oi as int),
                        out@.len() <= 1,
                    decreases out@.len() - oi,
                {
                    flushed.push((out[oi].0, out[oi].1));
                    proof {
                        assert(flushed@ =~= crate::model::flushed_of(
                            self.multi_purpose_keys@.subrange(0, j as int),
                        ) + out@.subrange(0, oi + 1 as int));
                    }
                    oi = oi + 1;
                }
                new_multi.push((pair_key, st));
                proof {
                    assert(out@.subrange(0, out@.len() as int) =~= out@);
                    assert(self.multi_purpose_keys@.subrange(0, j + 1 as int) =~= self
                        .multi_purpose_keys@
                        .subrange(0, j as int)
                        .push(self.multi_purpose_keys@[j as int]));
                    crate::model::lemma_flushed_of_snoc(
                        self.multi_purpose_keys@.subrange(0, j as int),
                        self.multi_purpose_keys@[j as int],
                    );
                    assert(flushed@ =~= crate::model::flushed_of(
                        self.multi_purpose_keys@.subrange(0, j + 1 as int),
                    ));
                    assert(new_multi@ =~= self.multi_purpose_keys@.subrange(
                        0,
                        j + 1 as int,
                    ).map_values(
                        |p: (Key, MultiPurposeKeyState)| (p.0, crate::model::forced_state(p.1)),
                    ));
                }
                j = j + 1;
            }
            proof {
                assert(self.multi_purpose_keys@.subrange(
                    0,
                    self.multi_purpose_keys@.len() as int,
                ) =~= self.multi_purpose_keys@);
            }
            self.multi_purpose_keys = new_multi;
            let mut ki: usize = 0;
            while ki < key_values.len()
                invariant
                    ki <= key_values@.len(),
                    flushed@ == crate::model::flushed_of(old(self).multi_purpose_keys@)
                        + key_values@.subrange(0, ki as int),
                decreases key_values@.len() - ki,
            {
                flushed.push((key_values[ki].0, key_values[ki].1));
                proof {
                    assert(flushed@ =~= crate::model::flushed_of(old(self).multi_purpose_keys@)
                        + key_values@.subrange(0, ki + 1 as int));
                }
                ki = ki + 1;
            }
            proof {
                assert(key_values@.subrange(0, key_values@.len() as int) =~= key_values@);
                let (m2, k2) = crate::model::spec_flush(old(self).m().multi_purpose, key_values@);
                assert(self.m() =~~= (HandlerM { multi_purpose: m2, ..old(self).m() }));
                assert(flushed@ =~= k2);
                crate::model::lemma_flushed_valid(old(self).multi_purpose_keys@);
                if crate::model::all_valid(key_values@) {
                    let fl = crate::model::flushed_of(old(self).multi_purpose_keys@);
                    assert forall|ix: int| 0 <= ix < flushed@.len() implies valid_value(
                        (#[trigger] flushed@[ix]).1,
                    ) by {
                        if ix < fl.len() {
                            assert(flushed@[ix] == fl[ix]);
                        } else {
                            assert(flushed@[ix] == key_values@[ix - fl.len()]);
                        }
                    }
                }
            }
            flushed
        } else {
            proof {
                let (m2, k2) = crate::model::spec_flush(old(self).m().multi_purpose, key_values@);
                assert(self.m() =~~= (HandlerM { multi_purpose: m2, ..old(self).m() }));
            }
            key_values
        }
    }

    /// Clears the override state: disarms the timer, drops the stack and
    /// the timeout key.
    pub fn remove_override(&mut self)
        ensures
            final(self).m() == crate::model::spec_remove_override(old(self).m()),
    {
        self.timer_ops.push(TimerOp::Disarm);
        self.override_remaps.clear();
        self.override_timeout_key = None;
        proof {
            assert(self.m() =~~= crate::model::spec_remove_override(old(self).m()));
        }
    }

    /// Override expiry: emits the pending timeout key, if any, as a press
    /// and release, then clears the override state.
    pub fn timeout_override(&mut self)
        ensures
            final(self).m() == crate::model::timeout_state(old(self).m()),
    {
        match self.override_timeout_key {
            Some(key) => {
                self.send_key(key, PRESS);
                self.send_key(key, RELEASE);
            },
            None => {},
        }
        self.remove_override();
        proof {
            assert(self.m() =~~= crate::model::timeout_state(old(self).m()));
        }
    }

    /// Applies one keymap action.
    fn dispatch_one(&mut self, action: &KeymapAction, exact_match: bool, key: Key)
        ensures
            final(self).m() == crate::model::apply_tagged(
                old(self).m(),
                crate::model::km_action_m(*action),
                exact_match,
                key,
            ),
    {
        match action {
            KeymapAction::KeyPress(key_press) => {
                self.send_key_press(key_press);
            },
            KeymapAction::Remap(remap) => {
                let set_timeout = self.override_remaps.len() == 0;
                let table = crate::config::build_override_table(&remap.remap, exact_match);
                proof {
                    assert(crate::model::table_m(table) =~~= crate::model::built_table_m(
                        remap.remap,
                        exact_match,
                    ));
                }
                self.override_remaps.push(table);
                if set_timeout {
                    match remap.timeout_millis {
                        Some(timeout) => {
                            self.timer_ops.push(TimerOp::Disarm);
                            self.timer_ops.push(TimerOp::Arm(timeout));
                            self.override_timeout_key = match remap.timeout_key {
                                Some(k) => Some(k),
                                None => Some(key),
                            };
                        },
                        None => {},
                    }
                }
                proof {
                    assert(self.m() =~~= crate::model::apply_tagged(
                        old(self).m(),
                        crate::model::km_action_m(*action),
                        exact_match,
                        key,
                    ));
                }
            },
            KeymapAction::Launch(command) => {
                let cmd = clone_strings(command);
                self.run_command(cmd);
            },
            KeymapAction::SetMode(mode) => {
                self.mode = mode.clone();
                proof {
                    assert(self.m() =~~= crate::model::apply_tagged(
                        old(self).m(),
                        crate::model::km_action_m(*action),
                        exact_match,
                        key,
                    ));
                }
            },
            KeymapAction::SetMark(set) => {
                self.mark_set = *set;
                proof {
                    assert(self.m() =~~= crate::model::apply_tagged(
                        old(self).m(),
                        crate::model::km_action_m(*action),
                        exact_match,
                        key,
                    ));
                }
            },
            KeymapAction::WithMark(key_press) => {
                let marked = self.with_mark(key_press);
                self.send_key_press(&marked);
                proof {
                    assert(self.m() =~~= crate::model::apply_tagged(
                        old(self).m(),
                        crate::model::km_action_m(*action),
                        exact_match,
                        key,
                    ));
                }
            },
            KeymapAction::EscapeNextKey(escape) => {
                self.escape_next_key = *escape;
                proof {
                    assert(self.m() =~~= crate::model::apply_tagged(
                        old(self).m(),
                        crate::model::km_action_m(*action),
                        exact_match,
                        key,
                    ));
                }
            },
            KeymapAction::SetExtraModifiers(keys) => {
                let ks = copy_keys(keys);
                self.extra_modifiers = ks;
                proof {
                    assert(self.m() =~~= crate::model::apply_tagged(
                        old(self).m(),
                        crate::model::km_action_m(*action),
                        exact_match,
                        key,
                    ));
                }
            },
        }
    }

    /// Applies one resolved tagged action.
    fn dispatch_action(&mut self, action: &TaggedAction, key: Key)
        ensures
            final(self).m() == crate::model::apply_tagged(
                old(self).m(),
                crate::model::km_action_m(*action.action),
                action.exact_match,
                key,
            ),
    {
        let inner = &*action.action;
        self.dispatch_one(inner, action.exact_match, key);
    }

    /// Applies a resolved tagged-action list, in order.
    fn dispatch_actions(&mut self, actions: &Vec<TaggedAction>, key: Key)
        ensures
            final(self).m() == crate::model::apply_tagged_seq(
                old(self).m(),
                crate::model::tagged_m(actions@),
                key,
            ),
    {
        let mut i: usize = 0;
        while i < actions.len()
            invariant
                i <= actions@.len(),
                self.m() == crate::model::apply_tagged_seq(
                    old(self).m(),
                    crate::model::tagged_m(actions@.subrange(0, i as int)),
                    key,
                ),
            decreases actions@.len() - i,
        {
            self.dispatch_action(&actions[i], key);
            proof {
                let pre = crate::model::tagged_m(actions@.subrange(0, i as int));
                let full = crate::model::tagged_m(actions@.subrange(0, i + 1 as int));
                assert(full =~= pre.push(full.last()));
                crate::model::lemma_apply_tagged_seq_snoc(old(self).m(), pre, full.last(), key);
            }
            i = i + 1;
        }
        proof {
            assert(actions@.subrange(0, actions@.len() as int) =~= actions@);
        }
    }

    /// Modmap lookup: the first block that binds `key` and whose
    /// application filter accepts the focused application.
    fn find_modmap<'a>(&self, config: &'a Config, key: Key) -> (r: Option<&'a crate::config::ModmapAction>)
        requires
            self.application_cache is Some,
        ensures
            ({
                let found = crate::model::spec_find_modmap(
                    config.modmap@,
                    key,
                    self.m().app_cache->Some_0,
                );
                match r {
                    Some(a) => found == Some(*a),
                    None => found is None,
                }
            }),
    {
        let ghost app = self.m().app_cache->Some_0;
        proof {
            assert(config.modmap@.skip(0) =~= config.modmap@);
        }
        let mut i: usize = 0;
        while i < config.modmap.len()
            invariant
                i <= config.modmap@.len(),
                self.application_cache is Some,
                app == self.m().app_cache->Some_0,
                crate::model::spec_find_modmap(config.modmap@, key, app)
                    == crate::model::spec_find_modmap(config.modmap@.skip(i as int), key, app),
            decreases config.modmap@.len() - i,
        {
            let modmap = &config.modmap[i];
            proof {
                assert(config.modmap@.skip(i as int)[0] == config.modmap@[i as int]);
                assert(config.modmap@.skip(i as int).skip(1) =~= config.modmap@.skip(i + 1 as int));
            }
            match assoc_index(&modmap.remap, key) {
                Some(idx) => {
                    proof {
                        crate::model::lemma_assoc_found(modmap.remap@, key, idx as int);
                    }
                    let matched = match &modmap.application {
                        Some(matcher) => self.match_application(&**matcher),
                        None => true,
                    };
                    if matched {
                        return Some(&modmap.remap[idx].1);
                    }
                },
                None => {
                    proof {
                        crate::model::lemma_assoc_none(
                            modmap.remap@,
                            key,
                            crate::config::ModmapAction::Key(key),
                        );
                    }
                },
            }
            i = i + 1;
        }
        proof {
            assert(config.modmap@.skip(config.modmap@.len() as int) =~= Seq::empty());
        }
        None
    }

    /// Modmap dispatch: applies one substitution and returns the key-value
    /// pairs that go on through the pipeline.
    fn dispatch_keys(
        &mut self,
        key_action: &crate::config::ModmapAction,
        key: Key,
        value: i32,
        now: u64,
    ) -> (r: Vec<(Key, i32)>)
        requires
            valid_value(value),
        ensures
            ({
                let (s2, kvs) = crate::model::spec_dispatch_keys(
                    old(self).m(),
                    *key_action,
                    key,
                    value,
                    now,
                );
                &&& final(self).m() == s2
                &&& r@ == kvs
                &&& crate::model::all_valid(kvs)
            }),
    {
        match key_action {
            crate::config::ModmapAction::Key(modmap_key) => {
                let mut out: Vec<(Key, i32)> = Vec::new();
                out.push((*modmap_key, value));
                proof {
                    assert(out@ =~= seq![(*modmap_key, value)]);
                    assert(self.m() =~~= old(self).m());
                }
                out
            },
            crate::config::ModmapAction::MultiPurposeKey(mp) => {
                if value == PRESS {
                    let st = MultiPurposeKeyState {
                        held: mp.held,
                        alone: mp.alone,
                        alone_timeout_at: Some(now.saturating_add(mp.alone_timeout_millis)),
                    };
                    match assoc_index(&self.multi_purpose_keys, key) {
                        Some(idx) => {
                            proof {
                                crate::model::lemma_assoc_found(
                                    self.multi_purpose_keys@,
                                    key,
                                    idx as int,
                                );
                            }
                            self.multi_purpose_keys.remove(idx);
                            proof {
                                assert(self.multi_purpose_keys@ =~= crate::model::assoc_remove(
                                    old(self).multi_purpose_keys@,
                                    key,
                                ));
                            }
                        },
                        None => {
                            proof {
                                crate::model::lemma_assoc_none(self.multi_purpose_keys@, key, st);
                            }
                        },
                    }
                    self.multi_purpose_keys.push((key, st));
                    proof {
                        let (s2, kvs) = crate::model::spec_dispatch_keys(
                            old(self).m(),
                            *key_action,
                            key,
                            value,
                            now,
                        );
                        assert(self.m() =~~= s2);
                        assert(Seq::<(Key, i32)>::empty() =~= kvs);
                    }
                    Vec::new()
                } else if value == REPEAT {
                    match assoc_index(&self.multi_purpose_keys, key) {
                        Some(idx) => {
                            proof {
                                crate::model::lemma_assoc_found(
                                    self.multi_purpose_keys@,
                                    key,
                                    idx as int,
                                );
                            }
                            let mut st = self.multi_purpose_keys[idx].1;
                            let out = st.repeat(now);
                            proof {
                                crate::model::lemma_assoc_update_found(
                                    self.multi_purpose_keys@,
                                    key,
                                    st,
                                    idx as int,
                                );
                            }
                            self.multi_purpose_keys.remove(idx);
                            self.multi_purpose_keys.insert(idx, (key, st));
                            proof {
                                assert(self.multi_purpose_keys@ =~= old(
                                    self,
                                ).multi_purpose_keys@.update(idx as int, (key, st)));
                                let (s2, kvs) = crate::model::spec_dispatch_keys(
                                    old(self).m(),
                                    *key_action,
                                    key,
                                    value,
                                    now,
                                );
                                assert(self.m() =~~= s2);
                            }
                            out
                        },
                        None => {
                            let mut out: Vec<(Key, i32)> = Vec::new();
                            out.push((key, value));
                            proof {
                                crate::model::lemma_assoc_none(
                                    self.multi_purpose_keys@,
                                    key,
                                    MultiPurposeKeyState {
                                        held: key,
                                        alone: key,
                                        alone_timeout_at: None,
                                    },
                                );
                                assert(out@ =~= seq![(key, value)]);
                                assert(self.m() =~~= old(self).m());
                            }
                            out
                        },
                    }
                } else {
                    match assoc_index(&self.multi_purpose_keys, key) {
                        Some(idx) => {
                            proof {
                                crate::model::lemma_assoc_found(
                                    self.multi_purpose_keys@,
                                    key,
                                    idx as int,
                                );
                            }
                            let st = self.multi_purpose_keys[idx].1;
                            let out = st.release(now);
                            self.multi_purpose_keys.remove(idx);
                            proof {
                                assert(self.multi_purpose_keys@ =~= crate::model::assoc_remove(
                                    old(self).multi_purpose_keys@,
                                    key,
                                ));
                                let (s2, kvs) = crate::model::spec_dispatch_keys(
                                    old(self).m(),
                                    *key_action,
                                    key,
                                    value,
                                    now,
                                );
                                assert(self.m() =~~= s2);
                            }
                            out
                        },
                        None => {
                            let mut out: Vec<(Key, i32)> = Vec::new();
                            out.push((key, value));
                            proof {
                                crate::model::lemma_assoc_none(
                                    self.multi_purpose_keys@,
                                    key,
                                    MultiPurposeKeyState {
                                        held: key,
                                        alone: key,
                                        alone_timeout_at: None,
                                    },
                                );
                                assert(out@ =~= seq![(key, value)]);
                                assert(self.m() =~~= old(self).m());
                            }
                            out
                        },
                    }
                }
            },
            crate::config::ModmapAction::PressReleaseKey(pr) => {
                if value == PRESS || value == RELEASE {
                    let hooks = if value == PRESS {
                        &pr.press
                    } else {
                        &pr.release
                    };
                    proof {
                        assert(crate::model::hooks_tagged(hooks@.subrange(0, 0int))
                            =~= Seq::<(crate::model::KeymapActionM, bool)>::empty());
                        assert(crate::model::apply_tagged_seq(
                            old(self).m(),
                            crate::model::hooks_tagged(hooks@.subrange(0, 0int)),
                            key,
                        ) == old(self).m());
                    }
                    let mut j: usize = 0;
                    while j < hooks.len()
                        invariant
                            j <= hooks@.len(),
                            self.m() == crate::model::apply_tagged_seq(
                                old(self).m(),
                                crate::model::hooks_tagged(hooks@.subrange(0, j as int)),
                                key,
                            ),
                        decreases hooks@.len() - j,
                    {
                        self.dispatch_one(&hooks[j], false, key);
                        proof {
                            let pre = crate::model::hooks_tagged(hooks@.subrange(0, j as int));
                            let full = crate::model::hooks_tagged(
                                hooks@.subrange(0, j + 1 as int),
                            );
                            assert(full =~= pre.push(full.last()));
                            crate::model::lemma_apply_tagged_seq_snoc(
                                old(self).m(),
                                pre,
                                full.last(),
                                key,
                            );
                        }
                        j = j + 1;
                    }
                    proof {
                        assert(hooks@.subrange(0, hooks@.len() as int) =~= hooks@);
                    }
                }
                let mut out: Vec<(Key, i32)> = Vec::new();
                out.push((key, value));
                proof {
                    assert(out@ =~= seq![(key, value)]);
                    if !(value == PRESS || value == RELEASE) {
                        assert(self.m() =~~= old(self).m());
                    }
                }
                out
            },
        }
    }

    /// Whether the entry's mode filter accepts the active mode.
    fn mode_accepts(&self, entry: &OverrideEntry) -> (r: bool)
        ensures
            r == crate::model::mode_ok(entry.mode, self.mode@),
    {
        match &entry.mode {
            Some(modes) => contains_string(&**modes, &self.mode),
            None => true,
        }
    }

    /// One resolution pass over the rows, collecting parallel remap rows.
    #[verifier::loop_isolation(false)]
    fn resolve_pass(&self, entries: &Vec<OverrideEntry>, exact_pass: bool, stage2: bool) -> (r:
        Option<Vec<TaggedAction>>)
        requires
            self.application_cache is Some,
        ensures
            ({
                let res = crate::model::pass_actions(
                    entries@,
                    self.modifiers@,
                    exact_pass,
                    stage2,
                    self.m().app_cache->Some_0,
                    self.mode@,
                    Seq::empty(),
                );
                match r {
                    Some(v) => res == Some(crate::model::tagged_m(v@)),
                    None => res is None,
                }
            }),
    {
        let ghost app = self.m().app_cache->Some_0;
        let ghost pressed = self.modifiers@;
        let ghost mode = self.mode@;
        let mut remaps: Vec<TaggedAction> = Vec::new();
        proof {
            assert(entries@.skip(0) =~= entries@);
            assert(crate::model::tagged_m(remaps@) =~= Seq::<
                (crate::model::KeymapActionM, bool),
            >::empty());
        }
        let mut i: usize = 0;
        while i < entries.len()
            invariant
                i <= entries@.len(),
                crate::model::pass_actions(
                    entries@,
                    pressed,
                    exact_pass,
                    stage2,
                    app,
                    mode,
                    Seq::empty(),
                ) == crate::model::pass_actions(
                    entries@.skip(i as int),
                    pressed,
                    exact_pass,
                    stage2,
                    app,
                    mode,
                    crate::model::tagged_m(remaps@),
                ),
            decreases entries@.len() - i,
        {
            proof {
                assert(entries@.skip(i as int)[0] == entries@[i as int]);
                assert(entries@.skip(i as int).skip(1) =~= entries@.skip(i + 1 as int));
            }
            let ghost acc0 = crate::model::tagged_m(remaps@);
            let e = &entries[i];
            if e.exact_match && !exact_pass {
                i = i + 1;
                continue;
            }
            let (extra_modifiers, missing_modifiers) = self.diff_modifiers(&e.modifiers);
            if (exact_pass && extra_modifiers.len() > 0) || missing_modifiers.len() > 0 {
                i = i + 1;
                continue;
            }
            let mut filtered = false;
            if stage2 {
                match &e.application {
                    Some(matcher) => {
                        if !self.match_application(&**matcher) {
                            filtered = true;
                        }
                    },
                    None => {},
                }
                if !filtered {
                    if !self.mode_accepts(e) {
                        filtered = true;
                    }
                }
            }
            if filtered {
                proof {
                    assert(!crate::model::entry_accepted(
                        entries@[i as int],
                        pressed,
                        exact_pass,
                        stage2,
                        app,
                        mode,
                    ));
                }
                i = i + 1;
                continue;
            }
            proof {
                assert(crate::model::entry_accepted(
                    entries@[i as int],
                    pressed,
                    exact_pass,
                    stage2,
                    app,
                    mode,
                ));
            }
            let actions = with_extra_modifiers(&e.actions, &extra_modifiers, e.exact_match);
            let is_remap_entry = is_remap(&e.actions);
            proof {
                assert(crate::model::tagged_m(actions@) == crate::model::wrapped_actions(
                    entries@[i as int],
                    pressed,
                ));
            }
            if remaps.len() == 0 && !is_remap_entry {
                proof {
                    assert(acc0.len() == 0);
                }
                return Some(actions);
            } else if is_remap_entry {
                let mut moved = actions;
                remaps.append(&mut moved);
                proof {
                    assert(crate::model::tagged_m(remaps@) =~= acc0 + crate::model::wrapped_actions(
                        entries@[i as int],
                        pressed,
                    ));
                }
            }
            i = i + 1;
        }
        proof {
            assert(entries@.skip(entries@.len() as int) =~= Seq::<OverrideEntry>::empty());
        }
        if remaps.len() == 0 {
            None
        } else {
            Some(remaps)
        }
    }

    /// The rows the override stack holds for `key`, in stack order.
    #[verifier::loop_isolation(false)]
    fn collect_override_entries(&self, key: Key) -> (r: Vec<OverrideEntry>)
        ensures
            r@ == crate::model::stack_entries(self.m().overrides, key),
    {
        let ghost stack = self.m().overrides;
        let mut entries: Vec<OverrideEntry> = Vec::new();
        proof {
            assert(stack.subrange(0, 0int) =~= Seq::<Seq<(Key, Seq<OverrideEntry>)>>::empty());
            assert(entries@ =~= crate::model::stack_entries(stack.subrange(0, 0int), key));
        }
        let mut ti: usize = 0;
        while ti < self.override_remaps.len()
            invariant
                ti <= self.override_remaps@.len(),
                entries@ == crate::model::stack_entries(stack.subrange(0, ti as int), key),
            decreases self.override_remaps@.len() - ti,
        {
            let table = &self.override_remaps[ti];
            proof {
                assert(stack[ti as int] == table_m(*table));
            }
            match assoc_index(table, key) {
                Some(idx) => {
                    proof {
                        assert(forall|j: int|
                            0 <= j < table@.len() ==> (#[trigger] table_m(*table)[j]).0 == table@[
                                j
                            ].0);
                        crate::model::lemma_assoc_found(table_m(*table), key, idx as int);
                        assert(crate::model::table_entries(stack[ti as int], key) == table@[
                            idx as int
                        ].1@);
                    }
                    let row = &table[idx].1;
                    let mut j: usize = 0;
                    while j < row.len()
                        invariant
                            j <= row@.len(),
                            entries@ == crate::model::stack_entries(stack.subrange(0, ti as int), key)
                                + row@.subrange(0, j as int),
                        decreases row@.len() - j,
                    {
                        let cloned = crate::config::clone_entry(&row[j], false);
                        proof {
                            assert(cloned == row@[j as int]);
                        }
                        entries.push(cloned);
                        proof {
                            assert(entries@ =~= crate::model::stack_entries(
                                stack.subrange(0, ti as int),
                                key,
                            ) + row@.subrange(0, j + 1 as int));
                        }
                        j = j + 1;
                    }
                    proof {
                        assert(row@.subrange(0, row@.len() as int) =~= row@);
                    }
                },
                None => {
                    proof {
                        assert(forall|j: int|
                            0 <= j < table@.len() ==> (#[trigger] table_m(*table)[j]).0 == table@[
                                j
                            ].0);
                        crate::model::lemma_assoc_none(
                            table_m(*table),
                            key,
                            Seq::<OverrideEntry>::empty(),
                        );
                        assert(crate::model::table_entries(stack[ti as int], key) =~= Seq::<
                            OverrideEntry,
                        >::empty());
                    }
                },
            }
            proof {
                assert(stack.subrange(0, ti + 1 as int) =~= stack.subrange(0, ti as int).push(
                    stack[ti as int],
                ));
                crate::model::lemma_stack_entries_snoc(
                    stack.subrange(0, ti as int),
                    stack[ti as int],
                    key,
                );
                assert(entries@ =~= crate::model::stack_entries(
                    stack.subrange(0, ti + 1 as int),
                    key,
                ));
            }
            ti = ti + 1;
        }
        proof {
            assert(stack.subrange(0, stack.len() as int) =~= stack);
        }
        entries
    }

    /// Keymap lookup for a pressed key: consumes the override stack when it
    /// has rows for the key, fires the pending timeout when it does not,
    /// then falls back to the static table with its filters.
    fn find_keymap(&mut self, config: &Config, key: Key) -> (r: Option<Vec<TaggedAction>>)
        requires
            old(self).application_cache is Some,
        ensures
            ({
                let (s2, res) = crate::model::spec_find_keymap(
                    old(self).m(),
                    *config,
                    key,
                    old(self).m().app_cache->Some_0,
                );
                &&& final(self).m() == s2
                &&& match r {
                    Some(v) => res == Some(crate::model::tagged_m(v@)),
                    None => res is None,
                }
            }),
    {
        let ghost app = old(self).m().app_cache->Some_0;
        if self.override_remaps.len() > 0 {
            let entries = self.collect_override_entries(key);
            if entries.len() > 0 {
                self.remove_override();
                match self.resolve_pass(&entries, true, false) {
                    Some(v) => {
                        return Some(v);
                    },
                    None => {},
                }
                match self.resolve_pass(&entries, false, false) {
                    Some(v) => {
                        return Some(v);
                    },
                    None => {},
                }
                self.timeout_override();
            } else {
                self.timeout_override();
            }
        }
        match assoc_index(&config.keymap_table, key) {
            Some(idx) => {
                proof {
                    assert(forall|j: int|
                        0 <= j < config.keymap_table@.len() ==> (#[trigger] table_m(
                            config.keymap_table,
                        )[j]).0 == config.keymap_table@[j].0);
                    crate::model::lemma_assoc_found(table_m(config.keymap_table), key, idx as int);
                }
                let base_rows = &config.keymap_table[idx].1;
                match self.resolve_pass(base_rows, true, true) {
                    Some(v) => {
                        return Some(v);
                    },
                    None => {},
                }
                match self.resolve_pass(base_rows, false, true) {
                    Some(v) => {
                        return Some(v);
                    },
                    None => {},
                }
                None
            },
            None => {
                proof {
                    assert(forall|j: int|
                        0 <= j < config.keymap_table@.len() ==> (#[trigger] table_m(
                            config.keymap_table,
                        )[j]).0 == config.keymap_table@[j].0);
                    crate::model::lemma_assoc_none(
                        table_m(config.keymap_table),
                        key,
                        Seq::<OverrideEntry>::empty(),
                    );
                    assert(crate::model::pass_actions(
                        Seq::<OverrideEntry>::empty(),
                        self.modifiers@,
                        true,
                        true,
                        app,
                        self.mode@,
                        Seq::empty(),
                    ) is None);
                    assert(crate::model::pass_actions(
                        Seq::<OverrideEntry>::empty(),
                        self.modifiers@,
                        false,
                        true,
                        app,
                        self.mode@,
                        Seq::empty(),
                    ) is None);
                }
                None
            },
        }
    }
    /// One key-value pair through the keymap stage.
    #[verifier::loop_isolation(false)]
    fn step_key_value(
        &mut self,
        k: Key,
        v: i32,
        config: &Config,
        orig_code: u16,
        orig_value: i32,
        send_flag: bool,
    ) -> (r: bool)
        requires
            valid_value(v),
            old(self).application_cache is Some,
        ensures
            ({
                let (s2, f2) = crate::model::spec_key_step(
                    old(self).m(),
                    *config,
                    k,
                    v,
                    old(self).m().app_cache->Some_0,
                    orig_code,
                    orig_value,
                    send_flag,
                );
                &&& final(self).m() == s2
                &&& r == f2
            }),
    {
        let ghost s_iter = self.m();
        let ghost app = self.m().app_cache->Some_0;
        let mut send_original_relative_event = send_flag;
        if contains_key(&config.virtual_modifiers, k) {
            self.update_modifier(k, v);
        } else {
            let k_is_modifier = is_modifier_key(k);
            if k_is_modifier {
                self.update_modifier(k, v);
            }
            let mut dispatched = false;
            if !k_is_modifier && (v == PRESS || v == REPEAT) {
                if self.escape_next_key {
                    self.escape_next_key = false;
                } else {
                    match self.find_keymap(config, k) {
                        Some(actions) => {
                            self.dispatch_actions(&actions, k);
                            dispatched = true;
                        },
                        None => {},
                    }
                }
            }
            if dispatched {
            } else if k >= crate::DISGUISED_EVENT_OFFSETTER && k == orig_code && v == orig_value {
                send_original_relative_event = true;
            } else {
                self.send_key(k, v);
            }
        }
        proof {
            let (s_next, f_next) = crate::model::spec_key_step(
                s_iter,
                *config,
                k,
                v,
                app,
                orig_code,
                orig_value,
                send_flag,
            );
            assert(self.m() =~~= s_next);
            assert(send_original_relative_event == f_next);
        }
        send_original_relative_event
    }

    /// The pipeline prefix of one key event: resolves the focused
    /// application, applies the modmap, maintains press aliasing, and
    /// flushes pending multi-purpose keys.
    fn prepare_key_event(
        &mut self,
        key: Key,
        value: i32,
        config: &Config,
        focus: &Option<String>,
        now: u64,
    ) -> (r: Vec<(Key, i32)>)
        requires
            valid_value(value),
        ensures
            ({
                let (s3, kvs) = crate::model::spec_prepare_key_event(
                    old(self).m(),
                    *config,
                    key,
                    value,
                    *focus,
                    now,
                );
                &&& final(self).m() == s3
                &&& r@ == kvs
                &&& crate::model::all_valid(kvs)
                &&& final(self).application_cache is Some
                &&& final(self).m().app_cache == Some(crate::model::focus_app(*focus))
            }),
    {
        let ghost s_start = old(self).m();
        let ghost app = crate::model::focus_app(*focus);
        self.application_cache = None;
        let resolved = match focus {
            Some(name) => name.clone(),
            None => String::new(),
        };
        self.application_cache = Some(resolved);
        proof {
            assert(self.m() =~~= (HandlerM { app_cache: Some(app), ..s_start }));
        }
        let ghost s0 = self.m();
        let mut key_values: Vec<(Key, i32)> = match self.find_modmap(config, key) {
            Some(key_action) => self.dispatch_keys(key_action, key, value, now),
            None => {
                let mut v: Vec<(Key, i32)> = Vec::new();
                v.push((key, value));
                proof {
                    assert(v@ =~= seq![(key, value)]);
                }
                v
            },
        };
        proof {
            let staged = match crate::model::spec_find_modmap(config.modmap@, key, app) {
                Some(action) => crate::model::spec_dispatch_keys(s0, action, key, value, now),
                None => (s0, seq![(key, value)]),
            };
            assert(self.m() =~~= staged.0);
            assert(key_values@ == staged.1);
            assert(crate::model::all_valid(key_values@));
        }
        let ghost s1 = self.m();
        let ghost kvs0 = key_values@;
        self.maintain_pressed_keys(key, value, &mut key_values);
        proof {
            let (p2, k2) = crate::model::spec_maintain(s1.pressed_keys, key, value, kvs0);
            assert(self.m() =~~= (HandlerM { pressed_keys: p2, ..s1 }));
            assert(key_values@ == k2);
        }
        let ghost s2 = self.m();
        let ghost kvs1 = key_values@;
        if self.multi_purpose_keys.len() > 0 {
            key_values = self.flush_timeout_keys(key_values);
        }
        proof {
            let staged = if s2.multi_purpose.len() > 0 {
                crate::model::spec_flush(s2.multi_purpose, kvs1)
            } else {
                (s2.multi_purpose, kvs1)
            };
            assert(self.m() =~~= (HandlerM { multi_purpose: staged.0, ..s2 }));
            assert(key_values@ == staged.1);
        }
        key_values
    }

    /// One key event through the whole pipeline: cache refresh, modmap,
    /// press aliasing, multi-purpose flush, then the keymap stage pair by
    /// pair. Returns whether the caller should re-emit the original
    /// relative event this key event disguised.
    #[verifier::loop_isolation(false)]
    pub fn on_key_event(
        &mut self,
        event: &crate::event::KeyEvent,
        config: &Config,
        focus: &Option<String>,
        now: u64,
    ) -> (r: bool)
        ensures
            ({
                let (s2, flag) = crate::model::spec_on_key_event(
                    old(self).m(),
                    *config,
                    event.key,
                    event.value.spec_value(),
                    *focus,
                    now,
                );
                &&& final(self).m() == s2
                &&& r == flag
            }),
    {
        let ghost s_start = old(self).m();
        let ghost app = crate::model::focus_app(*focus);
        let key = event.code();
        let value = event.value();
        let key_values = self.prepare_key_event(key, value, config, focus, now);
        let ghost s3 = self.m();
        let ghost kvs = key_values@;
        proof {
            assert(kvs.skip(0) =~= kvs);
        }
        let mut send_original_relative_event = false;
        let mut i: usize = 0;
        while i < key_values.len()
            invariant
                i <= kvs.len(),
                key_values@ == kvs,
                crate::model::all_valid(kvs),
                self.application_cache is Some,
                self.m().app_cache == Some(app),
                crate::model::spec_key_loop(s3, *config, kvs, app, key, value, false)
                    == crate::model::spec_key_loop(
                    self.m(),
                    *config,
                    kvs.skip(i as int),
                    app,
                    key,
                    value,
                    send_original_relative_event,
                ),
            decreases kvs.len() - i,
        {
            proof {
                assert(kvs.skip(i as int)[0] == kvs[i as int]);
                assert(kvs.skip(i as int).skip(1) =~= kvs.skip(i + 1 as int));
            }
            let k = key_values[i].0;
            let v = key_values[i].1;
            send_original_relative_event = self.step_key_value(
                k,
                v,
                config,
                key,
                value,
                send_original_relative_event,
            );
            i = i + 1;
        }
        proof {
            assert(kvs.skip(kvs.len() as int) =~= Seq::<(Key, i32)>::empty());
        }
        send_original_relative_event
    }


    /// One relative event: a disguised press, then — when the press passed
    /// through unchanged — the original event, buffered for pointer axes
    /// and emitted directly otherwise, then a disguised release.
    pub fn on_relative_event(
        &mut self,
        event: &crate::event::RelativeEvent,
        mouse_movement_collection: &mut Vec<crate::event::RelativeEvent>,
        config: &Config,
        focus: &Option<String>,
        now: u64,
    )
        requires
            crate::model::rel_wf(event.code),
        ensures
            ({
                let (s2, coll2) = crate::model::spec_on_relative_event(
                    old(self).m(),
                    old(mouse_movement_collection)@,
                    *event,
                    *config,
                    *focus,
                    now,
                );
                &&& final(self).m() == s2
                &&& final(mouse_movement_collection)@ == coll2
            }),
    {
        let key: u16 = if event.value >= 1 {
            event.code * 2 + crate::DISGUISED_EVENT_OFFSETTER
        } else if event.value <= -1 {
            event.code * 2 + 1 + crate::DISGUISED_EVENT_OFFSETTER
        } else {
            event.code * 2 + crate::DISGUISED_EVENT_OFFSETTER
        };
        proof {
            assert(key == crate::model::disguised_code(event.code, event.value) as u16);
        }
        let send = self.on_key_event(&crate::event::KeyEvent::new_with(key, PRESS), config, focus, now);
        if send {
            let action = crate::event::RelativeEvent::new_with(event.code, event.value);
            if event.code <= 2 {
                mouse_movement_collection.push(action);
            } else {
                self.send_action(
                    Action::RelativeEvent(
                        crate::action::RelativeEventAction { code: event.code, value: event.value },
                    ),
                );
            }
        }
        self.on_key_event(&crate::event::KeyEvent::new_with(key, RELEASE), config, focus, now);
        proof {
            let (s2, coll2) = crate::model::spec_on_relative_event(
                old(self).m(),
                old(mouse_movement_collection)@,
                *event,
                *config,
                *focus,
                now,
            );
            assert(self.m() =~~= s2);
            assert(mouse_movement_collection@ =~= coll2);
        }
    }

    /// Handles a batch of events and returns the actions to dispatch and
    /// the commands for the override timer, in order. Mouse motion is
    /// coalesced into one terminal action.
    #[verifier::loop_isolation(false)]
    pub fn on_events(
        &mut self,
        events: &Vec<Event>,
        config: &Config,
        focus: &Option<String>,
        now: u64,
    ) -> (r: (Vec<Action>, Vec<TimerOp>))
        requires
            forall|i: int| 0 <= i < events@.len() ==> crate::model::event_wf(#[trigger] events@[i]),
        ensures
            ({
                let s2 = crate::model::spec_on_events(old(self).m(), events@, *config, *focus, now);
                &&& crate::model::actions_m(r.0@) == s2.actions
                &&& r.1@ == s2.timer_ops
                &&& final(self).m() == (HandlerM {
                    actions: Seq::empty(),
                    timer_ops: Seq::empty(),
                    ..s2
                })
            }),
    {
        let ghost s_start = old(self).m();
        let mut mouse_movement_collection: Vec<crate::event::RelativeEvent> = Vec::new();
        proof {
            assert(events@.skip(0) =~= events@);
            assert(mouse_movement_collection@ =~= Seq::<crate::event::RelativeEvent>::empty());
        }
        let mut i: usize = 0;
        while i < events.len()
            invariant
                i <= events@.len(),
                crate::model::spec_events_loop(
                    s_start,
                    Seq::empty(),
                    events@,
                    *config,
                    *focus,
                    now,
                ) == crate::model::spec_events_loop(
                    self.m(),
                    mouse_movement_collection@,
                    events@.skip(i as int),
                    *config,
                    *focus,
                    now,
                ),
            decreases events@.len() - i,
        {
            proof {
                assert(events@.skip(i as int)[0] == events@[i as int]);
                assert(events@.skip(i as int).skip(1) =~= events@.skip(i + 1 as int));
            }
            let ghost s_iter = self.m();
            let ghost coll_iter = mouse_movement_collection@;
            match &events[i] {
                Event::KeyEvent(key_event) => {
                    self.on_key_event(key_event, config, focus, now);
                },
                Event::RelativeEvent(relative_event) => {
                    self.on_relative_event(
                        relative_event,
                        &mut mouse_movement_collection,
                        config,
                        focus,
                        now,
                    );
                },
                Event::OtherEvents(raw) => {
                    self.send_action(Action::InputEvent(*raw));
                },
                Event::OverrideTimeout => {
                    self.timeout_override();
                },
            }
            proof {
                let (s_next, coll_next) = crate::model::spec_on_event(
                    s_iter,
                    coll_iter,
                    events@[i as int],
                    *config,
                    *focus,
                    now,
                );
                assert(self.m() =~~= s_next);
                assert(mouse_movement_collection@ == coll_next);
            }
            i = i + 1;
        }
        proof {
            assert(events@.skip(events@.len() as int) =~= Seq::<Event>::empty());
        }
        if mouse_movement_collection.len() > 0 {
            let mut rels: Vec<crate::action::RelativeEventAction> = Vec::new();
            let mut k: usize = 0;
            while k < mouse_movement_collection.len()
                invariant
                    k <= mouse_movement_collection@.len(),
                    rels@ == crate::model::rel_actions_of(
                        mouse_movement_collection@.subrange(0, k as int),
                    ),
                decreases mouse_movement_collection@.len() - k,
            {
                let ev = &mouse_movement_collection[k];
                rels.push(crate::action::RelativeEventAction { code: ev.code, value: ev.value });
                proof {
                    assert(rels@ =~= crate::model::rel_actions_of(
                        mouse_movement_collection@.subrange(0, k + 1 as int),
                    ));
                }
                k = k + 1;
            }
            proof {
                assert(mouse_movement_collection@.subrange(
                    0,
                    mouse_movement_collection@.len() as int,
                ) =~= mouse_movement_collection@);
            }
            self.send_action(Action::MouseMovementEventCollection(rels));
        }
        proof {
            let s2 = crate::model::spec_on_events(s_start, events@, *config, *focus, now);
            assert(self.m() =~~= s2);
        }
        let mut out_actions: Vec<Action> = Vec::new();
        let mut out_ops: Vec<TimerOp> = Vec::new();
        core::mem::swap(&mut out_actions, &mut self.actions);
        core::mem::swap(&mut out_ops, &mut self.timer_ops);
        proof {
            let s2 = crate::model::spec_on_events(s_start, events@, *config, *focus, now);
            assert(self.m() =~~= (HandlerM {
                actions: Seq::empty(),
                timer_ops: Seq::empty(),
                ..s2
            }));
        }
        (out_actions, out_ops)
    }

}

/// Whether `key` occurs in the list.
fn contains_key(keys: &Vec<Key>, key: Key) -> (r: bool)
    ensures
        r == keys@.contains(key),
{
    let mut i: usize = 0;
    while i < keys.len()
        invariant
            i <= keys@.len(),
            forall|j: int| 0 <= j < i ==> keys@[j] != key,
        decreases keys@.len() - i,
    {
        if keys[i] == key {
            return true;
        }
        i = i + 1;
    }
    false
}

/// The list without every occurrence of `key`.
fn remove_key(keys: &Vec<Key>, key: Key) -> (r: Vec<Key>)
    ensures
        r@ == keys_without(keys@, key),
{
    let mut out: Vec<Key> = Vec::new();
    let mut i: usize = 0;
    while i < keys.len()
        invariant
            i <= keys@.len(),
            out@ == keys_without(keys@.subrange(0, i as int), key),
        decreases keys@.len() - i,
    {
        if keys[i] != key {
            out.push(keys[i]);
        }
        proof {
            assert(keys@.subrange(0, i + 1 as int).drop_last() =~= keys@.subrange(0, i as int));
            assert(keys@.subrange(0, i + 1 as int).last() == keys@[i as int]);
        }
        i = i + 1;
    }
    proof {
        assert(keys@.subrange(0, keys@.len() as int) =~= keys@);
    }
    out
}

/// Whether the chord's modifier list already requires Shift.
fn has_shift_modifier(modifiers: &Vec<Modifier>) -> (r: bool)
    ensures
        r == crate::model::spec_has_shift(modifiers@),
{
    let mut i: usize = 0;
    while i < modifiers.len()
        invariant
            i <= modifiers@.len(),
            forall|j: int| 0 <= j < i ==> !(#[trigger] modifiers@[j] is Shift),
        decreases modifiers@.len() - i,
    {
        match &modifiers[i] {
            Modifier::Shift => {
                return true;
            },
            _ => {},
        }
        i = i + 1;
    }
    false
}

/// Whether some required modifier of the list is met by `key`.
fn contains_modifier(modifiers: &Vec<Modifier>, key: Key) -> (r: bool)
    ensures
        r == spec_contains_modifier(modifiers@, key),
{
    let mut i: usize = 0;
    while i < modifiers.len()
        invariant
            i <= modifiers@.len(),
            forall|j: int| 0 <= j < i ==> !mod_covers(#[trigger] modifiers@[j], key),
        decreases modifiers@.len() - i,
    {
        let covered = match &modifiers[i] {
            Modifier::Shift => key == crate::keys::KEY_LEFTSHIFT || key
                == crate::keys::KEY_RIGHTSHIFT,
            Modifier::Control => key == crate::keys::KEY_LEFTCTRL || key
                == crate::keys::KEY_RIGHTCTRL,
            Modifier::Alt => key == crate::keys::KEY_LEFTALT || key == crate::keys::KEY_RIGHTALT,
            Modifier::Windows => key == crate::keys::KEY_LEFTMETA || key
                == crate::keys::KEY_RIGHTMETA,
            Modifier::Key(k) => key == *k,
        };
        if covered {
            return true;
        }
        i = i + 1;
    }
    false
}

/// The extra modifiers actually released around a chord: physical modifier
/// keys not already virtually released.
fn retain_entourage_extra(extra: &Vec<Key>, extra_state: &Vec<Key>) -> (r: Vec<Key>)
    ensures
        r@ == retained_extra(extra@, extra_state@),
{
    let mut out: Vec<Key> = Vec::new();
    let mut i: usize = 0;
    while i < extra.len()
        invariant
            i <= extra@.len(),
            out@ == retained_extra(extra@.subrange(0, i as int), extra_state@),
        decreases extra@.len() - i,
    {
        if is_modifier_key(extra[i]) && !contains_key(extra_state, extra[i]) {
            out.push(extra[i]);
        }
        proof {
            assert(extra@.subrange(0, i + 1 as int).drop_last() =~= extra@.subrange(0, i as int));
            assert(extra@.subrange(0, i + 1 as int).last() == extra@[i as int]);
        }
        i = i + 1;
    }
    proof {
        assert(extra@.subrange(0, extra@.len() as int) =~= extra@);
    }
    out
}

/// The missing modifiers actually pressed around a chord: physical modifier
/// keys only.
fn retain_entourage_missing(missing: &Vec<Key>) -> (r: Vec<Key>)
    ensures
        r@ == retained_missing(missing@),
{
    let mut out: Vec<Key> = Vec::new();
    let mut i: usize = 0;
    while i < missing.len()
        invariant
            i <= missing@.len(),
            out@ == retained_missing(missing@.subrange(0, i as int)),
        decreases missing@.len() - i,
    {
        if is_modifier_key(missing[i]) {
            out.push(missing[i]);
        }
        proof {
            assert(missing@.subrange(0, i + 1 as int).drop_last() =~= missing@.subrange(
                0,
                i as int,
            ));
            assert(missing@.subrange(0, i + 1 as int).last() == missing@[i as int]);
        }
        i = i + 1;
    }
    proof {
        assert(missing@.subrange(0, missing@.len() as int) =~= missing@);
    }
    out
}


/// A copy of a key list.
fn copy_keys(keys: &Vec<Key>) -> (r: Vec<Key>)
    ensures
        r@ == keys@,
{
    let mut out: Vec<Key> = Vec::new();
    let mut i: usize = 0;
    while i < keys.len()
        invariant
            i <= keys@.len(),
            out@ == keys@.subrange(0, i as int),
        decreases keys@.len() - i,
    {
        out.push(keys[i]);
        proof {
            assert(out@ =~= keys@.subrange(0, i + 1 as int));
        }
        i = i + 1;
    }
    proof {
        assert(out@ =~= keys@);
    }
    out
}

/// A copy of a command line; each argument keeps its value.
fn clone_strings(strings: &Vec<String>) -> (r: Vec<String>)
    ensures
        r@ == strings@,
{
    let mut out: Vec<String> = Vec::new();
    let mut i: usize = 0;
    while i < strings.len()
        invariant
            i <= strings@.len(),
            out@ == strings@.subrange(0, i as int),
        decreases strings@.len() - i,
    {
        out.push(strings[i].clone());
        proof {
            assert(out@ =~= strings@.subrange(0, i + 1 as int));
        }
        i = i + 1;
    }
    proof {
        assert(out@ =~= strings@);
    }
    out
}

/// The position of the first binding of `key`, if any.
fn assoc_index<V>(v: &Vec<(Key, V)>, key: Key) -> (r: Option<usize>)
    ensures
        match r {
            Some(i) => i < v@.len() && v@[i as int].0 == key && (forall|j: int|
                0 <= j < i ==> (#[trigger] v@[j]).0 != key),
            None => forall|j: int| 0 <= j < v@.len() ==> (#[trigger] v@[j]).0 != key,
        },
{
    let mut i: usize = 0;
    while i < v.len()
        invariant
            i <= v@.len(),
            forall|j: int| 0 <= j < i ==> (#[trigger] v@[j]).0 != key,
        decreases v@.len() - i,
    {
        if v[i].0 == key {
            return Some(i);
        }
        i = i + 1;
    }
    None
}

/// A row's actions wrapped for dispatch: tagged with the row's exact-match
/// flag, and bracketed by virtual release and restore of the extra
/// modifiers when there are any.
#[verifier::loop_isolation(false)]
fn with_extra_modifiers(
    actions: &Vec<Rc<KeymapAction>>,
    extra_modifiers: &Vec<Key>,
    exact_match: bool,
) -> (r: Vec<TaggedAction>)
    ensures
        crate::model::tagged_m(r@) == crate::model::with_extra_m(
            actions@,
            extra_modifiers@,
            exact_match,
        ),
{
    let ghost head = if extra_modifiers@.len() > 0 {
        seq![(crate::model::KeymapActionM::SetExtraModifiers(extra_modifiers@), exact_match)]
    } else {
        Seq::<(crate::model::KeymapActionM, bool)>::empty()
    };
    let mut result: Vec<TaggedAction> = Vec::new();
    if extra_modifiers.len() > 0 {
        let ks = copy_keys(extra_modifiers);
        result.push(
            TaggedAction { action: Rc::new(KeymapAction::SetExtraModifiers(ks)), exact_match },
        );
    }
    proof {
        assert(crate::model::tagged_m(result@) =~= head + crate::model::base_tagged(
            actions@.subrange(0, 0int),
            exact_match,
        ));
    }
    let mut i: usize = 0;
    while i < actions.len()
        invariant
            i <= actions@.len(),
            crate::model::tagged_m(result@) == head + crate::model::base_tagged(
                actions@.subrange(0, i as int),
                exact_match,
            ),
            head == (if extra_modifiers@.len() > 0 {
                seq![
                    (crate::model::KeymapActionM::SetExtraModifiers(extra_modifiers@), exact_match),
                ]
            } else {
                Seq::<(crate::model::KeymapActionM, bool)>::empty()
            }),
        decreases actions@.len() - i,
    {
        let ghost pre_tagged = crate::model::tagged_m(result@);
        result.push(TaggedAction { action: rc_dup(&actions[i]), exact_match });
        proof {
            let now_tagged = crate::model::tagged_m(result@);
            let base_next = crate::model::base_tagged(
                actions@.subrange(0, i + 1 as int),
                exact_match,
            );
            let base_cur = crate::model::base_tagged(actions@.subrange(0, i as int), exact_match);
            assert(now_tagged =~= pre_tagged.push(now_tagged.last()));
            assert(now_tagged.last() == base_next.last());
            assert(base_next =~= base_cur.push(base_next.last()));
            assert(now_tagged =~= head + base_next);
        }
        i = i + 1;
    }
    proof {
        assert(actions@.subrange(0, actions@.len() as int) =~= actions@);
    }
    if extra_modifiers.len() > 0 {
        result.push(
            TaggedAction {
                action: Rc::new(KeymapAction::SetExtraModifiers(Vec::new())),
                exact_match,
            },
        );
    }
    proof {
        assert(crate::model::tagged_m(result@) =~= crate::model::with_extra_m(
            actions@,
            extra_modifiers@,
            exact_match,
        ));
    }
    result
}


/// Whether some listed name equals `s`.
fn contains_string(list: &Vec<String>, s: &String) -> (r: bool)
    ensures
        r == (exists|i: int| 0 <= i < list@.len() && (#[trigger] list@[i])@ == s@),
{
    let mut i: usize = 0;
    while i < list.len()
        invariant
            i <= list@.len(),
            forall|j: int| 0 <= j < i ==> (#[trigger] list@[j])@ != s@,
        decreases list@.len() - i,
    {
        if s.eq(&list[i]) {
            proof {
                assert((#[trigger] list@[i as int])@ == s@);
            }
            return true;
        }
        i = i + 1;
    }
    false
}

} // verus!
