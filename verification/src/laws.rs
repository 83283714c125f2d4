//! Laws of the handler, stated and proved over the model: modifier-set
//! bounds, escape consumption, override clearing, pass-through exactness,
//! entourage elision, and the disguise encoding's injectivity.
use crate::config::Config;
use crate::config::ModmapAction;
use crate::config::Modifier;
use crate::config::OverrideEntry;
use crate::event::Event;
use crate::event_handler::MultiPurposeKeyState;
use crate::keys::Key;
use crate::keys::spec_is_modifier_key;
use crate::model::ActionM;
use crate::model::HandlerM;
use crate::model::KeymapActionM;
use crate::model::assoc_get;
use crate::model::assoc_remove;
use crate::model::disguised_code;
use crate::model::extra_modifiers_of;
use crate::model::focus_app;
use crate::model::force_out;
use crate::model::forced_state;
use crate::model::key_ev;
use crate::model::keys_acts;
use crate::model::keys_without;
use crate::model::keypress_emission;
use crate::model::missing_modifiers_of;
use crate::model::release_out;
use crate::model::retained_extra;
use crate::model::retained_missing;
use crate::model::spec_contains_modifier;
use crate::model::spec_dispatch_keys;
use crate::model::spec_events_loop;
use crate::model::spec_find_keymap;
use crate::model::spec_find_modmap;
use crate::model::spec_key_loop;
use crate::model::spec_key_step;
use crate::model::spec_maintain;
use crate::model::spec_match_modifier;
use crate::model::spec_on_event;
use crate::model::spec_on_events;
use crate::model::spec_on_key_event;
use crate::model::spec_remove_override;
use crate::model::table_m;
use crate::model::timeout_state;
use crate::model::upd_modifiers;
use crate::model::valid_value;
use crate::DISGUISED_EVENT_OFFSETTER;
use vstd::prelude::*;

verus! {

broadcast use crate::model::lemma_apply_tagged_seq_cache;

/// Every key of `mods` is accounted for: already in `base`, a physical
/// modifier key, or a configured virtual modifier.
pub open spec fn modifiers_within(mods: Seq<Key>, base: Seq<Key>, virt: Seq<Key>) -> bool {
    forall|x: Key|
        #[trigger] mods.contains(x) ==> base.contains(x) || spec_is_modifier_key(x)
            || virt.contains(x)
}

proof fn lemma_keys_without_sub(s: Seq<Key>, key: Key)
    ensures
        forall|x: Key| #[trigger] keys_without(s, key).contains(x) ==> s.contains(x),
    decreases s.len(),
{
    if s.len() > 0 {
        lemma_keys_without_sub(s.drop_last(), key);
        assert forall|x: Key| #[trigger] keys_without(s, key).contains(x) implies s.contains(
            x,
        ) by {
            let rest = keys_without(s.drop_last(), key);
            if s.last() != key && x == s.last() && !rest.contains(x) {
                assert(s[s.len() - 1] == x);
            } else {
                assert(rest.contains(x));
                assert(s.drop_last().contains(x));
                let w = choose|j: int| 0 <= j < s.drop_last().len() && s.drop_last()[j] == x;
                assert(s[w] == x);
            }
        }
    }
}

proof fn lemma_upd_modifiers_within(mods: Seq<Key>, key: Key, value: i32)
    ensures
        forall|x: Key|
            #[trigger] upd_modifiers(mods, key, value).contains(x) ==> mods.contains(x) || x == key,
{
    lemma_keys_without_sub(mods, key);
    assert forall|x: Key| #[trigger] upd_modifiers(mods, key, value).contains(x) implies mods
        .contains(x) || x == key by {
        if value == 1 && !mods.contains(key) {
            let w = choose|j: int|
                0 <= j < mods.push(key).len() && mods.push(key)[j] == x;
            if w < mods.len() {
                assert(mods[w] == x);
            }
        }
    }
}

proof fn lemma_key_step_modifiers(
    s: HandlerM,
    cfg: Config,
    k: Key,
    v: i32,
    app: Seq<char>,
    orig_code: u16,
    orig_value: i32,
    flag: bool,
)
    ensures
        modifiers_within(
            spec_key_step(s, cfg, k, v, app, orig_code, orig_value, flag).0.modifiers,
            s.modifiers,
            cfg.virtual_modifiers@,
        ),
{
    lemma_upd_modifiers_within(s.modifiers, k, v);
    let (s2, _) = spec_key_step(s, cfg, k, v, app, orig_code, orig_value, flag);
    assert forall|x: Key| #[trigger] s2.modifiers.contains(x) implies s.modifiers.contains(x)
        || spec_is_modifier_key(x) || cfg.virtual_modifiers@.contains(x) by {
        if cfg.virtual_modifiers@.contains(k) || spec_is_modifier_key(k) {
        } else {
            assert(s2.modifiers == s.modifiers);
        }
    }
}

proof fn lemma_key_loop_modifiers(
    s: HandlerM,
    cfg: Config,
    kvs: Seq<(Key, i32)>,
    app: Seq<char>,
    orig_code: u16,
    orig_value: i32,
    flag: bool,
)
    ensures
        modifiers_within(
            spec_key_loop(s, cfg, kvs, app, orig_code, orig_value, flag).0.modifiers,
            s.modifiers,
            cfg.virtual_modifiers@,
        ),
    decreases kvs.len(),
{
    if kvs.len() > 0 {
        let (s1, f1) = spec_key_step(s, cfg, kvs[0].0, kvs[0].1, app, orig_code, orig_value, flag);
        lemma_key_step_modifiers(s, cfg, kvs[0].0, kvs[0].1, app, orig_code, orig_value, flag);
        lemma_key_loop_modifiers(s1, cfg, kvs.skip(1), app, orig_code, orig_value, f1);
    }
}

proof fn lemma_on_key_event_modifiers(
    s: HandlerM,
    cfg: Config,
    code: u16,
    value: i32,
    focus: Option<String>,
    now: u64,
)
    ensures
        modifiers_within(
            spec_on_key_event(s, cfg, code, value, focus, now).0.modifiers,
            s.modifiers,
            cfg.virtual_modifiers@,
        ),
{
    let app = focus_app(focus);
    let s0 = HandlerM { app_cache: Some(app), ..s };
    let staged = match spec_find_modmap(cfg.modmap@, code, app) {
        Some(action) => spec_dispatch_keys(s0, action, code, value, now),
        None => (s0, seq![(code, value)]),
    };
    assert(staged.0.modifiers == s.modifiers);
    let (pressed2, kvs1) = spec_maintain(staged.0.pressed_keys, code, value, staged.1);
    let s2 = HandlerM { pressed_keys: pressed2, ..staged.0 };
    let (multi2, kvs2) = if s2.multi_purpose.len() > 0 {
        crate::model::spec_flush(s2.multi_purpose, kvs1)
    } else {
        (s2.multi_purpose, kvs1)
    };
    let s3 = HandlerM { multi_purpose: multi2, ..s2 };
    lemma_key_loop_modifiers(s3, cfg, kvs2, app, code, value, false);
}

proof fn lemma_on_event_modifiers(
    s: HandlerM,
    coll: Seq<crate::event::RelativeEvent>,
    ev: Event,
    cfg: Config,
    focus: Option<String>,
    now: u64,
)
    ensures
        modifiers_within(
            spec_on_event(s, coll, ev, cfg, focus, now).0.modifiers,
            s.modifiers,
            cfg.virtual_modifiers@,
        ),
{
    match ev {
        Event::KeyEvent(ke) => {
            lemma_on_key_event_modifiers(s, cfg, ke.key, ke.value.spec_value(), focus, now);
        },
        Event::RelativeEvent(re) => {
            let key = disguised_code(re.code, re.value) as u16;
            let (s1, send) = spec_on_key_event(s, cfg, key, 1, focus, now);
            lemma_on_key_event_modifiers(s, cfg, key, 1, focus, now);
            let s1b = if send {
                if re.code <= 2 {
                    s1
                } else {
                    HandlerM {
                        actions: s1.actions.push(
                            ActionM::RelativeEvent { code: re.code, value: re.value },
                        ),
                        ..s1
                    }
                }
            } else {
                s1
            };
            lemma_on_key_event_modifiers(s1b, cfg, key, 0, focus, now);
        },
        Event::OtherEvents(_) => {},
        Event::OverrideTimeout => {},
    }
}

proof fn lemma_events_loop_modifiers(
    s: HandlerM,
    coll: Seq<crate::event::RelativeEvent>,
    events: Seq<Event>,
    cfg: Config,
    focus: Option<String>,
    now: u64,
)
    ensures
        modifiers_within(
            spec_events_loop(s, coll, events, cfg, focus, now).0.modifiers,
            s.modifiers,
            cfg.virtual_modifiers@,
        ),
    decreases events.len(),
{
    if events.len() > 0 {
        let (s1, coll1) = spec_on_event(s, coll, events[0], cfg, focus, now);
        lemma_on_event_modifiers(s, coll, events[0], cfg, focus, now);
        lemma_events_loop_modifiers(s1, coll1, events.skip(1), cfg, focus, now);
    }
}

/// After any batch, the tracked modifier set holds only physical modifier
/// keys and configured virtual modifiers, provided it did before.
pub proof fn lemma_modifiers_bounded(
    s: HandlerM,
    events: Seq<Event>,
    cfg: Config,
    focus: Option<String>,
    now: u64,
)
    requires
        modifiers_within(s.modifiers, Seq::empty(), cfg.virtual_modifiers@),
    ensures
        modifiers_within(
            spec_on_events(s, events, cfg, focus, now).modifiers,
            Seq::empty(),
            cfg.virtual_modifiers@,
        ),
{
    lemma_events_loop_modifiers(s, Seq::empty(), events, cfg, focus, now);
    let done = spec_on_events(s, events, cfg, focus, now);
    let (s1, coll) = spec_events_loop(s, Seq::empty(), events, cfg, focus, now);
    assert(done.modifiers == s1.modifiers);
}

/// A pending escape is consumed by exactly the next plain press: the flag
/// is cleared, no override is consumed, and the key goes through unchanged.
pub proof fn lemma_escape_consumed_once(
    s: HandlerM,
    cfg: Config,
    k: Key,
    v: i32,
    app: Seq<char>,
    orig_code: u16,
    orig_value: i32,
    flag: bool,
)
    requires
        s.escape_next_key,
        !cfg.virtual_modifiers@.contains(k),
        !spec_is_modifier_key(k),
        v == 1 || v == 2,
    ensures
        ({
            let (s2, _) = spec_key_step(s, cfg, k, v, app, orig_code, orig_value, flag);
            &&& s2.escape_next_key == false
            &&& s2.overrides == s.overrides
            &&& (s2 == (HandlerM { escape_next_key: false, ..s }) || s2 == (HandlerM {
                escape_next_key: false,
                actions: s.actions.push(key_ev(k, v)),
                ..s
            }))
        }),
{
}

/// After an override timeout or removal, the override stack is empty and
/// the timeout key is gone.
pub proof fn lemma_override_cleared(s: HandlerM)
    ensures
        timeout_state(s).overrides == Seq::<Seq<(Key, Seq<OverrideEntry>)>>::empty(),
        timeout_state(s).timeout_key is None,
        spec_remove_override(s).overrides == Seq::<Seq<(Key, Seq<OverrideEntry>)>>::empty(),
        spec_remove_override(s).timeout_key is None,
{
}

/// A pass-through key — no modmap entry, no keymap rows, not a modifier,
/// not virtual, not disguised, no escape pending, nothing multi-purpose in
/// flight — produces exactly its own key event and nothing else.
pub proof fn lemma_pass_through(
    s: HandlerM,
    cfg: Config,
    key: Key,
    v: i32,
    focus: Option<String>,
    now: u64,
)
    requires
        valid_value(v),
        spec_find_modmap(cfg.modmap@, key, focus_app(focus)) is None,
        s.multi_purpose.len() == 0,
        s.overrides.len() == 0,
        assoc_get(table_m(cfg.keymap_table), key) is None,
        !cfg.virtual_modifiers@.contains(key),
        !spec_is_modifier_key(key),
        key < DISGUISED_EVENT_OFFSETTER,
        !s.escape_next_key,
        v != 1 ==> assoc_get(s.pressed_keys, key) is None || assoc_get(s.pressed_keys, key)
            == Some(key),
    ensures
        ({
            let (s2, flag) = spec_on_key_event(s, cfg, key, v, focus, now);
            &&& flag == false
            &&& s2.actions == s.actions.push(key_ev(key, v))
            &&& s2.timer_ops == s.timer_ops
            &&& s2.modifiers == s.modifiers
            &&& s2.overrides == s.overrides
            &&& s2.timeout_key == s.timeout_key
            &&& s2.mode == s.mode
            &&& s2.escape_next_key == false
            &&& s2.extra_modifiers == s.extra_modifiers
            &&& s2.mark_set == s.mark_set
        }),
{
    let app = focus_app(focus);
    let s0 = HandlerM { app_cache: Some(app), ..s };
    let kvs0: Seq<(Key, i32)> = seq![(key, v)];
    let (pressed2, kvs1) = spec_maintain(s0.pressed_keys, key, v, kvs0);
    assert(kvs1 =~= kvs0);
    let s3 = HandlerM {
        multi_purpose: s0.multi_purpose,
        ..(HandlerM { pressed_keys: pressed2, ..s0 })
    };
    assert(spec_on_key_event(s, cfg, key, v, focus, now) == spec_key_loop(
        s3,
        cfg,
        kvs1,
        app,
        key,
        v,
        false,
    ));
    let (s4, f4) = spec_key_step(s3, cfg, key, v, app, key, v, false);
    if v == 1 || v == 2 {
        let base = crate::model::table_entries(table_m(cfg.keymap_table), key);
        assert(base =~= Seq::<OverrideEntry>::empty());
        assert(crate::model::pass_actions(
            base,
            s3.modifiers,
            true,
            true,
            app,
            s3.mode,
            Seq::empty(),
        ) is None);
        assert(crate::model::pass_actions(
            base,
            s3.modifiers,
            false,
            true,
            app,
            s3.mode,
            Seq::empty(),
        ) is None);
        assert(spec_find_keymap(s3, cfg, key, app) == (s3, None::<Seq<(KeymapActionM, bool)>>));
    }
    assert(s4 == (HandlerM { actions: s3.actions.push(key_ev(key, v)), ..s3 }));
    assert(kvs1.skip(1) =~= Seq::<(Key, i32)>::empty());
    assert(spec_key_loop(s4, cfg, kvs1.skip(1), app, key, v, f4) == (s4, f4));
    assert(spec_key_loop(s3, cfg, kvs1, app, key, v, false) == (s4, f4));
}

/// Emitting a chord whose required modifiers are exactly met produces no
/// entourage: only the press, the release, and the delay.
pub proof fn lemma_no_entourage(
    pressed: Seq<Key>,
    extra_state: Seq<Key>,
    key: Key,
    mods: Seq<Modifier>,
    delay: u64,
)
    requires
        forall|i: int| 0 <= i < pressed.len() ==> spec_contains_modifier(mods, #[trigger] pressed[i]),
        forall|i: int| 0 <= i < mods.len() ==> spec_match_modifier(pressed, #[trigger] mods[i]),
    ensures
        keypress_emission(pressed, extra_state, key, mods, delay) == seq![
            key_ev(key, 1),
            key_ev(key, 0),
            ActionM::Delay(delay),
        ],
{
    lemma_extra_empty(pressed, mods);
    lemma_missing_empty(pressed, mods);
    assert(retained_extra(Seq::empty(), extra_state) =~= Seq::<Key>::empty());
    assert(retained_missing(Seq::empty()) =~= Seq::<Key>::empty());
    assert(keys_acts(Seq::empty(), 1) =~= Seq::<ActionM>::empty());
    assert(keys_acts(Seq::empty(), 0) =~= Seq::<ActionM>::empty());
    assert(keypress_emission(pressed, extra_state, key, mods, delay) =~= seq![
        key_ev(key, 1),
        key_ev(key, 0),
        ActionM::Delay(delay),
    ]);
}

proof fn lemma_extra_empty(pressed: Seq<Key>, mods: Seq<Modifier>)
    requires
        forall|i: int| 0 <= i < pressed.len() ==> spec_contains_modifier(mods, #[trigger] pressed[i]),
    ensures
        extra_modifiers_of(pressed, mods) == Seq::<Key>::empty(),
    decreases pressed.len(),
{
    if pressed.len() > 0 {
        assert(forall|i: int|
            0 <= i < pressed.drop_last().len() ==> pressed.drop_last()[i] == pressed[i]);
        lemma_extra_empty(pressed.drop_last(), mods);
        assert(spec_contains_modifier(mods, pressed[pressed.len() - 1]));
    }
}

proof fn lemma_missing_empty(pressed: Seq<Key>, mods: Seq<Modifier>)
    requires
        forall|i: int| 0 <= i < mods.len() ==> spec_match_modifier(pressed, #[trigger] mods[i]),
    ensures
        missing_modifiers_of(pressed, mods) == Seq::<Key>::empty(),
    decreases mods.len(),
{
    if mods.len() > 0 {
        assert(forall|i: int| 0 <= i < mods.drop_last().len() ==> mods.drop_last()[i] == mods[i]);
        lemma_missing_empty(pressed, mods.drop_last());
        assert(spec_match_modifier(pressed, mods[mods.len() - 1]));
    }
}

/// The disguise encoding is injective on axis code and value sign, and
/// always lands at or above the offset, away from real scancodes.
pub proof fn lemma_disguise_injective(code1: u16, value1: i32, code2: u16, value2: i32)
    requires
        code1 != code2 || ((value1 < 0) != (value2 < 0)),
    ensures
        disguised_code(code1, value1) != disguised_code(code2, value2),
        disguised_code(code1, value1) >= DISGUISED_EVENT_OFFSETTER,
{
}

/// A zero-valued relative event is disguised as if it were positive.
pub proof fn lemma_zero_relative_positive(code: u16)
    ensures
        disguised_code(code, 0) == disguised_code(code, 1),
{
}

/// A release of a physically held key is rewritten to the key its press
/// was emitted as, and the record is dropped: the emitted release pairs
/// with the emitted press.
pub proof fn lemma_release_pairs_with_press(
    pressed: Seq<(Key, Key)>,
    key: Key,
    emitted: Key,
    kvs: Seq<(Key, i32)>,
)
    requires
        kvs.len() == 1,
        kvs[0].1 == 0,
        assoc_get(pressed, key) == Some(emitted),
    ensures
        ({
            let (p2, k2) = spec_maintain(pressed, key, 0, kvs);
            &&& k2 == seq![(emitted, 0i32)]
            &&& p2 == assoc_remove(pressed, key)
        }),
{
    let (p2, k2) = spec_maintain(pressed, key, 0, kvs);
    assert(k2 =~= seq![(emitted, 0i32)]);
}


/// One pair appended to the keymap stage folds as one more step.
proof fn lemma_key_loop_snoc(
    s: HandlerM,
    cfg: Config,
    q: Seq<(Key, i32)>,
    x: (Key, i32),
    app: Seq<char>,
    orig_code: u16,
    orig_value: i32,
    flag: bool,
)
    ensures
        spec_key_loop(s, cfg, q.push(x), app, orig_code, orig_value, flag) == ({
            let (s1, f1) = spec_key_loop(s, cfg, q, app, orig_code, orig_value, flag);
            spec_key_step(s1, cfg, x.0, x.1, app, orig_code, orig_value, f1)
        }),
    decreases q.len(),
{
    if q.len() == 0 {
        assert(q.push(x)[0] == x);
        assert(q.push(x).skip(1) =~= Seq::empty());
        let (sx, fx) = spec_key_step(s, cfg, x.0, x.1, app, orig_code, orig_value, flag);
        assert(spec_key_loop(sx, cfg, q.push(x).skip(1), app, orig_code, orig_value, fx) == (
            sx,
            fx,
        ));
    } else {
        assert(q.push(x)[0] == q[0]);
        assert(q.push(x).skip(1) =~= q.skip(1).push(x));
        let (s1, f1) = spec_key_step(s, cfg, q[0].0, q[0].1, app, orig_code, orig_value, flag);
        lemma_key_loop_snoc(s1, cfg, q.skip(1), x, app, orig_code, orig_value, f1);
    }
}

/// A pair that cannot consume the escape — a virtual modifier, a physical
/// modifier, or a release — leaves the escape flag and the override stack
/// alone.
proof fn lemma_step_keeps_escape(
    s: HandlerM,
    cfg: Config,
    k: Key,
    v: i32,
    app: Seq<char>,
    orig_code: u16,
    orig_value: i32,
    flag: bool,
)
    requires
        cfg.virtual_modifiers@.contains(k) || spec_is_modifier_key(k) || !(v == 1 || v == 2),
    ensures
        ({
            let (s2, _) = spec_key_step(s, cfg, k, v, app, orig_code, orig_value, flag);
            &&& s2.escape_next_key == s.escape_next_key
            &&& s2.overrides == s.overrides
        }),
{
}

proof fn lemma_prefix_keeps_escape(
    s: HandlerM,
    cfg: Config,
    kvs: Seq<(Key, i32)>,
    app: Seq<char>,
    orig_code: u16,
    orig_value: i32,
    flag: bool,
    i: int,
)
    requires
        0 <= i <= kvs.len(),
        forall|j: int|
            0 <= j < i ==> cfg.virtual_modifiers@.contains((#[trigger] kvs[j]).0)
                || spec_is_modifier_key(kvs[j].0) || !(kvs[j].1 == 1 || kvs[j].1 == 2),
    ensures
        ({
            let (si, _) = spec_key_loop(
                s,
                cfg,
                kvs.subrange(0, i),
                app,
                orig_code,
                orig_value,
                flag,
            );
            &&& si.escape_next_key == s.escape_next_key
            &&& si.overrides == s.overrides
        }),
    decreases i,
{
    if i == 0 {
        assert(kvs.subrange(0, 0) =~= Seq::<(Key, i32)>::empty());
    } else {
        lemma_prefix_keeps_escape(s, cfg, kvs, app, orig_code, orig_value, flag, i - 1);
        assert(kvs.subrange(0, i) =~= kvs.subrange(0, i - 1).push(kvs[i - 1]));
        lemma_key_loop_snoc(
            s,
            cfg,
            kvs.subrange(0, i - 1),
            kvs[i - 1],
            app,
            orig_code,
            orig_value,
            flag,
        );
        let (si, fi) = spec_key_loop(
            s,
            cfg,
            kvs.subrange(0, i - 1),
            app,
            orig_code,
            orig_value,
            flag,
        );
        lemma_step_keeps_escape(
            si,
            cfg,
            kvs[i - 1].0,
            kvs[i - 1].1,
            app,
            orig_code,
            orig_value,
            fi,
        );
    }
}

/// Over a whole resolved pair list: with the escape pending, it survives
/// every pair up to the first plain press or repeat, is spent by exactly
/// that pair, and no override is consumed anywhere up to and including it.
/// One `EscapeNextKey(true)` therefore suppresses resolution for at most
/// one press.
pub proof fn lemma_escape_consumed_by_first_press(
    s: HandlerM,
    cfg: Config,
    kvs: Seq<(Key, i32)>,
    app: Seq<char>,
    orig_code: u16,
    orig_value: i32,
    flag: bool,
    i: int,
)
    requires
        s.escape_next_key,
        0 <= i < kvs.len(),
        forall|j: int|
            0 <= j < i ==> cfg.virtual_modifiers@.contains((#[trigger] kvs[j]).0)
                || spec_is_modifier_key(kvs[j].0) || !(kvs[j].1 == 1 || kvs[j].1 == 2),
        !cfg.virtual_modifiers@.contains(kvs[i].0),
        !spec_is_modifier_key(kvs[i].0),
        kvs[i].1 == 1 || kvs[i].1 == 2,
    ensures
        ({
            let (si, fi) = spec_key_loop(
                s,
                cfg,
                kvs.subrange(0, i),
                app,
                orig_code,
                orig_value,
                flag,
            );
            let (si1, _) = spec_key_step(si, cfg, kvs[i].0, kvs[i].1, app, orig_code, orig_value, fi);
            &&& si.escape_next_key
            &&& si.overrides == s.overrides
            &&& si1.escape_next_key == false
            &&& si1.overrides == s.overrides
        }),
{
    lemma_prefix_keeps_escape(s, cfg, kvs, app, orig_code, orig_value, flag, i);
    let (si, fi) = spec_key_loop(s, cfg, kvs.subrange(0, i), app, orig_code, orig_value, flag);
    lemma_escape_consumed_once(si, cfg, kvs[i].0, kvs[i].1, app, orig_code, orig_value, fi);
}

/// A multi-purpose key released strictly within its alone-timeout taps the
/// alone key — press then release — and its pending state is dropped.
pub proof fn lemma_multi_purpose_tap(s: HandlerM, mp: crate::config::MultiPurposeKey, key: Key, now: u64)
    requires
        assoc_get(s.multi_purpose, key) matches Some(st),
        assoc_get(s.multi_purpose, key)->Some_0.alone_timeout_at matches Some(t) && now < t,
    ensures
        ({
            let st = assoc_get(s.multi_purpose, key)->Some_0;
            let (s2, kvs) = spec_dispatch_keys(
                s,
                ModmapAction::MultiPurposeKey(mp),
                key,
                0,
                now,
            );
            &&& kvs == seq![(st.alone, 1i32), (st.alone, 0i32)]
            &&& s2.multi_purpose == assoc_remove(s.multi_purpose, key)
        }),
{
    let st = assoc_get(s.multi_purpose, key)->Some_0;
    let (_, kvs) = spec_dispatch_keys(s, ModmapAction::MultiPurposeKey(mp), key, 0, now);
    assert(kvs == release_out(st, now));
}

/// A multi-purpose key released at or after its alone-timeout resolves
/// held: the held pair is emitted, never the alone key.
pub proof fn lemma_multi_purpose_held(s: HandlerM, mp: crate::config::MultiPurposeKey, key: Key, now: u64)
    requires
        assoc_get(s.multi_purpose, key) matches Some(st),
        assoc_get(s.multi_purpose, key)->Some_0.alone_timeout_at matches Some(t) && now >= t,
    ensures
        ({
            let st = assoc_get(s.multi_purpose, key)->Some_0;
            let (s2, kvs) = spec_dispatch_keys(
                s,
                ModmapAction::MultiPurposeKey(mp),
                key,
                0,
                now,
            );
            &&& kvs == seq![(st.held, 1i32), (st.held, 0i32)]
            &&& s2.multi_purpose == assoc_remove(s.multi_purpose, key)
        }),
{
    let st = assoc_get(s.multi_purpose, key)->Some_0;
    let (_, kvs) = spec_dispatch_keys(s, ModmapAction::MultiPurposeKey(mp), key, 0, now);
    assert(kvs == release_out(st, now));
}

/// Forcing a still-pending multi-purpose key emits its held press once and
/// clears the pending timeout; the release that follows later then emits
/// only the held release.
pub proof fn lemma_force_held_once(st: MultiPurposeKeyState, now: u64)
    requires
        st.alone_timeout_at is Some,
    ensures
        force_out(st) == seq![(st.held, 1i32)],
        forced_state(st).alone_timeout_at is None,
        release_out(forced_state(st), now) == seq![(st.held, 0i32)],
{
    assert(force_out(st) =~= seq![(st.held, 1i32)]);
    assert(release_out(forced_state(st), now) =~= seq![(st.held, 0i32)]);
}

} // verus!
