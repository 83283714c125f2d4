//! The remap configuration the handler reads: per-key substitutions
//! (modmap), chord-to-action tables (keymap), and the action language.
//!
//! Shared payloads are reference-counted so that entries can be duplicated
//! into the handler's override stack without copying, and so that a
//! duplicate is provably the very same value.
use crate::keys::Key;
use crate::outside::rc_dup;
use std::rc::Rc;
use vstd::prelude::*;

verus! {

/// A modifier required by a chord. The first four are logical: they are met
/// by either the left or the right physical key. `Key(k)` is met by exactly
/// `k`.
#[derive(Clone, Copy, PartialEq, Eq, Structural, Debug)]
pub enum Modifier {
    Shift,
    Control,
    Alt,
    Windows,
    Key(Key),
}

/// A chord: the key to press together with the modifiers that must hold.
pub struct KeyPress {
    pub key: Key,
    pub modifiers: Rc<Vec<Modifier>>,
}

/// Which focused applications an entry applies to. Names are matched
/// literally: with `only`, some listed name must equal the focused one; with
/// `not`, none may.
pub struct Application {
    pub only: Option<Rc<Vec<String>>>,
    pub not: Option<Rc<Vec<String>>>,
}

/// A nested override keymap, pushed on top of the base keymap by a matching
/// chord and consumed by the next matching press or by timeout.
pub struct Remap {
    pub remap: Vec<(Key, Vec<OverrideEntry>)>,
    pub timeout_millis: Option<u64>,
    pub timeout_key: Option<Key>,
}

/// One action a matched chord performs.
pub enum KeymapAction {
    /// Emit a chord, with its modifier entourage.
    KeyPress(KeyPress),
    /// Push a nested override table.
    Remap(Remap),
    /// Run a command.
    Launch(Vec<String>),
    /// Change the active mode.
    SetMode(String),
    /// Enable or disable the mark; the mark adds Shift to `WithMark` chords.
    SetMark(bool),
    /// Emit a chord, adding Shift when the mark is set.
    WithMark(KeyPress),
    /// Suspend remap resolution for exactly one upcoming press.
    EscapeNextKey(bool),
    /// Replace the set of modifiers treated as virtually released.
    SetExtraModifiers(Vec<Key>),
}

/// One row of a keymap table: the modifiers a chord requires, the actions it
/// performs, and its filters.
pub struct OverrideEntry {
    pub modifiers: Rc<Vec<Modifier>>,
    pub actions: Rc<Vec<Rc<KeymapAction>>>,
    pub exact_match: bool,
    pub application: Option<Rc<Application>>,
    pub mode: Option<Rc<Vec<String>>>,
}

/// A key that acts as one key when held and another when tapped alone.
pub struct MultiPurposeKey {
    pub held: Key,
    pub alone: Key,
    pub alone_timeout_millis: u64,
}

/// Hook actions run around a key's own press and release.
pub struct PressReleaseKey {
    pub press: Vec<KeymapAction>,
    pub release: Vec<KeymapAction>,
}

/// A per-key substitution applied before keymap resolution.
pub enum ModmapAction {
    /// Straight substitution by another key.
    Key(Key),
    /// Timed alone-versus-held resolution.
    MultiPurposeKey(MultiPurposeKey),
    /// Hook actions, then the original event.
    PressReleaseKey(PressReleaseKey),
}

/// One modmap block: a substitution table, optionally restricted to an
/// application.
pub struct Modmap {
    pub remap: Vec<(Key, ModmapAction)>,
    pub application: Option<Rc<Application>>,
}

/// The whole configuration the handler reads, borrowed per call.
pub struct Config {
    pub modmap: Vec<Modmap>,
    pub keymap_table: Vec<(Key, Vec<OverrideEntry>)>,
    pub virtual_modifiers: Vec<Key>,
}

/// `entry` with the exact-match flag widened by `exact_match`; all other
/// fields are the same values.
pub open spec fn with_exact(entry: OverrideEntry, exact_match: bool) -> OverrideEntry {
    OverrideEntry { exact_match: entry.exact_match || exact_match, ..entry }
}

/// The rows of `entries`, each widened by `exact_match`.
pub open spec fn built_entries(entries: Seq<OverrideEntry>, exact_match: bool) -> Seq<
    OverrideEntry,
> {
    entries.map_values(|e: OverrideEntry| with_exact(e, exact_match))
}

/// Whether every action of the list is a nested-remap push.
pub open spec fn spec_is_remap(actions: Seq<Rc<KeymapAction>>) -> bool {
    forall|i: int| 0 <= i < actions.len() ==> (*#[trigger] actions[i]) matches KeymapAction::Remap(_)
}

/// Whether every action of the list is a nested-remap push; such a match
/// keeps collecting further remap rows instead of ending resolution.
pub fn is_remap(actions: &Vec<Rc<KeymapAction>>) -> (r: bool)
    ensures
        r == spec_is_remap(actions@),
{
    let mut i: usize = 0;
    while i < actions.len()
        invariant
            i <= actions@.len(),
            forall|j: int| 0 <= j < i ==> (*#[trigger] actions@[j]) matches KeymapAction::Remap(_),
        decreases actions@.len() - i,
    {
        match &*actions[i] {
            KeymapAction::Remap(_) => (),
            _ => {
                return false;
            },
        }
        i = i + 1;
    }
    true
}

/// A duplicate of `entry` with the exact-match flag widened: every other
/// field keeps its value, shared.
pub fn clone_entry(entry: &OverrideEntry, exact_match: bool) -> (r: OverrideEntry)
    ensures
        r == with_exact(*entry, exact_match),
{
    OverrideEntry {
        modifiers: rc_dup(&entry.modifiers),
        actions: rc_dup(&entry.actions),
        exact_match: entry.exact_match || exact_match,
        application: match &entry.application {
            Some(a) => Some(rc_dup(a)),
            None => None,
        },
        mode: match &entry.mode {
            Some(m) => Some(rc_dup(m)),
            None => None,
        },
    }
}

/// Converts a nested remap's table into an override table, widening each
/// row's exact-match flag by that of the chord that pushed it.
pub fn build_override_table(table: &Vec<(Key, Vec<OverrideEntry>)>, exact_match: bool) -> (r: Vec<
    (Key, Vec<OverrideEntry>),
>)
    ensures
        r@.len() == table@.len(),
        forall|i: int|
            0 <= i < table@.len() ==> (#[trigger] r@[i]).0 == table@[i].0 && r@[i].1@
                == built_entries(table@[i].1@, exact_match),
{
    let mut out: Vec<(Key, Vec<OverrideEntry>)> = Vec::new();
    let mut i: usize = 0;
    while i < table.len()
        invariant
            i <= table@.len(),
            out@.len() == i,
            forall|k: int|
                0 <= k < i ==> (#[trigger] out@[k]).0 == table@[k].0 && out@[k].1@
                    == built_entries(table@[k].1@, exact_match),
        decreases table@.len() - i,
    {
        let pair = &table[i];
        let mut entries: Vec<OverrideEntry> = Vec::new();
        let mut j: usize = 0;
        while j < pair.1.len()
            invariant
                j <= pair.1@.len(),
                entries@.len() == j,
                forall|k: int|
                    0 <= k < j ==> #[trigger] entries@[k] == with_exact(pair.1@[k], exact_match),
            decreases pair.1@.len() - j,
        {
            entries.push(clone_entry(&pair.1[j], exact_match));
            j = j + 1;
        }
        proof {
            assert(entries@ =~= built_entries(pair.1@, exact_match));
        }
        out.push((pair.0, entries));
        i = i + 1;
    }
    out
}

} // verus!
