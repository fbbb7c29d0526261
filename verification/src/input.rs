//! Keyboard, focus and IME input decisions of the desktop window: the launcher
//! key quarantine, orphan key-repeat filtering, modifier tracking and recovery
//! shortcuts. Instants are nanoseconds from an origin the caller chooses.

use vstd::prelude::*;
use crate::desktop::{ime_commit_text, recovery_action, recovery_action_spec};
use crate::platform_core::{ImeEvent, KeyEvent, KeyModifiers, KeyState, WindowAction};
use crate::text::{has_control, str_eq};

verus! {

/// How long after the window first gains focus a held launcher key is quarantined.
pub const INITIAL_ACTIVATION_KEY_GUARD: u64 = 750_000_000;

/// No modifier held.
pub open spec fn no_modifiers() -> KeyModifiers {
    KeyModifiers { shift: false, ctrl: false, alt: false, super_key: false, alt_graph: false }
}

/// The physical keys that activate a window from a launcher.
pub open spec fn is_activation_key(key: Seq<char>) -> bool {
    key == "Code(Enter)"@ || key == "Code(NumpadEnter)"@ || key == "Code(Space)"@
}

fn is_window_activation_key(key: &str) -> (r: bool)
    ensures
        r == is_activation_key(key@),
{
    str_eq(key, "Code(Enter)") || str_eq(key, "Code(NumpadEnter)") || str_eq(key, "Code(Space)")
}

/// The keys a list holds.
pub open spec fn key_set(keys: Seq<String>) -> Set<Seq<char>> {
    Set::new(|k: Seq<char>| exists|i: int| 0 <= i < keys.len() && (#[trigger] keys[i])@ == k)
}

pub open spec fn distinct_keys(keys: Seq<String>) -> bool {
    forall|i: int, j: int| 0 <= i < j < keys.len() ==> (#[trigger] keys[i])@ != (#[trigger] keys[j])@
}

fn find_key(keys: &Vec<String>, key: &str) -> (r: Option<usize>)
    ensures
        match r {
            Some(i) => i < keys@.len() && keys@[i as int]@ == key@,
            None => !key_set(keys@).contains(key@),
        },
{
    let mut i: usize = 0;
    while i < keys.len()
        invariant
            i <= keys@.len(),
            forall|j: int| 0 <= j < i ==> (#[trigger] keys@[j])@ != key@,
        decreases keys@.len() - i,
    {
        if str_eq(keys[i].as_str(), key) {
            return Some(i);
        }
        i = i + 1;
    }
    None
}

fn insert_key(keys: &mut Vec<String>, key: &str)
    requires
        distinct_keys(old(keys)@),
    ensures
        distinct_keys(final(keys)@),
        key_set(final(keys)@) == key_set(old(keys)@).insert(key@),
{
    if find_key(keys, key).is_none() {
        let ghost before = keys@;
        keys.push(key.to_owned());
        proof {
            assert forall|i: int, j: int| 0 <= i < j < keys@.len() implies (#[trigger] keys@[i])@ != (#[trigger] keys@[j])@ by {
                if j == before.len() {
                    assert(keys@[i] == before[i]);
                    assert(key_set(before).contains(before[i]@));
                } else {
                    assert(keys@[i] == before[i] && keys@[j] == before[j]);
                }
            }
            assert forall|k: Seq<char>| key_set(keys@).contains(k) <==> key_set(before).insert(key@).contains(k) by {
                if key_set(keys@).contains(k) {
                    let i = choose|i: int| 0 <= i < keys@.len() && (#[trigger] keys@[i])@ == k;
                    if i < before.len() {
                        assert(keys@[i] == before[i]);
                    }
                }
                if key_set(before).contains(k) {
                    let i = choose|i: int| 0 <= i < before.len() && (#[trigger] before[i])@ == k;
                    assert(keys@[i] == before[i]);
                }
                if k == key@ {
                    assert(keys@[before.len() as int]@ == k);
                }
            }
            assert(key_set(keys@) =~= key_set(before).insert(key@));
        }
    }
    else {
        assert(key_set(keys@) =~= key_set(keys@).insert(key@));
    }
}

fn remove_key(keys: &mut Vec<String>, key: &str)
    requires
        distinct_keys(old(keys)@),
    ensures
        distinct_keys(final(keys)@),
        key_set(final(keys)@) == key_set(old(keys)@).remove(key@),
{
    match find_key(keys, key) {
        None => {
            assert(key_set(keys@) =~= key_set(keys@).remove(key@));
        },
        Some(i) => {
            let ghost before = keys@;
            keys.remove(i);
            proof {
                assert forall|a: int, b: int| 0 <= a < b < keys@.len() implies (#[trigger] keys@[a])@ != (#[trigger] keys@[b])@ by {
                    let sa = if a < i { a } else { a + 1 };
                    let sb = if b < i { b } else { b + 1 };
                    assert(keys@[a] == before[sa] && keys@[b] == before[sb]);
                }
                assert forall|k: Seq<char>| key_set(keys@).contains(k) <==> key_set(before).remove(key@).contains(k) by {
                    if key_set(keys@).contains(k) {
                        let a = choose|a: int| 0 <= a < keys@.len() && (#[trigger] keys@[a])@ == k;
                        let sa = if a < i { a } else { a + 1 };
                        assert(keys@[a] == before[sa]);
                        assert(sa != i);
                    }
                    if key_set(before).remove(key@).contains(k) {
                        let a = choose|a: int| 0 <= a < before.len() && (#[trigger] before[a])@ == k;
                        assert(a != i);
                        if a < i {
                            assert(keys@[a] == before[a]);
                        } else {
                            assert(keys@[a - 1] == before[a]);
                        }
                    }
                }
                assert(key_set(keys@) =~= key_set(before).remove(key@));
            }
        },
    }
}

/// The launcher key quarantine: a quarantined key stays swallowed until its
/// release (which is swallowed too); an activation key pressed within the guard
/// after the first focus is quarantined. Gives whether the event is swallowed
/// and the quarantined keys after it.
pub open spec fn quarantine(
    suppressed: Set<Seq<char>>,
    key: Seq<char>,
    state: KeyState,
    since_initial_focus: u64,
) -> (bool, Set<Seq<char>>) {
    if suppressed.contains(key) {
        (true, if state == KeyState::Released { suppressed.remove(key) } else { suppressed })
    } else if state == KeyState::Pressed && since_initial_focus <= INITIAL_ACTIVATION_KEY_GUARD
        && is_activation_key(key) {
        (true, suppressed.insert(key))
    } else {
        (false, suppressed)
    }
}

/// Key-repeat filtering: a repeat of a key not held is dropped; a press marks
/// the key held and a release clears it. Gives whether the event goes on and the
/// held keys after it.
pub open spec fn forwarding(pressed: Set<Seq<char>>, key: Seq<char>, state: KeyState, repeat: bool) -> (bool, Set<Seq<char>>) {
    match state {
        KeyState::Pressed => if repeat && !pressed.contains(key) {
            (false, pressed)
        } else {
            (true, pressed.insert(key))
        },
        KeyState::Released => (true, pressed.remove(key)),
    }
}

/// Whether a key event is swallowed by the launcher key quarantine.
pub fn should_suppress_initial_activation_key(
    suppressed_keys: &mut Vec<String>,
    key: &str,
    state: KeyState,
    since_initial_focus: u64,
) -> (r: bool)
    requires
        distinct_keys(old(suppressed_keys)@),
    ensures
        distinct_keys(final(suppressed_keys)@),
        (r, key_set(final(suppressed_keys)@)) == quarantine(key_set(old(suppressed_keys)@), key@, state, since_initial_focus),
{
    if find_key(suppressed_keys, key).is_some() {
        if state == KeyState::Released {
            remove_key(suppressed_keys, key);
        }
        return true;
    }
    if state == KeyState::Pressed && since_initial_focus <= INITIAL_ACTIVATION_KEY_GUARD && is_window_activation_key(key) {
        insert_key(suppressed_keys, key);
        return true;
    }
    false
}

/// Whether a key event goes on to the terminal, dropping orphan repeats.
pub fn should_forward_key_event(pressed_keys: &mut Vec<String>, key: &str, state: KeyState, repeat: bool) -> (r: bool)
    requires
        distinct_keys(old(pressed_keys)@),
    ensures
        distinct_keys(final(pressed_keys)@),
        (r, key_set(final(pressed_keys)@)) == forwarding(key_set(old(pressed_keys)@), key@, state, repeat),
{
    match state {
        KeyState::Pressed => {
            if repeat && find_key(pressed_keys, key).is_none() {
                return false;
            }
            insert_key(pressed_keys, key);
            true
        },
        KeyState::Released => {
            remove_key(pressed_keys, key);
            true
        },
    }
}

/// A window event, as far as the keyboard, focus and IME logic reads it.
#[derive(Debug, Clone, PartialEq, Eq)]
pub enum WindowInput {
    CloseRequested,
    Focused(bool),
    Resized { width: u32, height: u32 },
    ModifiersChanged(KeyModifiers),
    Keyboard {
        /// The debug form of the physical key, such as `Code(KeyA)`.
        physical_key: String,
        logical_key: String,
        logical_key_without_modifiers: String,
        /// Whether the logical key is AltGr.
        alt_graph: bool,
        text: Option<String>,
        state: KeyState,
        repeat: bool,
    },
    Ime(ImeEvent),
}

/// What the terminal receives from a window event.
#[derive(Debug, Clone, PartialEq, Eq)]
pub enum TranslatedInput {
    CloseRequested,
    Focused(bool),
    Resized { width: u32, height: u32 },
    Key(KeyEvent),
    WindowAction(WindowAction),
    Ime(ImeEvent),
}

/// Turns window events into terminal input.
#[derive(Debug)]
pub struct InputTranslator {
    modifiers: KeyModifiers,
    pressed_keys: Vec<String>,
    suppressed_activation_keys: Vec<String>,
    activation_guard_started_at: u64,
    initial_focus_seen: bool,
}

impl InputTranslator {
    pub closed spec fn modifiers_spec(&self) -> KeyModifiers {
        self.modifiers
    }

    pub closed spec fn pressed_spec(&self) -> Set<Seq<char>> {
        key_set(self.pressed_keys@)
    }

    pub closed spec fn suppressed_spec(&self) -> Set<Seq<char>> {
        key_set(self.suppressed_activation_keys@)
    }

    pub closed spec fn guard_started_spec(&self) -> u64 {
        self.activation_guard_started_at
    }

    pub closed spec fn initial_focus_seen_spec(&self) -> bool {
        self.initial_focus_seen
    }

    pub closed spec fn wf(&self) -> bool {
        distinct_keys(self.pressed_keys@) && distinct_keys(self.suppressed_activation_keys@)
    }

    pub fn new(now: u64) -> (r: InputTranslator)
        ensures
            r.wf(),
            r.modifiers_spec() == no_modifiers(),
            r.pressed_spec().is_empty(),
            r.suppressed_spec().is_empty(),
            r.guard_started_spec() == now,
            !r.initial_focus_seen_spec(),
    {
        let r = InputTranslator {
            modifiers: KeyModifiers { shift: false, ctrl: false, alt: false, super_key: false, alt_graph: false },
            pressed_keys: Vec::new(),
            suppressed_activation_keys: Vec::new(),
            activation_guard_started_at: now,
            initial_focus_seen: false,
        };
        assert(r.pressed_spec() =~= Set::empty());
        assert(r.suppressed_spec() =~= Set::empty());
        r
    }

    pub fn modifiers(&self) -> (r: KeyModifiers)
        ensures
            r == self.modifiers_spec(),
    {
        self.modifiers
    }

    /// Starts a fresh launcher-to-window handoff right before events are
    /// consumed: nothing is held or quarantined and the guard restarts at `now`.
    pub fn arm_initial_focus_handoff(&mut self, now: u64)
        ensures
            final(self).wf(),
            final(self).pressed_spec().is_empty(),
            final(self).suppressed_spec().is_empty(),
            final(self).guard_started_spec() == now,
            !final(self).initial_focus_seen_spec(),
            final(self).modifiers_spec() == old(self).modifiers_spec(),
    {
        self.pressed_keys.clear();
        self.suppressed_activation_keys.clear();
        self.activation_guard_started_at = now;
        self.initial_focus_seen = false;
        assert(self.pressed_spec() =~= Set::empty());
        assert(self.suppressed_spec() =~= Set::empty());
    }

    /// Translates one window event at `now`.
    pub fn translate_window_event(&mut self, input: WindowInput, now: u64) -> (r: Vec<TranslatedInput>)
        requires
            old(self).wf(),
        ensures
            final(self).wf(),
            match input {
                WindowInput::CloseRequested => r@ == seq![TranslatedInput::CloseRequested] && *final(self) == *old(self),
                WindowInput::Focused(focused) => {
                    &&& r@ == seq![TranslatedInput::Focused(focused)]
                    &&& if focused && !old(self).initial_focus_seen_spec() {
                        &&& final(self).guard_started_spec() == now
                        &&& final(self).initial_focus_seen_spec()
                        &&& final(self).pressed_spec() == old(self).pressed_spec()
                        &&& final(self).suppressed_spec() == old(self).suppressed_spec()
                        &&& final(self).modifiers_spec() == old(self).modifiers_spec()
                    } else if !focused {
                        &&& final(self).pressed_spec().is_empty()
                        &&& final(self).suppressed_spec().is_empty()
                        &&& final(self).modifiers_spec() == no_modifiers()
                        &&& final(self).guard_started_spec() == old(self).guard_started_spec()
                        &&& final(self).initial_focus_seen_spec() == old(self).initial_focus_seen_spec()
                    } else {
                        *final(self) == *old(self)
                    }
                },
                WindowInput::Resized { width, height } => r@ == seq![TranslatedInput::Resized { width, height }]
                    && *final(self) == *old(self),
                WindowInput::ModifiersChanged(modifiers) => r@.len() == 0
                    && final(self).modifiers_spec() == modifiers
                    && final(self).pressed_spec() == old(self).pressed_spec()
                    && final(self).suppressed_spec() == old(self).suppressed_spec(),
                WindowInput::Keyboard { physical_key, logical_key, logical_key_without_modifiers, alt_graph, text, state, repeat } => {
                    let since = if now >= old(self).guard_started_spec() { (now - old(self).guard_started_spec()) as u64 } else { 0 };
                    let (swallowed, suppressed) = quarantine(old(self).suppressed_spec(), physical_key@, state, since);
                    let (forwarded, pressed) = forwarding(old(self).pressed_spec(), physical_key@, state, repeat);
                    let modifiers = if !swallowed && forwarded && alt_graph {
                        KeyModifiers { alt_graph: state == KeyState::Pressed, ..old(self).modifiers_spec() }
                    } else {
                        old(self).modifiers_spec()
                    };
                    let key = KeyEvent { physical_key: Some(physical_key), logical_key, logical_key_without_modifiers, text, state, modifiers, repeat };
                    &&& final(self).suppressed_spec() == suppressed
                    &&& final(self).pressed_spec() == (if swallowed { old(self).pressed_spec() } else { pressed })
                    &&& final(self).modifiers_spec() == modifiers
                    &&& if swallowed || !forwarded {
                        r@.len() == 0
                    } else if state != KeyState::Pressed {
                        r@ == seq![TranslatedInput::Key(key)]
                    } else {
                        match recovery_action_spec(modifiers.ctrl, modifiers.shift, key.logical_key@) {
                            Some(action) => r@ == seq![TranslatedInput::WindowAction(action)],
                            None => r@ == seq![TranslatedInput::Key(key)],
                        }
                    }
                },
                WindowInput::Ime(ime) => *final(self) == *old(self) && match ime {
                    ImeEvent::Commit { text } => if text@.len() > 0 && !has_control(text@) {
                        r@.len() == 1 && (r@[0] matches TranslatedInput::Ime(ImeEvent::Commit { text: t }) && t@ == text@)
                    } else {
                        r@.len() == 0
                    },
                    _ => r@ == seq![TranslatedInput::Ime(ime)],
                },
            },
    {
        match input {
            WindowInput::CloseRequested => vec![TranslatedInput::CloseRequested],
            WindowInput::Focused(focused) => {
                if focused && !self.initial_focus_seen {
                    self.activation_guard_started_at = now;
                    self.initial_focus_seen = true;
                } else if !focused {
                    self.pressed_keys.clear();
                    self.suppressed_activation_keys.clear();
                    self.modifiers = KeyModifiers { shift: false, ctrl: false, alt: false, super_key: false, alt_graph: false };
                    assert(self.pressed_spec() =~= Set::empty());
                    assert(self.suppressed_spec() =~= Set::empty());
                }
                vec![TranslatedInput::Focused(focused)]
            },
            WindowInput::Resized { width, height } => vec![TranslatedInput::Resized { width, height }],
            WindowInput::ModifiersChanged(modifiers) => {
                self.modifiers = modifiers;
                Vec::new()
            },
            WindowInput::Keyboard { physical_key, logical_key, logical_key_without_modifiers, alt_graph, text, state, repeat } => {
                let since = if now >= self.activation_guard_started_at { now - self.activation_guard_started_at } else { 0 };
                if should_suppress_initial_activation_key(&mut self.suppressed_activation_keys, physical_key.as_str(), state, since) {
                    return Vec::new();
                }
                if !should_forward_key_event(&mut self.pressed_keys, physical_key.as_str(), state, repeat) {
                    return Vec::new();
                }
                if alt_graph {
                    self.modifiers.alt_graph = state == KeyState::Pressed;
                }
                let key = KeyEvent {
                    physical_key: Some(physical_key),
                    logical_key,
                    logical_key_without_modifiers,
                    text,
                    state,
                    modifiers: self.modifiers,
                    repeat,
                };
                if state != KeyState::Pressed {
                    return vec![TranslatedInput::Key(key)];
                }
                match recovery_action(&key) {
                    Some(action) => vec![TranslatedInput::WindowAction(action)],
                    None => vec![TranslatedInput::Key(key)],
                }
            },
            WindowInput::Ime(ime) => match ime {
                ImeEvent::Commit { text } => match ime_commit_text(text.as_str()) {
                    Some(committed) => vec![TranslatedInput::Ime(ImeEvent::Commit { text: committed })],
                    None => Vec::new(),
                },
                other => vec![TranslatedInput::Ime(other)],
            },
        }
    }
}

} // verus!
