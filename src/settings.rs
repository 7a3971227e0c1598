//! Key bindings and the configuration handed to the store and the detectors.
use crate::key_combination::{Key, KeyCombination};
use vstd::prelude::*;
use vstd::string::{StrSliceExecFns, StringExecFns};

verus! {

/// A chord as configured: optional modifiers and one main key named by text.
#[derive(Clone, Debug)]
pub struct KeyBinding {
    pub ctrl: bool,
    pub alt: bool,
    pub shift: bool,
    pub key: String,
}

/// The configuration: a chord for capturing, a chord for showing the history, the port
/// of the query surface, the capacity of the store and the path of its file.
#[derive(Clone, Debug)]
pub struct Settings {
    pub copy_key: KeyBinding,
    pub paste_key: KeyBinding,
    pub server_port: u16,
    pub max_clipboard_items: usize,
    pub db_path: String,
}

/// The lower-case form of a text, as `str::to_lowercase` computes it.
pub uninterp spec fn lowercase_of(s: Seq<char>) -> Seq<char>;

/// Relies on `str::to_lowercase`: the result depends on the characters alone.
#[verifier::external_body]
fn to_lowercase(s: &str) -> (r: String)
    ensures
        r@ == lowercase_of(s@),
{
    s.to_lowercase()
}

/// The main key that lower-case text names: a single letter from a to z names its letter
/// key; anything else names the C key.
pub open spec fn main_key_of(lowered: Seq<char>) -> Key {
    if lowered.len() == 1 && 'a' <= lowered[0] <= 'z' {
        Key::Letter(lowered[0])
    } else {
        Key::Letter('c')
    }
}

/// The keys of a binding: Control, Alt and Shift as set, then the main key.
pub open spec fn binding_keys(ctrl: bool, alt: bool, shift: bool, lowered: Seq<char>) -> Seq<Key> {
    (if ctrl { seq![Key::ControlLeft] } else { Seq::empty() }) + (if alt { seq![Key::Alt] } else { Seq::empty() })
        + (if shift { seq![Key::ShiftLeft] } else { Seq::empty() }) + seq![main_key_of(lowered)]
}

/// The chord built from binding keys: their first two when there are two or more,
/// Control and C otherwise.
pub open spec fn chord_keys_of(keys: Seq<Key>) -> Seq<Key> {
    let (a, b) = if keys.len() >= 2 { (keys[0], keys[1]) } else { (Key::ControlLeft, Key::Letter('c')) };
    if a == b { seq![a] } else { seq![a, b] }
}

pub fn main_key_for(lowered: &str) -> (r: Key)
    ensures
        r == main_key_of(lowered@),
{
    if lowered.unicode_len() == 1 {
        let c = lowered.get_char(0);
        if 'a' <= c && c <= 'z' {
            return Key::Letter(c);
        }
    }
    Key::Letter('c')
}

/// The keys of a binding whose main key text is already in lower case.
pub fn keys_for_binding(ctrl: bool, alt: bool, shift: bool, lowered: &str) -> (r: Vec<Key>)
    ensures
        r@ == binding_keys(ctrl, alt, shift, lowered@),
{
    let mut keys: Vec<Key> = Vec::new();
    if ctrl {
        keys.push(Key::ControlLeft);
    }
    if alt {
        keys.push(Key::Alt);
    }
    if shift {
        keys.push(Key::ShiftLeft);
    }
    keys.push(main_key_for(lowered));
    assert(keys@ =~= binding_keys(ctrl, alt, shift, lowered@));
    keys
}

/// The keys of a binding, its main key text read case-insensitively.
pub fn key_binding_to_keys(binding: &KeyBinding) -> (r: Vec<Key>)
    ensures
        r@ == binding_keys(binding.ctrl, binding.alt, binding.shift, lowercase_of(binding.key@)),
{
    let lowered = to_lowercase(binding.key.as_str());
    keys_for_binding(binding.ctrl, binding.alt, binding.shift, lowered.as_str())
}

/// The chord of binding keys: their first two, or Control and C when there are fewer.
pub fn combination_from_keys(keys: &Vec<Key>) -> (r: KeyCombination)
    ensures
        r.wf(),
        r.chord_keys() == chord_keys_of(keys@),
        forall|i: int| 0 <= i < r.pressed().len() ==> !(#[trigger] r.pressed()[i]),
        r.count() == 0,
        !r.active(),
{
    if keys.len() >= 2 {
        KeyCombination::new(keys[0], keys[1])
    } else {
        KeyCombination::new(Key::ControlLeft, Key::Letter('c'))
    }
}

pub fn create_key_combination_from_settings(binding: &KeyBinding) -> (r: KeyCombination)
    ensures
        r.wf(),
        r.chord_keys() == chord_keys_of(
            binding_keys(binding.ctrl, binding.alt, binding.shift, lowercase_of(binding.key@)),
        ),
        forall|i: int| 0 <= i < r.pressed().len() ==> !(#[trigger] r.pressed()[i]),
        r.count() == 0,
        !r.active(),
{
    let keys = key_binding_to_keys(binding);
    combination_from_keys(&keys)
}

impl Settings {
    /// The default configuration with the store file at `db_path`: Control+C captures,
    /// Control+V shows the history, port 3030, at most 1000 items.
    pub fn default_with_path(db_path: String) -> (r: Settings)
        ensures
            r.copy_key.ctrl && !r.copy_key.alt && !r.copy_key.shift && r.copy_key.key@ == seq!['c'],
            r.paste_key.ctrl && !r.paste_key.alt && !r.paste_key.shift && r.paste_key.key@ == seq!['v'],
            r.server_port == 3030,
            r.max_clipboard_items == 1000,
            r.db_path == db_path,
    {
        proof {
            reveal_strlit("c");
            reveal_strlit("v");
        }
        Settings {
            copy_key: KeyBinding { ctrl: true, alt: false, shift: false, key: String::from_str("c") },
            paste_key: KeyBinding { ctrl: true, alt: false, shift: false, key: String::from_str("v") },
            server_port: 3030,
            max_clipboard_items: 1000,
            db_path,
        }
    }
}

} // verus!
