//! The decisions of the event pump: one raw key event in, the detectors updated, and the
//! action to perform out.
use crate::key_combination::{Key, KeyCombination, press_step, release_step};
use crate::settings::{
    Settings, binding_keys, chord_keys_of, create_key_combination_from_settings, lowercase_of,
};
use vstd::prelude::*;

verus! {

/// A raw keyboard event.
#[derive(Clone, Copy, Debug, PartialEq, Eq, Structural)]
pub enum KeyEvent {
    Press(Key),
    Release(Key),
}

/// What the caller must do after an event.
#[derive(Clone, Copy, Debug, PartialEq, Eq, Structural)]
pub enum PumpAction {
    /// Nothing.
    Idle,
    /// Read the system clipboard's text and write it to the store.
    Capture,
    /// Show the history: the history chord has just become active.
    ShowHistory,
}

/// The detectors of the two gestures: capture (`copy`) and history (`paste`).
#[derive(Debug)]
pub struct EventPump {
    pub copy: KeyCombination,
    pub paste: KeyCombination,
}

impl EventPump {
    pub open spec fn wf(&self) -> bool {
        self.copy.wf() && self.paste.wf()
    }

    pub fn new(copy: KeyCombination, paste: KeyCombination) -> (r: EventPump)
        ensures
            r.copy == copy,
            r.paste == paste,
    {
        EventPump { copy, paste }
    }

    /// The pump for the chords that `settings` configures.
    pub fn from_settings(settings: &Settings) -> (r: EventPump)
        ensures
            r.wf(),
            r.copy.chord_keys() == chord_keys_of(
                binding_keys(
                    settings.copy_key.ctrl,
                    settings.copy_key.alt,
                    settings.copy_key.shift,
                    lowercase_of(settings.copy_key.key@),
                ),
            ),
            r.paste.chord_keys() == chord_keys_of(
                binding_keys(
                    settings.paste_key.ctrl,
                    settings.paste_key.alt,
                    settings.paste_key.shift,
                    lowercase_of(settings.paste_key.key@),
                ),
            ),
            forall|i: int| 0 <= i < r.copy.pressed().len() ==> !(#[trigger] r.copy.pressed()[i]),
            forall|i: int| 0 <= i < r.paste.pressed().len() ==> !(#[trigger] r.paste.pressed()[i]),
            r.copy.count() == 0 && !r.copy.active(),
            r.paste.count() == 0 && !r.paste.active(),
    {
        EventPump {
            copy: create_key_combination_from_settings(&settings.copy_key),
            paste: create_key_combination_from_settings(&settings.paste_key),
        }
    }

    /// Handles one event. A release first asks whether the capture chord was active, so
    /// that "all keys held" is seen before the release clears it, and then releases the
    /// key in each chord; a press presses the key in each chord.
    pub fn handle(&mut self, event: KeyEvent) -> (r: PumpAction)
        requires
            old(self).wf(),
        ensures
            final(self).wf(),
            match event {
                KeyEvent::Release(k) => {
                    &&& release_step(old(self).copy, final(self).copy, k)
                    &&& release_step(old(self).paste, final(self).paste, k)
                    &&& r == if old(self).copy.chord_keys().contains(k) && old(self).copy.active() {
                        PumpAction::Capture
                    } else {
                        PumpAction::Idle
                    }
                },
                KeyEvent::Press(k) => {
                    &&& press_step(old(self).copy, final(self).copy, k)
                    &&& press_step(old(self).paste, final(self).paste, k)
                    &&& r == if !old(self).paste.active() && final(self).paste.active() {
                        PumpAction::ShowHistory
                    } else {
                        PumpAction::Idle
                    }
                },
            },
    {
        match event {
            KeyEvent::Release(k) => {
                self.paste.release_key(k);
                let capture = self.copy.contains(k) && self.copy.is_active();
                self.copy.release_key(k);
                if capture {
                    PumpAction::Capture
                } else {
                    PumpAction::Idle
                }
            },
            KeyEvent::Press(k) => {
                self.copy.press_key(k);
                let was_active = self.paste.is_active();
                self.paste.press_key(k);
                if !was_active && self.paste.is_active() {
                    PumpAction::ShowHistory
                } else {
                    PumpAction::Idle
                }
            },
        }
    }
}

} // verus!
