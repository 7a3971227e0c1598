use pastery::key_combination::{Key, KeyCombination};

#[test]
fn press_both_activates_release_deactivates() {
    let mut c = KeyCombination::new(Key::ControlLeft, Key::Letter('c'));
    assert!(!c.is_active());
    c.press_key(Key::ControlLeft);
    assert!(!c.is_active());
    c.press_key(Key::Letter('c'));
    assert!(c.is_active());
    c.release_key(Key::ControlLeft);
    assert!(!c.is_active());
}

#[test]
fn repeated_press_counts_once() {
    let mut c = KeyCombination::new(Key::ControlLeft, Key::Letter('c'));
    c.press_key(Key::ControlLeft);
    assert_eq!(c.press_count(), 1);
    c.press_key(Key::ControlLeft);
    assert_eq!(c.press_count(), 1);
    assert!(!c.is_active());
}

#[test]
fn untracked_keys_are_ignored() {
    let mut c = KeyCombination::new(Key::ControlLeft, Key::Letter('v'));
    assert!(c.contains(Key::Letter('v')));
    assert!(!c.contains(Key::Alt));
    c.press_key(Key::Alt);
    c.release_key(Key::Other(7));
    assert_eq!(c.press_count(), 0);
}

#[test]
fn release_of_unpressed_key_still_lowers_count() {
    let mut c = KeyCombination::new(Key::ControlLeft, Key::Letter('c'));
    c.press_key(Key::ControlLeft);
    c.release_key(Key::Letter('c'));
    assert_eq!(c.press_count(), 0);
    c.release_key(Key::Letter('c'));
    assert_eq!(c.press_count(), 0);
}

#[test]
fn same_key_twice_is_a_one_key_chord() {
    let mut c = KeyCombination::new(Key::Alt, Key::Alt);
    c.press_key(Key::Alt);
    assert!(c.is_active());
    c.release_key(Key::Alt);
    assert!(!c.is_active());
}

#[test]
fn three_key_chord() {
    let mut c = KeyCombination::from_keys(vec![Key::ControlLeft, Key::ShiftLeft, Key::Letter('v')]).unwrap();
    c.press_key(Key::ControlLeft);
    c.press_key(Key::ShiftLeft);
    assert!(!c.is_active());
    c.press_key(Key::Letter('v'));
    assert!(c.is_active());
    c.release_key(Key::ShiftLeft);
    assert!(!c.is_active());
    assert!(KeyCombination::from_keys(vec![]).is_none());
    assert!(KeyCombination::from_keys(vec![Key::Alt, Key::Alt]).is_none());
}
