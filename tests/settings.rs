use pastery::key_combination::Key;
use pastery::settings::{
    KeyBinding, Settings, combination_from_keys, create_key_combination_from_settings, key_binding_to_keys,
    keys_for_binding, main_key_for,
};

fn binding(ctrl: bool, alt: bool, shift: bool, key: &str) -> KeyBinding {
    KeyBinding { ctrl, alt, shift, key: key.to_string() }
}

#[test]
fn binding_keys_in_order() {
    assert_eq!(
        key_binding_to_keys(&binding(true, true, true, "x")),
        vec![Key::ControlLeft, Key::Alt, Key::ShiftLeft, Key::Letter('x')]
    );
    assert_eq!(key_binding_to_keys(&binding(false, false, false, "q")), vec![Key::Letter('q')]);
}

#[test]
fn binding_key_text_is_case_insensitive() {
    assert_eq!(key_binding_to_keys(&binding(true, false, false, "V")), vec![Key::ControlLeft, Key::Letter('v')]);
}

#[test]
fn unknown_main_key_falls_back_to_c() {
    assert_eq!(main_key_for("f1"), Key::Letter('c'));
    assert_eq!(main_key_for(""), Key::Letter('c'));
    assert_eq!(main_key_for("1"), Key::Letter('c'));
    assert_eq!(main_key_for("z"), Key::Letter('z'));
    assert_eq!(keys_for_binding(false, true, false, "enter"), vec![Key::Alt, Key::Letter('c')]);
}

#[test]
fn chord_uses_first_two_keys_or_control_c() {
    let c = combination_from_keys(&vec![Key::ControlLeft, Key::Alt, Key::Letter('k')]);
    assert!(c.contains(Key::ControlLeft) && c.contains(Key::Alt) && !c.contains(Key::Letter('k')));
    let d = combination_from_keys(&vec![Key::Letter('k')]);
    assert!(d.contains(Key::ControlLeft) && d.contains(Key::Letter('c')) && !d.contains(Key::Letter('k')));
    let e = create_key_combination_from_settings(&binding(false, false, true, "P"));
    assert!(e.contains(Key::ShiftLeft) && e.contains(Key::Letter('p')));
}

#[test]
fn default_settings_values() {
    let s = Settings::default_with_path("/tmp/clip.db".to_string());
    assert!(s.copy_key.ctrl && !s.copy_key.alt && !s.copy_key.shift);
    assert_eq!(s.copy_key.key, "c");
    assert_eq!(s.paste_key.key, "v");
    assert_eq!(s.server_port, 3030);
    assert_eq!(s.max_clipboard_items, 1000);
    assert_eq!(s.db_path, "/tmp/clip.db");
}
