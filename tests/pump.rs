use pastery::key_combination::{Key, KeyCombination};
use pastery::pump::{EventPump, KeyEvent, PumpAction};
use pastery::settings::Settings;

fn pump() -> EventPump {
    EventPump::new(
        KeyCombination::new(Key::ControlLeft, Key::Letter('c')),
        KeyCombination::new(Key::ControlLeft, Key::Letter('v')),
    )
}

#[test]
fn capture_on_release_after_chord() {
    let mut p = pump();
    assert_eq!(p.handle(KeyEvent::Press(Key::ControlLeft)), PumpAction::Idle);
    assert_eq!(p.handle(KeyEvent::Press(Key::Letter('c'))), PumpAction::Idle);
    assert_eq!(p.handle(KeyEvent::Release(Key::Letter('c'))), PumpAction::Capture);
    assert_eq!(p.handle(KeyEvent::Release(Key::ControlLeft)), PumpAction::Idle);
}

#[test]
fn show_history_when_paste_chord_becomes_active() {
    let mut p = pump();
    assert_eq!(p.handle(KeyEvent::Press(Key::ControlLeft)), PumpAction::Idle);
    assert_eq!(p.handle(KeyEvent::Press(Key::Letter('v'))), PumpAction::ShowHistory);
    assert_eq!(p.handle(KeyEvent::Press(Key::Letter('v'))), PumpAction::Idle);
    assert_eq!(p.handle(KeyEvent::Release(Key::Letter('v'))), PumpAction::Idle);
}

#[test]
fn no_capture_without_full_chord() {
    let mut p = pump();
    p.handle(KeyEvent::Press(Key::Letter('c')));
    assert_eq!(p.handle(KeyEvent::Release(Key::Letter('c'))), PumpAction::Idle);
    p.handle(KeyEvent::Press(Key::ControlLeft));
    p.handle(KeyEvent::Press(Key::Letter('c')));
    p.handle(KeyEvent::Release(Key::ControlLeft));
    assert_eq!(p.handle(KeyEvent::Release(Key::Letter('c'))), PumpAction::Idle);
}

#[test]
fn pump_from_default_settings() {
    let mut p = EventPump::from_settings(&Settings::default_with_path("clip.db".to_string()));
    assert!(p.copy.contains(Key::Letter('c')));
    assert!(p.paste.contains(Key::Letter('v')));
    p.handle(KeyEvent::Press(Key::ControlLeft));
    p.handle(KeyEvent::Press(Key::Letter('c')));
    assert_eq!(p.handle(KeyEvent::Release(Key::ControlLeft)), PumpAction::Capture);
}
