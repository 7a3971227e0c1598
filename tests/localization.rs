use pastery::localization::{Language, Texts, truncate_string};

#[test]
fn texts_per_language() {
    let en = Texts::new(Language::English);
    assert_eq!(en.app_title, "Pastery Pop - Clipboard Manager");
    assert_eq!(en.refresh, "Refresh");
    assert_eq!(en.language, "Language");
    let ko = Texts::new(Language::Korean);
    assert_eq!(ko.refresh, "새로고침");
    assert_eq!(ko.memo, "메모");
    assert_eq!(Texts::korean().status, "상태");
    assert_eq!(Texts::english().retry, "Retry");
}

#[test]
fn language_default_and_label() {
    assert_eq!(Language::default(), Language::Korean);
    assert_eq!(Language::Korean.label(), "한국어");
    assert_eq!(Language::English.label(), "English");
}

#[test]
fn truncation() {
    assert_eq!(truncate_string("hello world", 5), "hello...");
    assert_eq!(truncate_string("hello", 5), "hello");
    assert_eq!(truncate_string("", 0), "");
    assert_eq!(truncate_string("클립보드 항목", 2), "클립...");
}
