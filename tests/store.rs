use chrono::Datelike;
use pastery::date::{CaptureDate, EntryKey};
use pastery::store::ClipboardData;

fn day(year: i32, month: u32, day: u32) -> CaptureDate {
    CaptureDate::new(year, month, day)
}

fn put(store: &mut ClipboardData, d: CaptureDate, sequence: u64, text: &str) {
    assert!(store.restore(EntryKey::new(d, sequence), text).is_some());
}

#[test]
fn test_read_existing_data() {
    let mut clipboard_data = ClipboardData::new(1000);
    let date_key = day(2025, 8, 10);
    put(&mut clipboard_data, date_key, 1, "Hello, World!");
    if let Some(content) = clipboard_data.read(&date_key, 1) {
        assert_eq!(content, "Hello, World!");
    } else {
        panic!("no data under 2025-08-10 / 1");
    }
}

#[test]
fn test_read_nonexistent_data() {
    let clipboard_data = ClipboardData::new(1000);
    let result = clipboard_data.read(&day(2024, 1, 1), 1);
    assert!(result.is_none());
}

#[test]
fn test_read_multiple_data() {
    let mut clipboard_data = ClipboardData::new(1000);
    put(&mut clipboard_data, day(2025, 8, 10), 1, "First text");
    put(&mut clipboard_data, day(2025, 8, 10), 2, "Second text");
    put(&mut clipboard_data, day(2025, 8, 11), 1, "Third text");

    assert_eq!(clipboard_data.read(&day(2025, 8, 10), 1), Some("First text".to_string()));
    assert_eq!(clipboard_data.read(&day(2025, 8, 10), 2), Some("Second text".to_string()));

    let date_data = clipboard_data.read_by_date(&day(2025, 8, 10));
    assert_eq!(date_data.len(), 2);
    assert_eq!(date_data[0], (1, "First text".to_string()));
    assert_eq!(date_data[1], (2, "Second text".to_string()));
}

#[test]
fn test_read_last() {
    let mut clipboard_data = ClipboardData::new(1000);
    put(&mut clipboard_data, day(2025, 8, 8), 2, "Text from Aug 8, seq 2");
    put(&mut clipboard_data, day(2025, 8, 10), 1, "Text from Aug 10, seq 1");
    put(&mut clipboard_data, day(2025, 8, 9), 1, "Text from Aug 9, seq 1");
    put(&mut clipboard_data, day(2025, 8, 10), 3, "Text from Aug 10, seq 3");
    put(&mut clipboard_data, day(2025, 8, 10), 2, "Text from Aug 10, seq 2");

    let recent_data = clipboard_data.read_last(3);
    assert_eq!(recent_data.len(), 3);

    assert_eq!(recent_data[0].0, day(2025, 8, 10));
    assert_eq!(recent_data[0].1, 3);
    assert_eq!(recent_data[0].2, "Text from Aug 10, seq 3");

    assert_eq!(recent_data[1].0, day(2025, 8, 10));
    assert_eq!(recent_data[1].1, 2);
    assert_eq!(recent_data[1].2, "Text from Aug 10, seq 2");

    assert_eq!(recent_data[2].0, day(2025, 8, 10));
    assert_eq!(recent_data[2].1, 1);
    assert_eq!(recent_data[2].2, "Text from Aug 10, seq 1");
}

#[test]
fn test_write_and_sequence() {
    let mut clipboard_data = ClipboardData::new(1000);
    let first = clipboard_data.write("First clipboard content").unwrap();
    clipboard_data.write("Second clipboard content").unwrap();
    clipboard_data.write("Third clipboard content").unwrap();

    let today = first.key.date;
    let today_data = clipboard_data.read_by_date(&today);
    assert_eq!(today_data.len(), 3);
    assert_eq!(today_data[0], (1, "First clipboard content".to_string()));
    assert_eq!(today_data[1], (2, "Second clipboard content".to_string()));
    assert_eq!(today_data[2], (3, "Third clipboard content".to_string()));
}

#[test]
fn test_max_items_cleanup() {
    let mut clipboard_data = ClipboardData::new(3);
    clipboard_data.write("First item").unwrap();
    clipboard_data.write("Second item").unwrap();
    clipboard_data.write("Third item").unwrap();
    clipboard_data.write("Fourth item").unwrap();
    clipboard_data.write("Fifth item").unwrap();

    let items = clipboard_data.get_clipboard_items(None);
    assert_eq!(items.len(), 3);
    assert_eq!(items[0].content, "Fifth item");
    assert_eq!(items[1].content, "Fourth item");
    assert_eq!(items[2].content, "Third item");
}

#[test]
fn write_stamps_the_local_date() {
    let mut store = ClipboardData::new(10);
    let receipt = store.write("now").unwrap();
    let now = chrono::Local::now().date_naive();
    assert_eq!(receipt.key.date, day(now.year(), now.month(), now.day()));
    assert!(receipt.key.date.is_valid());
}

#[test]
fn sequential_writes_number_one_to_n() {
    let mut store = ClipboardData::new(100);
    let d = day(2025, 3, 1);
    for (i, t) in ["a", "b", "c", "d"].iter().enumerate() {
        let r = store.write_on(d, t).unwrap();
        assert_eq!(r.key.sequence, i as u64 + 1);
        assert!(r.evicted.is_empty());
    }
    let got = store.read_by_date(&d);
    let seqs: Vec<u64> = got.iter().map(|p| p.0).collect();
    assert_eq!(seqs, vec![1, 2, 3, 4]);
    assert_eq!(got[3].1, "d");
}

#[test]
fn first_write_of_a_day_gets_sequence_one() {
    let mut store = ClipboardData::new(10);
    store.write_on(day(2025, 1, 1), "x").unwrap();
    store.write_on(day(2025, 1, 1), "y").unwrap();
    let r = store.write_on(day(2025, 1, 2), "z").unwrap();
    assert_eq!(r.key, EntryKey::new(day(2025, 1, 2), 1));
}

#[test]
fn listing_is_in_recency_order_with_numeric_sequences() {
    let mut store = ClipboardData::new(100);
    let d = day(2025, 8, 10);
    for _ in 0..12 {
        store.write_on(d, "t").unwrap();
    }
    store.write_on(day(2024, 12, 31), "older").unwrap();
    store.write_on(day(2025, 9, 1), "newer").unwrap();
    let items = store.get_clipboard_items(None);
    assert_eq!(items.len(), 14);
    assert_eq!(items[0].date, day(2025, 9, 1));
    assert_eq!(items[1].sequence, 12);
    assert_eq!(items[2].sequence, 11);
    assert_eq!(items[11].sequence, 2);
    assert_eq!(items[12].sequence, 1);
    assert_eq!(items[13].content, "older");
    let last = store.read_last(4);
    let pairs: Vec<(CaptureDate, u64)> = last.iter().map(|t| (t.0, t.1)).collect();
    assert_eq!(pairs, vec![(day(2025, 9, 1), 1), (d, 12), (d, 11), (d, 10)]);
    assert_eq!(store.get_clipboard_items(Some(2)).len(), 2);
    assert_eq!(store.read_last(100).len(), 14);
}

#[test]
fn eviction_keeps_the_most_recent() {
    let mut store = ClipboardData::new(3);
    let d = day(2025, 8, 10);
    for t in ["A", "B", "C"] {
        assert!(store.write_on(d, t).unwrap().evicted.is_empty());
    }
    let r = store.write_on(d, "D").unwrap();
    assert_eq!(r.evicted, vec![EntryKey::new(d, 1)]);
    let r = store.write_on(d, "E").unwrap();
    assert_eq!(r.evicted, vec![EntryKey::new(d, 2)]);
    let contents: Vec<String> = store.get_clipboard_items(None).into_iter().map(|i| i.content).collect();
    assert_eq!(contents, vec!["E".to_string(), "D".to_string(), "C".to_string()]);
    assert_eq!(store.len(), 3);
}

#[test]
fn eviction_scenario_three_of_five() {
    let mut store = ClipboardData::new(3);
    let d = day(2025, 8, 10);
    for t in ["A", "B", "C", "D", "E"] {
        store.write_on(d, t).unwrap();
    }
    let contents: Vec<String> = store.get_clipboard_items(None).into_iter().map(|i| i.content).collect();
    assert_eq!(contents, vec!["E".to_string(), "D".to_string(), "C".to_string()]);
}

#[test]
fn write_of_an_older_day_is_evicted_first() {
    let mut store = ClipboardData::new(2);
    store.write_on(day(2025, 8, 10), "new1").unwrap();
    store.write_on(day(2025, 8, 10), "new2").unwrap();
    let r = store.write_on(day(2025, 8, 9), "old").unwrap();
    assert_eq!(r.evicted, vec![EntryKey::new(day(2025, 8, 9), 1)]);
    assert_eq!(store.read(&day(2025, 8, 9), 1), None);
}

#[test]
fn zero_capacity_keeps_nothing() {
    let mut store = ClipboardData::new(0);
    let r = store.write_on(day(2025, 8, 10), "x").unwrap();
    assert_eq!(r.evicted, vec![EntryKey::new(day(2025, 8, 10), 1)]);
    assert_eq!(store.len(), 0);
    assert!(store.get_clipboard_items(None).is_empty());
    let r = store.write_on(day(2025, 8, 10), "y").unwrap();
    assert_eq!(r.key.sequence, 2);
    assert_eq!(store.issued(&day(2025, 8, 10)), 2);
}

#[test]
fn sequence_not_reissued_after_a_day_is_evicted() {
    let mut store = ClipboardData::new(1);
    let old_day = day(2025, 8, 9);
    assert_eq!(store.write_on(old_day, "a").unwrap().key.sequence, 1);
    store.write_on(day(2025, 8, 10), "b").unwrap();
    assert!(store.read_by_date(&old_day).is_empty());
    let r = store.write_on(old_day, "c").unwrap();
    assert_eq!(r.key.sequence, 2);
}

#[test]
fn restored_marks_raise_the_next_sequence() {
    let mut store = ClipboardData::new(10);
    let d = day(2025, 8, 10);
    store.restore_mark(d, 41);
    store.restore_mark(d, 5);
    assert_eq!(store.issued(&d), 41);
    assert_eq!(store.write_on(d, "x").unwrap().key.sequence, 42);
    assert_eq!(store.issued(&day(2025, 8, 11)), 0);
}

#[test]
fn read_of_far_future_day_on_empty_store_is_absent() {
    let store = ClipboardData::new(1000);
    assert_eq!(store.read(&day(2099, 1, 1), 1), None);
    assert!(store.read_by_date(&day(2099, 1, 1)).is_empty());
    assert!(store.read_last(5).is_empty());
}

#[test]
fn serialised_writers_get_a_contiguous_run() {
    let shared = std::sync::Mutex::new(ClipboardData::new(0));
    let d = day(2025, 8, 10);
    let a = shared.lock().unwrap().write_on(d, "from one").unwrap().key.sequence;
    let b = shared.lock().unwrap().write_on(d, "from two").unwrap().key.sequence;
    let mut seqs = vec![a, b];
    seqs.sort();
    assert_eq!(seqs, vec![1, 2]);
}

#[test]
fn restore_refuses_zero_and_duplicate_keys() {
    let mut store = ClipboardData::new(5);
    let d = day(2025, 8, 10);
    assert!(store.restore(EntryKey::new(d, 0), "zero").is_none());
    assert!(store.restore(EntryKey::new(d, 7), "seven").is_some());
    assert!(store.restore(EntryKey::new(d, 7), "again").is_none());
    assert_eq!(store.read(&d, 7), Some("seven".to_string()));
    assert!(store.contains_key(&EntryKey::new(d, 7)));
    let r = store.write_on(d, "next").unwrap();
    assert_eq!(r.key.sequence, 8);
}

#[test]
fn exhausted_day_refuses_writes() {
    let mut store = ClipboardData::new(5);
    let d = day(2025, 8, 10);
    assert!(store.restore(EntryKey::new(d, u64::MAX), "last").is_some());
    assert!(store.write_on(d, "more").is_none());
    assert_eq!(store.len(), 1);
    assert_eq!(store.write_on(day(2025, 8, 11), "other").unwrap().key.sequence, 1);
}

#[test]
fn date_order_and_validity() {
    assert!(day(2024, 12, 31).is_before(&day(2025, 1, 1)));
    assert!(day(2025, 1, 31).is_before(&day(2025, 2, 1)));
    assert!(!day(2025, 2, 1).is_before(&day(2025, 2, 1)));
    assert!(EntryKey::new(day(2025, 1, 1), 10).is_newer_than(&EntryKey::new(day(2025, 1, 1), 2)));
    assert!(EntryKey::new(day(2025, 1, 2), 1).is_newer_than(&EntryKey::new(day(2025, 1, 1), 99)));
    assert!(!day(2025, 13, 1).is_valid());
    assert!(!day(2025, 1, 0).is_valid());
    assert_eq!(ClipboardData::new(7).max_items(), 7);
}

#[test]
fn date_text_is_zero_padded() {
    assert_eq!(day(2025, 8, 10).to_text(), "2025-08-10");
    assert_eq!(day(2099, 1, 1).to_text(), "2099-01-01");
    assert_eq!(day(5, 12, 31).to_text(), "0005-12-31");
    assert_eq!(day(-12, 3, 4).to_text(), "-0012-03-04");
    assert_eq!(day(12345, 10, 20).to_text(), "+12345-10-20");
    assert_eq!(day(9999, 1, 1).to_text(), "9999-01-01");
}

#[test]
fn clipboard_data_serves_memos_beside_entries() {
    let mut store = ClipboardData::new(1);
    let d = day(2025, 8, 10);
    store.write_on(d, "one").unwrap();
    let x = store.add_memo("x").unwrap();
    let y = store.add_memo("y").unwrap();
    store.write_on(d, "two").unwrap();
    assert_eq!(store.len(), 1);
    let listed: Vec<(u64, String)> = store.get_memo_items(None).into_iter().map(|m| (m.sequence, m.memo)).collect();
    assert_eq!(listed, vec![(y, "y".to_string()), (x, "x".to_string())]);
    store.update_memo(x, "x2");
    assert_eq!(store.get_memo(x), Some("x2".to_string()));
    assert_eq!(store.get_memo_item(y).unwrap().memo, "y");
    store.delete_memo(y);
    assert_eq!(store.get_memo(y), None);
    assert_eq!(store.get_memo_items(Some(5)).len(), 1);
}
