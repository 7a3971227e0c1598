use pastery::memo::MemoData;

#[test]
fn test_memo_item_functionality() {
    let mut memo_data = MemoData::new();
    let seq1 = memo_data.add_memo("Test memo 1").unwrap();
    let seq2 = memo_data.add_memo("Test memo 2").unwrap();
    let seq3 = memo_data.add_memo("Test memo 3").unwrap();

    let memo_item = memo_data.get_memo_item(seq1);
    assert!(memo_item.is_some());
    let memo_item = memo_item.unwrap();
    assert_eq!(memo_item.sequence, seq1);
    assert_eq!(memo_item.memo, "Test memo 1");

    let memo_items = memo_data.get_memo_items(None);
    assert_eq!(memo_items.len(), 3);
    assert_eq!(memo_items[0].sequence, seq3);
    assert_eq!(memo_items[0].memo, "Test memo 3");
    assert_eq!(memo_items[1].sequence, seq2);
    assert_eq!(memo_items[1].memo, "Test memo 2");
    assert_eq!(memo_items[2].sequence, seq1);
    assert_eq!(memo_items[2].memo, "Test memo 1");

    let limited_memo_items = memo_data.get_memo_items(Some(2));
    assert_eq!(limited_memo_items.len(), 2);
}

#[test]
fn two_memos_list_newest_first() {
    let mut memos = MemoData::new();
    let x = memos.add_memo("x").unwrap();
    let y = memos.add_memo("y").unwrap();
    assert_eq!(x, 1);
    assert_eq!(y, 2);
    let listed: Vec<(u64, String)> = memos.get_memo_items(None).into_iter().map(|m| (m.sequence, m.memo)).collect();
    assert_eq!(listed, vec![(y, "y".to_string()), (x, "x".to_string())]);
}

#[test]
fn update_overwrites_or_creates() {
    let mut memos = MemoData::new();
    let a = memos.add_memo("first").unwrap();
    memos.update_memo(a, "replaced");
    assert_eq!(memos.get_memo(a), Some("replaced".to_string()));
    assert_eq!(memos.len(), 1);
    memos.update_memo(10, "ten");
    assert_eq!(memos.get_memo(10), Some("ten".to_string()));
    memos.update_memo(5, "five");
    let seqs: Vec<u64> = memos.get_memo_items(None).iter().map(|m| m.sequence).collect();
    assert_eq!(seqs, vec![10, 5, 1]);
    assert_eq!(memos.add_memo("next"), Some(11));
}

#[test]
fn delete_removes_and_ignores_absent() {
    let mut memos = MemoData::new();
    let a = memos.add_memo("a").unwrap();
    let b = memos.add_memo("b").unwrap();
    memos.delete_memo(a);
    assert_eq!(memos.get_memo(a), None);
    assert!(memos.get_memo_item(a).is_none());
    memos.delete_memo(99);
    assert_eq!(memos.len(), 1);
    assert_eq!(memos.get_memo(b), Some("b".to_string()));
    memos.delete_memo(b);
    assert_eq!(memos.add_memo("again"), Some(1));
}

#[test]
fn exhausted_memo_namespace_refuses_add() {
    let mut memos = MemoData::new();
    memos.update_memo(u64::MAX, "top");
    assert_eq!(memos.add_memo("more"), None);
    assert_eq!(memos.len(), 1);
}
