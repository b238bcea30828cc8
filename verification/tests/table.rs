use chevii::table::{Entry, NNUEEntry, TransTable, CAPACITY, MASK};

fn entry(zobrist: u64, score: i32) -> Entry {
    Entry { zobrist, score, depth_of_score: 3, depth_of_search: 5 }
}

#[test]
fn capacity_is_two_to_the_eighteenth() {
    assert_eq!(CAPACITY, 262144);
    assert_eq!(CAPACITY, 1 << 18);
    assert_eq!(MASK, 262143);
}

#[test]
fn new_table_holds_nothing() {
    let table = TransTable::new();
    for key in [0u64, 1, 262143, 262144, u64::MAX, 0xdead_beef_cafe_f00d] {
        assert_eq!(table.get(key), None);
        assert_eq!(table.get_nnue(key), None);
    }
}

#[test]
fn put_then_get_returns_the_entry() {
    let mut table = TransTable::new();
    let stored = entry(0x1234_5678_9abc_def0, -42);
    table.put(stored);
    assert_eq!(table.get(0x1234_5678_9abc_def0), Some(stored));
    assert_eq!(table.get_nnue(0x1234_5678_9abc_def0), None);
}

#[test]
fn get_checks_the_full_key() {
    let mut table = TransTable::new();
    let key = 0x0000_0000_0000_0007u64;
    // Same low eighteen bits, another key.
    let twin = key + (1 << 18);
    table.put(entry(key, 10));
    assert_eq!(table.get(twin), None);
    assert_eq!(table.get(key).map(|e| e.zobrist), Some(key));
}

#[test]
fn put_always_replaces() {
    let mut table = TransTable::new();
    let key = 0x0000_0000_0003_ffffu64;
    let twin = key + (5 << 18);
    table.put(Entry { zobrist: key, score: 1, depth_of_score: 9, depth_of_search: 9 });
    // A shallower entry for another position in the same slot still wins.
    table.put(Entry { zobrist: twin, score: 2, depth_of_score: 1, depth_of_search: 2 });
    assert_eq!(table.get(key), None);
    assert_eq!(
        table.get(twin),
        Some(Entry { zobrist: twin, score: 2, depth_of_score: 1, depth_of_search: 2 })
    );
    table.put(entry(twin, 3));
    assert_eq!(table.get(twin), Some(entry(twin, 3)));
}

#[test]
fn entries_in_other_slots_stay() {
    let mut table = TransTable::new();
    table.put(entry(1, 11));
    table.put(entry(2, 22));
    table.put(entry(u64::MAX, 33));
    assert_eq!(table.get(1), Some(entry(1, 11)));
    assert_eq!(table.get(2), Some(entry(2, 22)));
    assert_eq!(table.get(u64::MAX), Some(entry(u64::MAX, 33)));
}

#[test]
fn evaluation_cache_is_a_table_of_its_own() {
    let mut table = TransTable::new();
    let key = 0xfeed_0000_0000_0001u64;
    table.put_nnue(NNUEEntry { zobrist: key, score: 77 });
    assert_eq!(table.get_nnue(key), Some(NNUEEntry { zobrist: key, score: 77 }));
    assert_eq!(table.get(key), None);
    assert_eq!(table.get_nnue(key + (1 << 18)), None);
    table.put_nnue(NNUEEntry { zobrist: key + (1 << 18), score: -5 });
    assert_eq!(table.get_nnue(key), None);
    assert_eq!(
        table.get_nnue(key + (1 << 18)),
        Some(NNUEEntry { zobrist: key + (1 << 18), score: -5 })
    );
}
