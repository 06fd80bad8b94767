use ipu_codegen::memo::Memo;

#[test]
fn memo_checks_full_keys_and_bounds_entries_even_on_hash_collisions() {
    let mut memo: Memo<u64, u64> = Memo::new();
    memo.insert(7, 1, 10, 2);
    memo.insert(7, 2, 20, 2);
    memo.insert(7, 3, 30, 2);
    assert_eq!(memo.get(7, &1).unwrap(), 10);
    assert_eq!(memo.get(7, &2).unwrap(), 20);
    assert!(memo.get(7, &3).is_none());
    assert_eq!(memo.stats(), (2, 2, 1));

    // Growth must retain the supplied fingerprints, even though they need
    // not equal a hash recomputed from the owned key.
    let mut memo: Memo<u64, u64> = Memo::new();
    for key in 0..1024 {
        memo.insert(key % 7, key, key * 3, 1024);
    }
    for key in 0..1024 {
        assert_eq!(memo.get(key % 7, &key).unwrap(), key * 3);
    }
}

#[test]
fn the_first_of_two_equal_keys_stays() {
    let mut memo: Memo<u64, u64> = Memo::new();
    memo.insert(3, 5, 50, 8);
    memo.insert(3, 5, 51, 8);
    assert_eq!(memo.get(3, &5), Some(50));
    assert_eq!(memo.stats().0, 1);
}

#[test]
fn keys_that_are_not_there_are_missed() {
    let mut memo: Memo<u64, u64> = Memo::new();
    memo.insert(3, 5, 50, 8);
    assert_eq!(memo.get(3, &6), None);
    assert_eq!(memo.stats(), (1, 0, 1));
    assert!(memo.has_capacity(2));
    assert!(!memo.has_capacity(1));
}
