use notify_broker::store::Store;

#[test]
fn push_tail_assigns_increasing_keys() {
    let mut s: Store<u64> = Store::new();
    assert_eq!(s.push_tail(10), 1);
    assert_eq!(s.push_tail(20), 2);
    assert_eq!(s.push_tail(30), 3);
    assert_eq!(s.len(), 3);
    assert_eq!(s.nth_item(0), Some(&10));
    assert_eq!(s.nth_item(1), Some(&20));
    assert_eq!(s.nth_item(2), Some(&30));
}

#[test]
fn push_head_prepends() {
    let mut s: Store<u64> = Store::new();
    assert_eq!(s.push_head(10), 1);
    assert_eq!(s.push_head(20), 2);
    assert_eq!(s.push_tail(30), 3);
    assert_eq!(s.nth_item(0), Some(&20));
    assert_eq!(s.nth_item(1), Some(&10));
    assert_eq!(s.nth_item(2), Some(&30));
}

#[test]
fn nth_item_out_of_range_is_none() {
    let mut s: Store<u64> = Store::new();
    assert_eq!(s.nth_item(0), None);
    s.push_tail(10);
    assert_eq!(s.nth_item(1), None);
    assert_eq!(s.nth_item(usize::MAX), None);
}

#[test]
fn nth_item_matches_head_walk_all_positions() {
    // The order in which positions are asked must not matter, whatever
    // hint state earlier calls and insertions left behind.
    let mut s: Store<u64> = Store::new();
    let mut expected: Vec<u64> = Vec::new();
    for v in [11, 22, 33, 44, 55] {
        s.push_tail(v);
        expected.push(v);
    }
    s.push_head(5);
    expected.insert(0, 5);
    s.remove(&3).unwrap(); // removes the entry holding 33
    expected.remove(3);
    for p in 0..expected.len() {
        assert_eq!(s.nth_item(p), Some(&expected[p]), "ascending at {p}");
    }
    for p in (0..expected.len()).rev() {
        assert_eq!(s.nth_item(p), Some(&expected[p]), "descending at {p}");
    }
    for p in [2, 0, 4, 1, 3, 2, 2] {
        assert_eq!(s.nth_item(p), Some(&expected[p]), "jumping at {p}");
    }
    assert_eq!(s.nth_item(expected.len()), None);
}

#[test]
fn replace_present_swaps_value() {
    let mut s: Store<u64> = Store::new();
    s.push_tail(10);
    let k = s.push_tail(20);
    s.push_tail(30);
    assert_eq!(s.replace(&k, 99), Some(20));
    assert_eq!(s.len(), 3);
    assert_eq!(s.nth_item(0), Some(&10));
    assert_eq!(s.nth_item(1), Some(&99));
    assert_eq!(s.nth_item(2), Some(&30));
}

#[test]
fn replace_absent_returns_none_and_changes_nothing() {
    let mut s: Store<u64> = Store::new();
    s.push_tail(10);
    s.push_tail(20);
    assert_eq!(s.replace(&99, 7), None);
    assert_eq!(s.len(), 2);
    assert_eq!(s.nth_item(0), Some(&10));
    assert_eq!(s.nth_item(1), Some(&20));
    // the freed-key stack is untouched too: the next key is still 3
    assert_eq!(s.push_tail(30), 3);
}

#[test]
fn remove_interior_splices_neighbours() {
    let mut s: Store<u64> = Store::new();
    s.push_tail(10);
    let mid = s.push_tail(20);
    s.push_tail(30);
    assert_eq!(s.remove(&mid), Ok(Some(20)));
    assert_eq!(s.len(), 2);
    assert_eq!(s.nth_item(0), Some(&10));
    assert_eq!(s.nth_item(1), Some(&30));
}

#[test]
fn remove_head_entry() {
    let mut s: Store<u64> = Store::new();
    let h = s.push_tail(10);
    s.push_tail(20);
    s.push_tail(30);
    assert_eq!(s.remove(&h), Ok(Some(10)));
    assert_eq!(s.nth_item(0), Some(&20));
    assert_eq!(s.nth_item(1), Some(&30));
}

#[test]
fn remove_tail_entry() {
    let mut s: Store<u64> = Store::new();
    s.push_tail(10);
    s.push_tail(20);
    let t = s.push_tail(30);
    assert_eq!(s.remove(&t), Ok(Some(30)));
    assert_eq!(s.nth_item(0), Some(&10));
    assert_eq!(s.nth_item(1), Some(&20));
    assert_eq!(s.nth_item(2), None);
}

#[test]
fn remove_sole_entry_empties_store() {
    let mut s: Store<u64> = Store::new();
    let k = s.push_tail(10);
    assert_eq!(s.remove(&k), Ok(Some(10)));
    assert_eq!(s.len(), 0);
    assert_eq!(s.nth_item(0), None);
}

#[test]
fn remove_absent_is_ok_none() {
    let mut s: Store<u64> = Store::new();
    s.push_tail(10);
    assert_eq!(s.remove(&99), Ok(None));
    assert_eq!(s.remove(&0), Ok(None));
    assert_eq!(s.len(), 1);
}

#[test]
fn freed_keys_reused_lifo() {
    let mut s: Store<u64> = Store::new();
    let k1 = s.push_tail(10);
    let k2 = s.push_tail(20);
    let k3 = s.push_tail(30);
    assert_eq!((k1, k2, k3), (1, 2, 3));
    s.remove(&k1).unwrap();
    s.remove(&k3).unwrap();
    // retired keys come back most recently retired first
    assert_eq!(s.push_tail(40), 3);
    assert_eq!(s.push_tail(50), 1);
    assert_eq!(s.push_tail(60), 4);
}

#[test]
fn next_id_pops_free_list_then_counter() {
    let mut s: Store<u64> = Store::new();
    assert_eq!(s.next_id(), 1);
    assert_eq!(s.next_id(), 2);
    // keys handed out but never made live are not recycled
    assert_eq!(s.push_tail(10), 3);
    assert_eq!(s.peek_next_id(), 4);
}

#[test]
fn live_keys_and_order_after_mixed_ops() {
    // Whatever sequence of pushes and removals ran, the live keys are
    // exactly the issued-minus-retired ones, each held once, and the
    // walk by position lists the values in list order.
    let mut s: Store<u64> = Store::new();
    let a = s.push_tail(1);
    let b = s.push_head(2);
    let c = s.push_tail(3);
    s.remove(&a).unwrap();
    let d = s.push_head(4);
    assert_eq!(d, a, "the freed key is reissued");
    let live = [b, c, d];
    for k in live {
        assert!(s.contains(k));
    }
    assert!(!s.contains(77));
    assert_eq!(s.len(), 3);
    assert_eq!(s.nth_item(0), Some(&4));
    assert_eq!(s.nth_item(1), Some(&2));
    assert_eq!(s.nth_item(2), Some(&3));
}

#[test]
fn lookup_near_last_insertion_uses_hint() {
    let mut s: Store<u64> = Store::new();
    for v in [10, 20, 30, 40] {
        s.push_tail(v);
    }
    // exact position of the last insertion, then both neighbours
    assert_eq!(s.nth_item(3), Some(&40));
    assert_eq!(s.nth_item(2), Some(&30));
    assert_eq!(s.nth_item(4), None);
    s.push_head(5);
    assert_eq!(s.nth_item(0), Some(&5));
    assert_eq!(s.nth_item(1), Some(&10));
}

#[test]
fn store_of_strings() {
    let mut s: Store<String> = Store::new();
    s.push_tail("first".to_string());
    s.push_tail("second".to_string());
    assert_eq!(s.nth_item(0).map(|v| v.as_str()), Some("first"));
    assert_eq!(s.nth_item(1).map(|v| v.as_str()), Some("second"));
}

#[test]
fn position_of_inverts_nth_item() {
    let mut s: Store<u64> = Store::new();
    let a = s.push_tail(10);
    let b = s.push_head(20);
    let c = s.push_tail(30);
    assert_eq!(s.position_of(b), Some(0));
    assert_eq!(s.position_of(a), Some(1));
    assert_eq!(s.position_of(c), Some(2));
    assert_eq!(s.position_of(99), None);
    s.remove(&a).unwrap();
    assert_eq!(s.position_of(a), None);
    assert_eq!(s.position_of(b), Some(0));
    assert_eq!(s.position_of(c), Some(1));
}

#[test]
fn contains_tracks_membership() {
    let mut s: Store<u64> = Store::new();
    assert!(!s.contains(1));
    let k = s.push_tail(10);
    assert!(s.contains(k));
    s.remove(&k).unwrap();
    assert!(!s.contains(k));
}
