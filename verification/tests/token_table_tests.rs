use mioserver::TokenTable;

#[test]
fn insert_then_get_returns_the_value() {
    let mut t: TokenTable<u64> = TokenTable::new(1, 4);
    let tok = t.insert(77).unwrap();
    assert_eq!(tok, 1);
    assert_eq!(t.get(tok), Some(&77));
    assert_eq!(t.count(), 1);
}

#[test]
fn tokens_start_at_the_base() {
    let mut t: TokenTable<u64> = TokenTable::new(5, 3);
    let a = t.insert(1).unwrap();
    let b = t.insert(2).unwrap();
    assert_eq!(a, 5);
    assert_eq!(b, 6);
    assert_eq!(t.get(0), None);
    assert_eq!(t.get(4), None);
}

#[test]
fn full_table_rejects_without_side_effects() {
    let mut t: TokenTable<u64> = TokenTable::new(1, 2);
    let a = t.insert(10).unwrap();
    let b = t.insert(20).unwrap();
    let r = t.insert(30);
    assert_eq!(r, Err(30));
    assert_eq!(t.count(), 2);
    assert_eq!(t.get(a), Some(&10));
    assert_eq!(t.get(b), Some(&20));
}

#[test]
fn remove_returns_the_value_and_frees_the_slot() {
    let mut t: TokenTable<u64> = TokenTable::new(1, 2);
    let tok = t.insert(9).unwrap();
    assert_eq!(t.remove(tok), Some(9));
    assert_eq!(t.get(tok), None);
    assert_eq!(t.count(), 0);
}

#[test]
fn remove_is_idempotent() {
    let mut t: TokenTable<u64> = TokenTable::new(1, 2);
    let tok = t.insert(9).unwrap();
    assert_eq!(t.remove(tok), Some(9));
    assert_eq!(t.remove(tok), None);
    assert_eq!(t.remove(tok), None);
    assert_eq!(t.count(), 0);
}

#[test]
fn removing_an_unknown_token_is_a_no_op() {
    let mut t: TokenTable<u64> = TokenTable::new(1, 2);
    let tok = t.insert(9).unwrap();
    assert_eq!(t.remove(0), None);
    assert_eq!(t.remove(100), None);
    assert_eq!(t.get(tok), Some(&9));
    assert_eq!(t.count(), 1);
}

#[test]
fn freed_tokens_are_reused() {
    let mut t: TokenTable<u64> = TokenTable::new(1, 2);
    let a = t.insert(10).unwrap();
    let _b = t.insert(20).unwrap();
    t.remove(a);
    let c = t.insert(30).unwrap();
    assert_eq!(c, a);
    assert_eq!(t.get(c), Some(&30));
}

#[test]
fn put_refills_a_freed_slot() {
    let mut t: TokenTable<u64> = TokenTable::new(1, 2);
    let tok = t.insert(10).unwrap();
    let v = t.remove(tok).unwrap();
    t.put(tok, v + 1);
    assert_eq!(t.get(tok), Some(&11));
}

#[test]
fn remaining_tracks_free_slots() {
    let mut t: TokenTable<u64> = TokenTable::new(1, 3);
    assert_eq!(t.remaining(), 3);
    let a = t.insert(1).unwrap();
    assert_eq!(t.remaining(), 2);
    t.insert(2).unwrap();
    assert_eq!(t.remaining(), 1);
    t.remove(a);
    assert_eq!(t.remaining(), 2);
}
