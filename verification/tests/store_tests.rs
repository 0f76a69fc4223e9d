use tikv_bridge::range::to_bound_range;
use tikv_bridge::store::{KvPair, Store, StoreError};

fn k(s: &[u8]) -> Vec<u8> {
    s.to_vec()
}

#[test]
fn put_commit_snapshot_get() {
    // put(key=b"k1", value=b"v1") on a transaction, then commit(), then a
    // fresh snapshot get(b"k1") returns Some(b"v1").
    let mut store = Store::new();
    let mut txn = store.begin(false);
    txn.put(k(b"k1"), k(b"v1"));
    let ts = txn.commit(&mut store);
    assert_eq!(ts, 1);
    let snap = store.snapshot();
    assert_eq!(snap.get(&k(b"k1")), Some(k(b"v1")));
    assert_eq!(snap.get(&k(b"k2")), None);
}

#[test]
fn scan_half_open_range_in_key_order() {
    // stored pairs {a:1, b:2, c:3}; scan [a, c) with limit 10 returns
    // exactly [(a,1), (b,2)] in key order.
    let mut store = Store::new();
    store.put(k(b"c"), k(b"3"));
    store.put(k(b"a"), k(b"1"));
    store.put(k(b"b"), k(b"2"));
    let range = to_bound_range(Some(k(b"a")), Some(k(b"c")), true, false);
    let got = store.scan(&range, 10);
    assert_eq!(got.len(), 2);
    assert_eq!(got[0].key, k(b"a"));
    assert_eq!(got[0].value, k(b"1"));
    assert_eq!(got[1].key, k(b"b"));
    assert_eq!(got[1].value, k(b"2"));
}

#[test]
fn scan_respects_limit_and_zero() {
    let mut store = Store::new();
    store.put(k(b"a"), k(b"1"));
    store.put(k(b"b"), k(b"2"));
    store.put(k(b"c"), k(b"3"));
    let all = to_bound_range(None, None, true, false);
    assert_eq!(store.scan(&all, 2).len(), 2);
    assert_eq!(store.scan(&all, 2)[1].key, k(b"b"));
    assert_eq!(store.scan(&all, 0).len(), 0);
    let keys = store.scan_keys(&all, 2);
    assert_eq!(keys, vec![k(b"a"), k(b"b")]);
}

#[test]
fn delete_range_unbounded_end_inclusive_start() {
    // delete_range over an unbounded-end range removes all keys at or after
    // start when the start is inclusive.
    let mut store = Store::new();
    store.put(k(b"a"), k(b"1"));
    store.put(k(b"b"), k(b"2"));
    store.put(k(b"c"), k(b"3"));
    let range = to_bound_range(Some(k(b"b")), None, true, false);
    store.delete_range(&range);
    assert_eq!(store.get(&k(b"a")), Some(k(b"1")));
    assert_eq!(store.get(&k(b"b")), None);
    assert_eq!(store.get(&k(b"c")), None);
}

#[test]
fn delete_range_unbounded_end_exclusive_start() {
    // with an exclusive start, the start key itself survives.
    let mut store = Store::new();
    store.put(k(b"a"), k(b"1"));
    store.put(k(b"b"), k(b"2"));
    store.put(k(b"c"), k(b"3"));
    let range = to_bound_range(Some(k(b"b")), None, false, false);
    store.delete_range(&range);
    assert_eq!(store.get(&k(b"a")), Some(k(b"1")));
    assert_eq!(store.get(&k(b"b")), Some(k(b"2")));
    assert_eq!(store.get(&k(b"c")), None);
}

#[test]
fn raw_put_get_delete() {
    let mut store = Store::new();
    assert_eq!(store.get(&k(b"k")), None);
    store.put(k(b"k"), k(b"v"));
    assert_eq!(store.get(&k(b"k")), Some(k(b"v")));
    assert!(store.key_exists(&k(b"k")));
    store.put(k(b"k"), k(b"w"));
    assert_eq!(store.get(&k(b"k")), Some(k(b"w")));
    store.delete(&k(b"k"));
    assert_eq!(store.get(&k(b"k")), None);
    assert!(!store.key_exists(&k(b"k")));
}

#[test]
fn batch_put_batch_get_batch_delete() {
    let mut store = Store::new();
    store.batch_put(vec![
        KvPair { key: k(b"b"), value: k(b"2") },
        KvPair { key: k(b"a"), value: k(b"1") },
    ]);
    // absent keys are omitted, present ones come in the order asked
    let got = store.batch_get(&vec![k(b"a"), k(b"x"), k(b"b")]);
    assert_eq!(got.len(), 2);
    assert_eq!(got[0].key, k(b"a"));
    assert_eq!(got[1].key, k(b"b"));
    store.batch_delete(vec![k(b"a"), k(b"b")]);
    assert_eq!(store.batch_get(&vec![k(b"a"), k(b"b")]).len(), 0);
}

#[test]
fn transaction_reads_its_own_writes() {
    let mut store = Store::new();
    store.put(k(b"k"), k(b"committed"));
    let mut txn = store.begin(false);
    assert_eq!(txn.get(&store, &k(b"k")), Some(k(b"committed")));
    txn.put(k(b"k"), k(b"staged"));
    assert_eq!(txn.get(&store, &k(b"k")), Some(k(b"staged")));
    txn.delete(k(b"k"));
    assert_eq!(txn.get(&store, &k(b"k")), None);
    assert!(!txn.key_exists(&store, &k(b"k")));
    // the store itself is untouched until commit
    assert_eq!(store.get(&k(b"k")), Some(k(b"committed")));
}

#[test]
fn transaction_scan_sees_staged_writes() {
    let mut store = Store::new();
    store.put(k(b"a"), k(b"1"));
    store.put(k(b"c"), k(b"3"));
    let mut txn = store.begin(false);
    txn.put(k(b"b"), k(b"2"));
    txn.delete(k(b"c"));
    let all = to_bound_range(None, None, true, false);
    let got = txn.scan(&store, &all, 10);
    assert_eq!(got.len(), 2);
    assert_eq!(got[0].key, k(b"a"));
    assert_eq!(got[1].key, k(b"b"));
    let keys = txn.scan_keys(&store, &all, 10);
    assert_eq!(keys, vec![k(b"a"), k(b"b")]);
}

#[test]
fn insert_fails_on_existing_key() {
    let mut store = Store::new();
    store.put(k(b"k"), k(b"v"));
    let mut txn = store.begin(false);
    let e = txn.insert(&store, k(b"k"), k(b"w"));
    assert_eq!(e, Err(StoreError::KeyExists));
    assert_eq!(StoreError::KeyExists.message(), "key exists");
    // a staged delete frees the key for insert
    txn.delete(k(b"k"));
    assert_eq!(txn.insert(&store, k(b"k"), k(b"w")), Ok(()));
    assert_eq!(txn.get(&store, &k(b"k")), Some(k(b"w")));
}

#[test]
fn rollback_discards_staged_writes() {
    let mut store = Store::new();
    store.put(k(b"k"), k(b"v"));
    let mut txn = store.begin(true);
    txn.put(k(b"k"), k(b"other"));
    txn.rollback();
    assert_eq!(store.get(&k(b"k")), Some(k(b"v")));
    assert_eq!(store.current_timestamp(), 0);
}

#[test]
fn commit_applies_in_staging_order() {
    let mut store = Store::new();
    let mut txn = store.begin(false);
    txn.put(k(b"k"), k(b"first"));
    txn.put(k(b"k"), k(b"second"));
    txn.delete(k(b"gone"));
    txn.commit(&mut store);
    assert_eq!(store.get(&k(b"k")), Some(k(b"second")));
    assert_eq!(store.current_timestamp(), 1);
}

#[test]
fn get_for_update_and_lock_keys() {
    let mut store = Store::new();
    store.put(k(b"k"), k(b"v"));
    let mut txn = store.begin(true);
    assert_eq!(txn.get_for_update(&store, &k(b"k")), Some(k(b"v")));
    txn.lock_keys(&vec![k(b"a"), k(b"b")]);
    let got = txn.batch_get_for_update(&store, &vec![k(b"k")]);
    assert_eq!(got.len(), 1);
    assert_eq!(got[0].value, k(b"v"));
}

#[test]
fn snapshot_is_frozen() {
    let mut store = Store::new();
    store.put(k(b"k"), k(b"v1"));
    let snap = store.snapshot();
    store.put(k(b"k"), k(b"v2"));
    assert_eq!(snap.get(&k(b"k")), Some(k(b"v1")));
    assert_eq!(store.get(&k(b"k")), Some(k(b"v2")));
    let all = to_bound_range(None, None, true, false);
    let got = snap.scan(&all, 10);
    assert_eq!(got.len(), 1);
    assert_eq!(got[0].value, k(b"v1"));
    assert!(snap.key_exists(&k(b"k")));
    assert_eq!(snap.batch_get(&vec![k(b"k")])[0].value, k(b"v1"));
    assert_eq!(snap.scan_keys(&all, 10), vec![k(b"k")]);
}

#[test]
fn keys_sort_lexicographically() {
    let mut store = Store::new();
    store.put(k(b"ab"), k(b"2"));
    store.put(k(b"a"), k(b"1"));
    store.put(k(b"\xff"), k(b"4"));
    store.put(k(b"b"), k(b"3"));
    let all = to_bound_range(None, None, true, false);
    let keys = store.scan_keys(&all, 10);
    assert_eq!(keys, vec![k(b"a"), k(b"ab"), k(b"b"), k(b"\xff")]);
}
