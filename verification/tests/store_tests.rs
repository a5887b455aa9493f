//! Tests of the generic table store against the real embedded engine.

use wallet_kv::errors::{KvError, WithError};
use wallet_kv::records::{AssetTypeEntry, AssetTypeName, PublicKey, PubkeyName};
use wallet_kv::store::KVStore;

#[test]
fn smoke_test() {
    let mut kv = KVStore::open_in_memory().unwrap();
    // Try to create the table explicitly first
    kv.create_table::<PublicKey>().unwrap();
    // Try to set a KV pair
    let key1 = PubkeyName("test_keg".to_string());
    let value1 = PublicKey("test_value".to_string());
    assert!(kv.set(&key1, value1.clone()).unwrap().is_none());
    // Verify the results
    assert!(kv.get::<PublicKey>(&key1).unwrap() == Some(value1.clone()));
    // Update the value
    let value2 = PublicKey("Changed Value!".to_string());
    assert!(kv.set(&key1, value2.clone()).unwrap() == Some(value1));
    // Run house keeping to make sure we aren't deleting needed keys
    kv.run_housekeeping().unwrap();
    // Verify results
    assert!(kv.get::<PublicKey>(&key1).unwrap() == Some(value2));

    // Attempt to get an invalid key
    let invalid_key = PubkeyName("invalid key!".to_string());
    assert!(kv.get::<PublicKey>(&invalid_key).unwrap() == None);

    // Attempt the initial set/get test with a second type
    // This tests implicit table creation
    let key1 = AssetTypeName("test_key_b".to_string());
    let value1 = AssetTypeEntry {
        asset: "test_value_b".to_string(),
        issuer_nick: None,
    };
    // Run house keeping to make sure we aren't deleting needed keys
    kv.run_housekeeping().unwrap();
    assert!(kv.set(&key1, value1.clone()).unwrap().is_none());
    assert!(kv.get::<AssetTypeEntry>(&key1).unwrap() == Some(value1.clone()));
}

#[test]
fn get_all() {
    // Generate some K/V pairs
    let mut pairs: Vec<(PubkeyName, PublicKey)> = Vec::new();
    for i in 0..10 {
        let k = PubkeyName(format!("key-{}", i));
        let v = PublicKey(format!("value-{}", i));
        pairs.push((k, v));
    }
    // Open our db
    let mut kv = KVStore::open_in_memory().unwrap();
    for (k, v) in &pairs {
        // Insert an invalid value first, so we can test for any negative
        // interaction with updates
        kv.set(k, PublicKey("INVALID".to_string())).unwrap();
        // Insert the correct value
        kv.set(k, v.clone()).unwrap();
    }
    // Make sure things match up
    let mut listed = kv.get_all::<PublicKey>().unwrap();
    listed.sort_by(|a, b| a.0 .0.cmp(&b.0 .0));
    let mut expected = pairs.clone();
    expected.sort_by(|a, b| a.0 .0.cmp(&b.0 .0));
    assert!(listed == expected);
}

#[test]
fn with() {
    let mut kv = KVStore::open_in_memory().unwrap();
    let key1 = PubkeyName("key-1".to_string());
    let value1 = PublicKey("value-1".to_string());
    kv.set(&key1, value1.clone()).unwrap();
    // Mutate value1 inside the store
    kv.with::<PublicKey, (), _>(&key1, |mut x| {
        x.0 = "value-2".to_string();
        Ok(x)
    })
    .unwrap();
    assert!(kv.get::<PublicKey>(&key1).unwrap() == Some(PublicKey("value-2".to_string())));
}

#[test]
fn delete() {
    let mut kv = KVStore::open_in_memory().unwrap();
    // Add the same key a bunch of times
    let key1 = PubkeyName("key-1".to_string());
    for i in 0..10 {
        kv.set(&key1, PublicKey(format!("{}", i))).unwrap();
    }
    // Delete the key
    kv.delete::<PublicKey>(&key1).unwrap();
    // Make sure its gone
    assert_eq!(kv.get::<PublicKey>(&key1).unwrap(), None);
}

#[test]
fn get_on_fresh_store_is_none_not_error() {
    let kv = KVStore::open_in_memory().unwrap();
    let r = kv.get::<PublicKey>(&PubkeyName("anything".to_string()));
    assert!(matches!(r, Ok(None)));
}

#[test]
fn set_then_get_round_trip() {
    let mut kv = KVStore::open_in_memory().unwrap();
    let k = PubkeyName("alpha".to_string());
    let v = PublicKey("beta".to_string());
    kv.set(&k, v.clone()).unwrap();
    assert_eq!(kv.get::<PublicKey>(&k).unwrap(), Some(v));
}

#[test]
fn overwrite_returns_prior_and_get_sees_new() {
    let mut kv = KVStore::open_in_memory().unwrap();
    let k = PubkeyName("k".to_string());
    let v1 = PublicKey("v1".to_string());
    let v2 = PublicKey("v2".to_string());
    assert_eq!(kv.set(&k, v1.clone()).unwrap(), None);
    assert_eq!(kv.set(&k, v2.clone()).unwrap(), Some(v1));
    assert_eq!(kv.get::<PublicKey>(&k).unwrap(), Some(v2));
}

#[test]
fn with_on_absent_key_fails_missing_key_and_keeps_store() {
    let mut kv = KVStore::open_in_memory().unwrap();
    let k = PubkeyName("ghost".to_string());
    let r = kv.with::<PublicKey, (), _>(&k, |x| Ok(x));
    assert!(matches!(
        r,
        Err(WithError::Store(KvError::MissingKey { .. }))
    ));
    // absent before, absent after: storage unchanged
    assert_eq!(kv.get::<PublicKey>(&k).unwrap(), None);
}

#[test]
fn with_failing_mutation_keeps_stored_value() {
    let mut kv = KVStore::open_in_memory().unwrap();
    let k = PubkeyName("k".to_string());
    let v = PublicKey("original".to_string());
    kv.set(&k, v.clone()).unwrap();
    let r = kv.with::<PublicKey, &'static str, _>(&k, |_x| Err("mutation went wrong"));
    match r {
        Err(WithError::MutationFailure(cause)) => assert_eq!(cause, "mutation went wrong"),
        _ => panic!("expected a wrapped mutation failure"),
    }
    assert_eq!(kv.get::<PublicKey>(&k).unwrap(), Some(v));
}

#[test]
fn with_opt_creates_value_on_absent_key() {
    let mut kv = KVStore::open_in_memory().unwrap();
    let k = PubkeyName("fresh".to_string());
    kv.with_opt::<PublicKey, (), _>(&k, |cur| {
        assert!(cur.is_none());
        Ok(Some(PublicKey("made".to_string())))
    })
    .unwrap();
    assert_eq!(
        kv.get::<PublicKey>(&k).unwrap(),
        Some(PublicKey("made".to_string()))
    );
}

#[test]
fn with_opt_none_result_writes_nothing() {
    let mut kv = KVStore::open_in_memory().unwrap();
    let k = PubkeyName("untouched".to_string());
    kv.with_opt::<PublicKey, (), _>(&k, |cur| {
        assert!(cur.is_none());
        Ok(None)
    })
    .unwrap();
    assert_eq!(kv.get::<PublicKey>(&k).unwrap(), None);
}

#[test]
fn housekeeping_is_idempotent() {
    let mut kv = KVStore::open_in_memory().unwrap();
    for i in 0..5 {
        let k = PubkeyName(format!("k{}", i));
        kv.set(&k, PublicKey(format!("a{}", i))).unwrap();
        kv.set(&k, PublicKey(format!("b{}", i))).unwrap();
    }
    kv.run_housekeeping().unwrap();
    let mut once = kv.get_all::<PublicKey>().unwrap();
    once.sort_by(|a, b| a.0 .0.cmp(&b.0 .0));
    kv.run_housekeeping().unwrap();
    let mut twice = kv.get_all::<PublicKey>().unwrap();
    twice.sort_by(|a, b| a.0 .0.cmp(&b.0 .0));
    assert_eq!(once, twice);
    for i in 0..5 {
        let k = PubkeyName(format!("k{}", i));
        assert_eq!(
            kv.get::<PublicKey>(&k).unwrap(),
            Some(PublicKey(format!("b{}", i)))
        );
    }
}

#[test]
fn ten_distinct_keys_with_overwrites_listed_exactly() {
    let mut kv = KVStore::open_in_memory().unwrap();
    for i in 0..10 {
        let k = PubkeyName(format!("key-{}", i));
        kv.set(&k, PublicKey("stale".to_string())).unwrap();
        kv.set(&k, PublicKey(format!("current-{}", i))).unwrap();
    }
    let mut listed = kv.get_all::<PublicKey>().unwrap();
    assert_eq!(listed.len(), 10);
    listed.sort_by(|a, b| a.0 .0.cmp(&b.0 .0));
    for (k, v) in &listed {
        let i: u32 = k.0.trim_start_matches("key-").parse().unwrap();
        assert_eq!(v.0, format!("current-{}", i));
    }
}

#[test]
fn repeated_sets_then_delete_leaves_nothing() {
    let mut kv = KVStore::open_in_memory().unwrap();
    let k = PubkeyName("k".to_string());
    for i in 0..10 {
        kv.set(&k, PublicKey(format!("dup-{}", i))).unwrap();
    }
    let prior = kv.delete::<PublicKey>(&k).unwrap();
    assert_eq!(prior, Some(PublicKey("dup-9".to_string())));
    assert_eq!(kv.get::<PublicKey>(&k).unwrap(), None);
}

#[test]
fn open_on_unreachable_path_fails_storage_open() {
    let r = KVStore::open("/nonexistent-root-dir/no/such/file.sqlite");
    assert!(matches!(r, Err(KvError::StorageOpen)));
}
