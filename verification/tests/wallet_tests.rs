//! Tests of the wallet-level repository.

use wallet_kv::crypto::KeyPair;
use wallet_kv::errors::{KvError, WithError};
use wallet_kv::records::{
    AssetTypeEntry, AssetTypeName, KeypairName, PublicKey, PubkeyName, TxnBuilderName,
    TxnMetadata, TxnName, TxoCacheEntry, TxoName,
};
use wallet_kv::store::KVStore;
use wallet_kv::wallet::{FreshNamer, PubkeyDeletion};

#[test]
fn config_self_heals_with_defaults() {
    let mut kv = KVStore::open_in_memory().unwrap();
    let conf = kv.get_config().unwrap();
    assert_eq!(
        conf.submission_server,
        "https://testnet.findora.org/submit_server"
    );
    assert_eq!(
        conf.ledger_server,
        "https://testnet.findora.org/query_server"
    );
    assert_eq!(conf.open_count, 0);
    // the healed default is now persisted
    let again = kv.get_config().unwrap();
    assert_eq!(conf, again);
}

#[test]
fn update_config_persists_the_mutation() {
    let mut kv = KVStore::open_in_memory().unwrap();
    kv.update_config::<(), _>(|mut c| {
        c.open_count += 1;
        c.ledger_server = "http://localhost:8669".to_string();
        Ok(c)
    })
    .unwrap();
    let conf = kv.get_config().unwrap();
    assert_eq!(conf.open_count, 1);
    assert_eq!(conf.ledger_server, "http://localhost:8669");
}

#[test]
fn update_config_failure_keeps_config() {
    let mut kv = KVStore::open_in_memory().unwrap();
    let r = kv.update_config::<String, _>(|_c| Err("no thanks".to_string()));
    assert!(matches!(r, Err(WithError::MutationFailure(_))));
    let conf = kv.get_config().unwrap();
    assert_eq!(conf.open_count, 0);
}

#[test]
fn keypair_lifecycle() {
    let mut kv = KVStore::open_in_memory().unwrap();
    let name = KeypairName("alice".to_string());
    let kp = KeyPair {
        public: "alice-public".to_string(),
        secret: "alice-secret".to_string(),
    };
    kv.add_key_pair(&name, kp.clone(), "hunter2").unwrap();

    // the public half can be read without any password
    let pk = kv.get_keypair_pubkey(&name).unwrap();
    assert_eq!(pk, Some(PublicKey("alice-public".to_string())));

    // the right password recovers the secret
    let back = kv.decrypt_keypair(&name, "hunter2").unwrap();
    assert_eq!(back, kp);

    // a wrong password fails, naming the nickname
    match kv.decrypt_keypair(&name, "wrong") {
        Err(KvError::DecryptionFailure { name: n }) => assert_eq!(n, "alice"),
        _ => panic!("expected a decryption failure"),
    }

    assert!(kv.exists_keypair("alice").unwrap());
    assert!(!kv.exists_keypair("bob").unwrap());

    let names = kv.get_keypairs().unwrap();
    assert_eq!(names, vec![KeypairName("alice".to_string())]);

    let local = kv.get_local_pubkeys().unwrap();
    assert_eq!(
        local,
        vec![(
            PubkeyName("alice".to_string()),
            PublicKey("alice-public".to_string())
        )]
    );

    // deleting the keypair removes only the encrypted entry
    kv.add_public_key(
        &PubkeyName("alice".to_string()),
        PublicKey("alice-public".to_string()),
    )
    .unwrap();
    kv.delete_keypair(&name).unwrap();
    assert!(!kv.exists_keypair("alice").unwrap());
    assert_eq!(
        kv.get_pubkey(&PubkeyName("alice".to_string())).unwrap(),
        Some(PublicKey("alice-public".to_string()))
    );
}

#[test]
fn with_keypair_runs_the_action() {
    let mut kv = KVStore::open_in_memory().unwrap();
    let name = KeypairName("carol".to_string());
    let kp = KeyPair {
        public: "carol-public".to_string(),
        secret: "carol-secret".to_string(),
    };
    kv.add_key_pair(&name, kp, "pw").unwrap();
    kv.with_keypair::<(), _>(&name, "pw", |got| {
        assert_eq!(got.secret, "carol-secret");
        Ok(())
    })
    .unwrap();
    let r = kv.with_keypair::<&'static str, _>(&name, "pw", |_got| Err("refused"));
    assert!(matches!(r, Err(WithError::MutationFailure("refused"))));
}

#[test]
fn encrypted_keypair_round_trips_through_storage() {
    let mut kv = KVStore::open_in_memory().unwrap();
    let name = KeypairName("dave".to_string());
    let kp = KeyPair {
        public: "dave-public".to_string(),
        secret: "dave-secret".to_string(),
    };
    kv.add_key_pair(&name, kp.clone(), "pw").unwrap();
    let stored = kv.get_encrypted_keypair(&name).unwrap().unwrap();
    kv.delete_keypair(&name).unwrap();
    kv.add_encrypted_keypair(&name, stored).unwrap();
    assert_eq!(kv.decrypt_keypair(&name, "pw").unwrap(), kp);
}

#[test]
fn pubkey_store_and_delete() {
    let mut kv = KVStore::open_in_memory().unwrap();
    let n = PubkeyName("erin".to_string());
    assert_eq!(kv.get_pubkey(&n).unwrap(), None);
    kv.add_public_key(&n, PublicKey("erin-key".to_string()))
        .unwrap();
    assert_eq!(
        kv.get_pubkey(&n).unwrap(),
        Some(PublicKey("erin-key".to_string()))
    );
    let removed = kv.delete_pubkey(&n).unwrap();
    assert_eq!(removed, Some(PublicKey("erin-key".to_string())));
    assert_eq!(kv.get_pubkey(&n).unwrap(), None);
}

#[test]
fn checked_pubkey_deletion_refuses_while_keypair_exists() {
    let mut kv = KVStore::open_in_memory().unwrap();
    let nick = "frank";
    let kp = KeyPair {
        public: "frank-public".to_string(),
        secret: "frank-secret".to_string(),
    };
    kv.add_key_pair(&KeypairName(nick.to_string()), kp, "pw").unwrap();
    kv.add_public_key(
        &PubkeyName(nick.to_string()),
        PublicKey("frank-public".to_string()),
    )
    .unwrap();

    // shadowed by the keypair: refused, nothing removed
    let r = kv.delete_pubkey_checked(&PubkeyName(nick.to_string())).unwrap();
    assert_eq!(r, PubkeyDeletion::ShadowedByKeypair);
    assert_eq!(
        kv.get_pubkey(&PubkeyName(nick.to_string())).unwrap(),
        Some(PublicKey("frank-public".to_string()))
    );

    // after the keypair is gone, the checked deletion goes through
    kv.delete_keypair(&KeypairName(nick.to_string())).unwrap();
    let r = kv.delete_pubkey_checked(&PubkeyName(nick.to_string())).unwrap();
    assert_eq!(r, PubkeyDeletion::Deleted(PublicKey("frank-public".to_string())));
    assert_eq!(kv.get_pubkey(&PubkeyName(nick.to_string())).unwrap(), None);

    // and an absent key reports absence
    let r = kv.delete_pubkey_checked(&PubkeyName(nick.to_string())).unwrap();
    assert_eq!(r, PubkeyDeletion::Absent);
}

#[test]
fn pubkey_listing_names_every_stored_key() {
    let mut kv = KVStore::open_in_memory().unwrap();
    for i in 0..4 {
        kv.add_public_key(
            &PubkeyName(format!("who-{}", i)),
            PublicKey(format!("pk-{}", i)),
        )
        .unwrap();
    }
    let mut listed = kv.get_pubkeys().unwrap();
    assert_eq!(listed.len(), 4);
    listed.sort_by(|a, b| a.0 .0.cmp(&b.0 .0));
    for (i, (name, pk)) in listed.iter().enumerate() {
        assert_eq!(name.0, format!("who-{}", i));
        assert_eq!(pk.0, format!("pk-{}", i));
    }
}

#[test]
fn listing_is_most_recently_written_first() {
    let mut kv = KVStore::open_in_memory().unwrap();
    kv.add_public_key(&PubkeyName("first".to_string()), PublicKey("a".to_string()))
        .unwrap();
    kv.add_public_key(&PubkeyName("second".to_string()), PublicKey("b".to_string()))
        .unwrap();
    kv.add_public_key(&PubkeyName("third".to_string()), PublicKey("c".to_string()))
        .unwrap();
    // overwriting rewrites the key's rows in place, so "first" keeps its slot
    kv.add_public_key(&PubkeyName("first".to_string()), PublicKey("a2".to_string()))
        .unwrap();
    let listed = kv.get_pubkeys().unwrap();
    let names: Vec<&str> = listed.iter().map(|(n, _)| n.0.as_str()).collect();
    assert_eq!(names, vec!["third", "second", "first"]);
}

#[test]
fn builder_finalize_moves_between_tables() {
    let mut kv = KVStore::open_in_memory().unwrap();
    let b = TxnBuilderName("t1".to_string());
    let t = TxnName("final1".to_string());
    kv.prepare_transaction(&b, 42).unwrap();
    assert!(kv.get_txn_builder(&b).unwrap().is_some());

    let entry = kv.build_transaction(&b, &t, TxnMetadata::default()).unwrap();
    // the source nickname left the builder table
    assert!(kv.get_txn_builder(&b).unwrap().is_none());
    // the finalized transaction exists under the target, with unset status
    let stored = kv.get_built_transaction(&t).unwrap().unwrap();
    assert_eq!(stored, entry);
    assert_eq!(stored.txn.seq_id, 42);
    assert_eq!(stored.metadata.handle, None);
    assert_eq!(stored.metadata.status, None);
}

#[test]
fn finalize_without_builder_fails_missing_key() {
    let mut kv = KVStore::open_in_memory().unwrap();
    let r = kv.build_transaction(
        &TxnBuilderName("absent".to_string()),
        &TxnName("out".to_string()),
        TxnMetadata::default(),
    );
    assert!(matches!(r, Err(KvError::MissingKey { .. })));
    assert!(kv
        .get_built_transaction(&TxnName("out".to_string()))
        .unwrap()
        .is_none());
}

#[test]
fn builder_mutation_and_metadata_update() {
    let mut kv = KVStore::open_in_memory().unwrap();
    let b = TxnBuilderName("t2".to_string());
    kv.prepare_transaction(&b, 7).unwrap();
    kv.with_txn_builder::<(), _>(&b, |mut e| {
        e.operations.push("define-asset".to_string());
        e.signers.push("alice".to_string());
        Ok(e)
    })
    .unwrap();
    let e = kv.get_txn_builder(&b).unwrap().unwrap();
    assert_eq!(e.operations, vec!["define-asset".to_string()]);
    assert_eq!(e.signers, vec!["alice".to_string()]);

    let t = TxnName("done".to_string());
    kv.build_transaction(&b, &t, TxnMetadata::default()).unwrap();
    kv.update_txn_metadata::<(), _>(&t, |mut m| {
        m.handle = Some("handle-77".to_string());
        m.status = Some("committed".to_string());
        Ok(m)
    })
    .unwrap();
    let stored = kv.get_built_transaction(&t).unwrap().unwrap();
    assert_eq!(stored.txn.operations, vec!["define-asset".to_string()]);
    assert_eq!(stored.metadata.handle, Some("handle-77".to_string()));
    assert_eq!(stored.metadata.status, Some("committed".to_string()));
}

#[test]
fn txo_cache_round_trip() {
    let mut kv = KVStore::open_in_memory().unwrap();
    let n = TxoName("utxo-1".to_string());
    assert_eq!(kv.get_cached_txo(&n).unwrap(), None);
    let ent = TxoCacheEntry {
        sid: Some(12),
        record: "sealed-record".to_string(),
        owner_memo: Some("memo".to_string()),
        opened_record: None,
        unspent: true,
    };
    kv.cache_txo(&n, ent.clone()).unwrap();
    assert_eq!(kv.get_cached_txo(&n).unwrap(), Some(ent));
    let all = kv.get_cached_txos().unwrap();
    assert_eq!(all.len(), 1);
    kv.delete_cached_txo(&n).unwrap();
    assert_eq!(kv.get_cached_txo(&n).unwrap(), None);
}

#[test]
fn asset_type_cache_operations() {
    let mut kv = KVStore::open_in_memory().unwrap();
    let n = AssetTypeName("gold".to_string());
    let ent = AssetTypeEntry {
        asset: "gold-definition".to_string(),
        issuer_nick: None,
    };
    kv.add_asset_type(&n, ent.clone()).unwrap();
    assert_eq!(kv.get_asset_type(&n).unwrap(), Some(ent));
    kv.update_asset_type::<(), _>(&n, |mut e| {
        e.issuer_nick = Some("mint".to_string());
        Ok(e)
    })
    .unwrap();
    let got = kv.get_asset_type(&n).unwrap().unwrap();
    assert_eq!(got.issuer_nick, Some("mint".to_string()));
    let all = kv.get_asset_types().unwrap();
    assert_eq!(all.len(), 1);
    let removed = kv.delete_asset_type(&n).unwrap();
    assert_eq!(removed.map(|e| e.asset), Some("gold-definition".to_string()));
    assert_eq!(kv.get_asset_type(&n).unwrap(), None);
}

#[test]
fn update_asset_type_on_absent_key_is_missing_key() {
    let mut kv = KVStore::open_in_memory().unwrap();
    let r = kv.update_asset_type::<(), _>(&AssetTypeName("nope".to_string()), |e| Ok(e));
    assert!(matches!(
        r,
        Err(WithError::Store(KvError::MissingKey { .. }))
    ));
}

#[test]
fn builder_with_nested_entries_survives_storage() {
    let mut kv = KVStore::open_in_memory().unwrap();
    let b = TxnBuilderName("rich".to_string());
    kv.prepare_transaction(&b, 9).unwrap();
    kv.with_txn_builder::<(), _>(&b, |mut e| {
        e.new_asset_types.push((
            AssetTypeName("gold".to_string()),
            AssetTypeEntry {
                asset: "gold-def".to_string(),
                issuer_nick: Some("mint".to_string()),
            },
        ));
        e.new_txos.push((
            TxoName("out-0".to_string()),
            TxoCacheEntry {
                sid: None,
                record: "fresh-output".to_string(),
                owner_memo: None,
                opened_record: Some("opened".to_string()),
                unspent: true,
            },
        ));
        e.spent_txos.push("old-utxo".to_string());
        Ok(e)
    })
    .unwrap();
    let e = kv.get_txn_builder(&b).unwrap().unwrap();
    assert_eq!(e.new_asset_types.len(), 1);
    assert_eq!(e.new_asset_types[0].0, AssetTypeName("gold".to_string()));
    assert_eq!(e.new_asset_types[0].1.issuer_nick, Some("mint".to_string()));
    assert_eq!(e.new_txos.len(), 1);
    assert_eq!(e.new_txos[0].0, TxoName("out-0".to_string()));
    assert_eq!(e.new_txos[0].1.opened_record, Some("opened".to_string()));
    assert!(e.new_txos[0].1.unspent);
    assert_eq!(e.spent_txos, vec!["old-utxo".to_string()]);
}

#[test]
fn error_descriptions_are_nonempty() {
    let missing = KvError::MissingKey {
        key: "k".to_string(),
    };
    assert!(!missing.describe().is_empty());
    assert!(!KvError::StorageOpen.describe().is_empty());
    assert!(!KvError::PasswordRetriesExhausted.describe().is_empty());
}

#[test]
fn fresh_namer_counts_up() {
    let mut namer = FreshNamer::new("txn".to_string(), ".".to_string());
    assert_eq!(namer.next(), Some("txn".to_string()));
    assert_eq!(namer.next(), Some("txn.0".to_string()));
    assert_eq!(namer.next(), Some("txn.1".to_string()));
}
