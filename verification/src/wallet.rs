//! Wallet-level operations over the table store.
//!
//! Domain repository composing the table store and the encrypted-pair
//! codec: configuration, key pairs and public keys, transaction builders,
//! finalized transactions, and the TXO and asset-type caches.  Every
//! operation is a thin, verified composition of store calls; its contract
//! restates the store's effect for the concrete table.

use vstd::prelude::*;

use crate::crypto::{spec_decrypt, KeyPair, MixedPair, MixedPairView};
use crate::errors::{KvError, WithError};
use crate::model::{current, store_delete, store_set, with_table, SpecTables};
use crate::records::{
    AssetTypeEntry, AssetTypeName, CliConfig, CliConfigView, KeypairName, PublicKey, PubkeyName,
    TxnBuilderEntry, TxnBuilderName, TxnEntry, TxnEntryView, TxnMetadata, TxnName, TxnRecordView,
    TxoCacheEntry, TxoName, default_ledger_server_spec, default_sub_server_spec,
};
use crate::codec::{digits_string, spec_digits};
use crate::store::{listing_of, lookup_of, mutation_kept_store, HasTable, KVStore};

verus! {

use vstd::string::StringExecFns;

/// The configuration's view on first access: the defaults.
pub open spec fn default_config_view() -> CliConfigView {
    CliConfigView {
        submission_server: default_sub_server_spec(),
        ledger_server: default_ledger_server_spec(),
        open_count: 0,
    }
}

/// Outcome of a failed configuration mutation: the store was healed but
/// otherwise kept, and the mutation failed on the healed configuration
/// with the reported cause.
pub open spec fn config_mutation_failed<E, F: FnOnce(CliConfig) -> Result<CliConfig, E>>(
    pre: SpecTables,
    post: SpecTables,
    f: F,
    e: E,
) -> bool {
    let cur = current(pre, CliConfig::table_name_spec(), "config"@);
    &&& post == config_healed(pre)
    &&& exists|c0: CliConfig|
        {
            &&& (match cur {
                Some(s) => CliConfig::value_dec_of(s) == Some(c0@),
                None => c0@ == default_config_view(),
            })
            &&& #[trigger] call_ensures(f, (c0,), Err::<CliConfig, E>(e))
        }
}

/// Outcome of a failed metadata mutation: the store kept its state, the
/// nickname held a decodable finalized transaction, and the mutation
/// failed on its metadata with the reported cause.
pub open spec fn metadata_mutation_failed<E, F: FnOnce(TxnMetadata) -> Result<TxnMetadata, E>>(
    pre: SpecTables,
    post: SpecTables,
    k: Seq<char>,
    f: F,
    e: E,
) -> bool {
    let cur = current(pre, TxnEntry::table_name_spec(), k);
    &&& post == pre
    &&& cur is Some
    &&& TxnEntry::value_dec_of(cur->0) is Some
    &&& exists|m0: TxnMetadata|
        m0@ == (TxnEntry::value_dec_of(cur->0)->0).metadata && #[trigger] call_ensures(
            f,
            (m0,),
            Err::<TxnMetadata, E>(e),
        )
}

/// The caller's action on a decrypted key pair failed with the reported
/// cause.
pub open spec fn keypair_action_failed<E, F: FnOnce(KeyPair) -> Result<(), E>>(
    f: F,
    e: E,
) -> bool {
    exists|kp: KeyPair| #[trigger] call_ensures(f, (kp,), Err::<(), E>(e))
}

/// The store after config self-healing: unchanged when a config row
/// exists, else with the default config written.
pub open spec fn config_healed(m: SpecTables) -> SpecTables {
    if current(m, CliConfig::table_name_spec(), "config"@) is Some {
        m
    } else {
        store_set(
            m,
            CliConfig::table_name_spec(),
            "config"@,
            CliConfig::value_enc_of(default_config_view()),
        )
    }
}

impl KVStore {
    /// The configuration record; self-healing, so the first read creates
    /// and persists the default instead of erroring.
    pub fn get_config(&mut self) -> (r: Result<CliConfig, KvError>)
        ensures
            ({
                let cur = current(old(self)@, CliConfig::table_name_spec(), "config"@);
                r is Ok ==> final(self)@ == config_healed(old(self)@) && (match cur {
                    Some(s) => CliConfig::value_dec_of(s) == Some((r->Ok_0)@),
                    None => (r->Ok_0)@ == default_config_view(),
                })
            }),
            (r is Err ==> final(self)@ == old(self)@ || final(self)@ == with_table(
                old(self)@,
                CliConfig::table_name_spec(),
            )),
    {
        let key = String::from_str("config");
        match self.get::<CliConfig>(&key) {
            Err(e) => Err(e),
            Ok(Some(c)) => Ok(c),
            Ok(None) => {
                let def = CliConfig::default();
                match self.set::<CliConfig>(&key, def) {
                    Err(e) => Err(e),
                    Ok(_) => Ok(CliConfig::default()),
                }
            },
        }
    }

    /// Applies the caller's mutation to the (healed) configuration and
    /// persists the result; nothing further is written when the mutation
    /// fails.
    pub fn update_config<E, F: FnOnce(CliConfig) -> Result<CliConfig, E>>(
        &mut self,
        f: F,
    ) -> (r: Result<(), WithError<E>>)
        requires
            forall|c: CliConfig| call_requires(f, (c,)),
        ensures
            ({
                let cur = current(old(self)@, CliConfig::table_name_spec(), "config"@);
                r is Ok ==> (exists|c0: CliConfig, c2: CliConfig|
                    {
                        &&& (match cur {
                            Some(s) => CliConfig::value_dec_of(s) == Some(c0@),
                            None => c0@ == default_config_view(),
                        })
                        &&& #[trigger] call_ensures(f, (c0,), Ok(c2))
                        &&& final(self)@ == store_set(
                            config_healed(old(self)@),
                            CliConfig::table_name_spec(),
                            "config"@,
                            CliConfig::value_enc_of(c2@),
                        )
                    })
            }),
            (r matches Err(WithError::MutationFailure(e)) ==> config_mutation_failed::<E, F>(
                old(self)@,
                final(self)@,
                f,
                e,
            )),
            (r matches Err(WithError::Store(err)) ==> final(self)@ == old(self)@ || final(self)@
                == with_table(old(self)@, CliConfig::table_name_spec()) || final(self)@
                == config_healed(old(self)@)),
    {
        let c0 = match self.get_config() {
            Err(e) => {
                return Err(WithError::Store(e));
            },
            Ok(c) => c,
        };
        let ghost gc0 = c0;
        let key = String::from_str("config");
        match f(c0) {
            Err(e) => {
                proof {
                    assert(call_ensures(f, (gc0,), Err::<CliConfig, E>(e)));
                    assert(config_mutation_failed::<E, F>(old(self)@, self@, f, e));
                }
                Err(WithError::MutationFailure(e))
            },
            Ok(c2) => {
                let ghost gc2 = c2;
                match self.set::<CliConfig>(&key, c2) {
                    Err(e) => Err(WithError::Store(e)),
                    Ok(_) => {
                        proof {
                            assert(call_ensures(f, (gc0,), Ok::<CliConfig, E>(gc2)));
                        }
                        Ok(())
                    },
                }
            },
        }
    }

    /// The nicknames of every stored key pair; no password is needed.
    pub fn get_keypairs(&self) -> (r: Result<Vec<KeypairName>, KvError>)
        ensures
            ({
                let t = MixedPair::table_name_spec();
                r is Ok ==> {
                    let out = r->Ok_0;
                    &&& (forall|i: int, j: int|
                        0 <= i < j < out@.len() ==> (#[trigger] out@[i])@ != (#[trigger] out@[j])@)
                    &&& (forall|i: int|
                        0 <= i < out@.len() ==> current(self@, t, (#[trigger] out@[i])@) is Some)
                    &&& (forall|k: Seq<char>|
                        current(self@, t, k) is Some ==> (exists|i: int|
                            0 <= i < out@.len() && (#[trigger] out@[i])@ == k))
                }
            }),
    {
        let entries = match self.get_all::<MixedPair>() {
            Err(e) => {
                return Err(e);
            },
            Ok(v) => v,
        };
        let ghost t = MixedPair::table_name_spec();
        let ghost ks = choose|ks: Seq<Seq<char>>|
            {
                &&& #[trigger] ks.len() == entries@.len()
                &&& ks.no_duplicates()
                &&& (forall|i: int|
                    0 <= i < entries@.len() ==> {
                        &&& current(self@, t, #[trigger] ks[i]) is Some
                        &&& MixedPair::key_dec_of(ks[i]) == Some(entries@[i].0@)
                        &&& MixedPair::value_dec_of(current(self@, t, ks[i])->0) == Some(
                            entries@[i].1@,
                        )
                    })
                &&& (forall|k: Seq<char>| current(self@, t, k) is Some ==> ks.contains(k))
            };
        proof {
            assert forall|i: int| 0 <= i < entries@.len() implies ks[i] == entries@[i].0@ by {
                assert(MixedPair::key_dec_of(ks[i]) == Some(entries@[i].0@));
            }
        }
        let mut out: Vec<KeypairName> = Vec::new();
        let mut i: usize = 0;
        while i < entries.len()
            invariant
                0 <= i <= entries@.len(),
                out@.len() == i,
                forall|a: int| 0 <= a < i ==> (#[trigger] out@[a])@ == entries@[a].0@,
            decreases entries@.len() - i,
        {
            out.push(KeypairName(entries[i].0.0.clone()));
            i = i + 1;
        }
        proof {
            assert forall|i: int| 0 <= i < out@.len() implies current(
                self@,
                t,
                (#[trigger] out@[i])@,
            ) is Some by {
                assert(current(self@, t, ks[i]) is Some);
            }
            assert forall|i: int, j: int| 0 <= i < j < out@.len() implies (#[trigger] out@[i])@
                != (#[trigger] out@[j])@ by {
                assert(ks[i] != ks[j]);
            }
            assert forall|k: Seq<char>| current(self@, t, k) is Some implies (exists|i: int|
                0 <= i < out@.len() && (#[trigger] out@[i])@ == k) by {
                assert(ks.contains(k));
                let i = choose|i: int| 0 <= i < ks.len() && ks[i] == k;
                assert(out@[i]@ == k);
            }
        }
        Ok(out)
    }

    /// The public half of a stored key pair, read from the cleartext side
    /// of its encrypted entry — no password is needed.
    pub fn get_keypair_pubkey(&self, k: &KeypairName) -> (r: Result<Option<PublicKey>, KvError>)
        ensures
            ({
                let cur = current(self@, MixedPair::table_name_spec(), k@);
                match r {
                    Ok(None) => cur is None,
                    Ok(Some(pk)) => cur is Some && MixedPair::value_dec_of(cur->0) is Some && pk@
                        == (MixedPair::value_dec_of(cur->0)->0).clear,
                    Err(e) => match e {
                        KvError::QueryPrepare => true,
                        KvError::StorageIo => true,
                        KvError::Deserialization { table, raw } => table@
                            == MixedPair::table_name_spec() && cur == Some(raw@)
                            && MixedPair::value_dec_of(raw@) is None,
                        _ => false,
                    },
                }
            }),
    {
        match self.get::<MixedPair>(k) {
            Err(e) => Err(e),
            Ok(None) => Ok(None),
            Ok(Some(pair)) => Ok(Some(pair.clear_no_verify())),
        }
    }

    /// The whole encrypted entry for a key pair, still ciphertext.
    pub fn get_encrypted_keypair(&self, k: &KeypairName) -> (r: Result<Option<MixedPair>, KvError>)
        ensures
            ({
                let cur = current(self@, MixedPair::table_name_spec(), k@);
                match r {
                    Ok(None) => cur is None,
                    Ok(Some(p)) => cur is Some && MixedPair::value_dec_of(cur->0) == Some(p@),
                    Err(e) => match e {
                        KvError::QueryPrepare => true,
                        KvError::StorageIo => true,
                        KvError::Deserialization { table, raw } => table@
                            == MixedPair::table_name_spec() && cur == Some(raw@)
                            && MixedPair::value_dec_of(raw@) is None,
                        _ => false,
                    },
                }
            }),
    {
        self.get::<MixedPair>(k)
    }

    /// Decrypts a stored key pair under the given password; fails with
    /// `MissingKey` when the nickname holds nothing and with
    /// `DecryptionFailure`, naming the nickname, on a wrong password or
    /// corrupted ciphertext.
    pub fn decrypt_keypair(&self, k: &KeypairName, password: &str) -> (r: Result<KeyPair, KvError>)
        ensures
            ({
                let cur = current(self@, MixedPair::table_name_spec(), k@);
                match r {
                    Ok(kp) => cur is Some && MixedPair::value_dec_of(cur->0) is Some
                        && spec_decrypt(
                        password@,
                        MixedPair::value_dec_of(cur->0)->0,
                    ) == Some(kp@),
                    Err(e) => match e {
                        KvError::MissingKey { key } => cur is None && key@ == k@,
                        KvError::DecryptionFailure { name } => name@ == k@ && cur is Some
                            && MixedPair::value_dec_of(cur->0) is Some && spec_decrypt(
                            password@,
                            MixedPair::value_dec_of(cur->0)->0,
                        ) is None,
                        KvError::QueryPrepare => true,
                        KvError::StorageIo => true,
                        KvError::Deserialization { table, raw } => table@
                            == MixedPair::table_name_spec() && cur == Some(raw@)
                            && MixedPair::value_dec_of(raw@) is None,
                        _ => false,
                    },
                }
            }),
    {
        let pair = match self.get::<MixedPair>(k) {
            Err(e) => {
                return Err(e);
            },
            Ok(None) => {
                return Err(KvError::MissingKey { key: k.0.clone() });
            },
            Ok(Some(p)) => p,
        };
        match pair.decrypt(password) {
            Ok(kp) => Ok(kp),
            Err(_) => Err(KvError::DecryptionFailure { name: k.0.clone() }),
        }
    }

    /// Loads and decrypts a key pair, then hands it to the caller's
    /// action; the action's own failure is reported wrapped.
    pub fn with_keypair<E, F: FnOnce(KeyPair) -> Result<(), E>>(
        &self,
        k: &KeypairName,
        password: &str,
        f: F,
    ) -> (r: Result<(), WithError<E>>)
        requires
            forall|kp: KeyPair| call_requires(f, (kp,)),
        ensures
            ({
                let cur = current(self@, MixedPair::table_name_spec(), k@);
                r is Ok ==> cur is Some && (exists|kp: KeyPair|
                    {
                        &&& MixedPair::value_dec_of(cur->0) is Some
                        &&& spec_decrypt(
                            password@,
                            MixedPair::value_dec_of(cur->0)->0,
                        ) == Some(kp@)
                        &&& #[trigger] call_ensures(f, (kp,), Ok::<(), E>(()))
                    })
            }),
            (r matches Err(WithError::MutationFailure(e)) ==> keypair_action_failed::<E, F>(
                f,
                e,
            )),
            ({
                let cur = current(self@, MixedPair::table_name_spec(), k@);
                r matches Err(WithError::Store(err)) ==> match err {
                    KvError::MissingKey { key } => cur is None && key@ == k@,
                    KvError::DecryptionFailure { name } => name@ == k@ && cur is Some
                        && MixedPair::value_dec_of(cur->0) is Some && spec_decrypt(
                        password@,
                        MixedPair::value_dec_of(cur->0)->0,
                    ) is None,
                    KvError::QueryPrepare => true,
                    KvError::StorageIo => true,
                    KvError::Deserialization { table, raw } => table@
                        == MixedPair::table_name_spec() && cur == Some(raw@)
                        && MixedPair::value_dec_of(raw@) is None,
                    _ => false,
                }
            }),
    {
        let kp = match self.decrypt_keypair(k, password) {
            Err(e) => {
                return Err(WithError::Store(e));
            },
            Ok(kp) => kp,
        };
        let ghost gkp = kp;
        let res = f(kp);
        let ghost gres = res;
        match res {
            Ok(u) => {
                proof {
                    assert(call_ensures(f, (gkp,), gres));
                    assert(gres == Ok::<(), E>(()));
                    assert(exists|kp: KeyPair| #[trigger] call_ensures(f, (kp,), Ok::<(), E>(())));
                }
                Ok(())
            },
            Err(e) => {
                proof {
                    assert(call_ensures(f, (gkp,), gres));
                    assert(gres == Err::<(), E>(e));
                    assert(keypair_action_failed::<E, F>(f, e));
                }
                Err(WithError::MutationFailure(e))
            },
        }
    }

    /// Removes a key pair's encrypted entry — only that entry: the bare
    /// public key stored under the same nickname, if any, is untouched.
    pub fn delete_keypair(&mut self, k: &KeypairName) -> (r: Result<(), KvError>)
        ensures
            r is Ok ==> final(self)@ == store_delete(
                old(self)@,
                MixedPair::table_name_spec(),
                k@,
            ),
            r is Err ==> final(self)@ == old(self)@,
    {
        match self.delete::<MixedPair>(k) {
            Ok(_) => Ok(()),
            Err(e) => Err(e),
        }
    }

    /// Packs a key pair under an already confirmed password and stores it.
    /// The stored pair carries the key pair's own public half in clear and
    /// provably decrypts back to the key pair under the same password.
    pub fn add_key_pair(&mut self, k: &KeypairName, kp: KeyPair, password: &str) -> (r: Result<
        (),
        KvError,
    >)
        ensures
            r is Ok ==> (exists|mp: MixedPairView|
                {
                    &&& mp.clear == kp@.public
                    &&& spec_decrypt(password@, mp) == Some(kp@)
                    &&& final(self)@ == store_set(
                        old(self)@,
                        MixedPair::table_name_spec(),
                        k@,
                        #[trigger] MixedPair::value_enc_of(mp),
                    )
                }),
            (r is Err ==> final(self)@ == old(self)@ || final(self)@ == with_table(
                old(self)@,
                MixedPair::table_name_spec(),
            )),
    {
        let public = PublicKey(kp.public.clone());
        let pair = match MixedPair::pack(&public, &kp, password) {
            Err(e) => {
                return Err(e);
            },
            Ok(p) => p,
        };
        let ghost gmp = pair@;
        match self.set::<MixedPair>(k, pair) {
            Ok(_) => {
                proof {
                    assert(self@ == store_set(
                        old(self)@,
                        MixedPair::table_name_spec(),
                        k@,
                        MixedPair::value_enc_of(gmp),
                    ));
                }
                Ok(())
            },
            Err(e) => Err(e),
        }
    }

    /// Stores an already packed key pair.
    pub fn add_encrypted_keypair(&mut self, k: &KeypairName, pair: MixedPair) -> (r: Result<
        (),
        KvError,
    >)
        ensures
            r is Ok ==> final(self)@ == store_set(
                old(self)@,
                MixedPair::table_name_spec(),
                k@,
                MixedPair::value_enc_of(pair@),
            ),
            (r is Err ==> final(self)@ == old(self)@ || final(self)@ == with_table(
                old(self)@,
                MixedPair::table_name_spec(),
            )),
    {
        match self.set::<MixedPair>(k, pair) {
            Ok(_) => Ok(()),
            Err(e) => Err(e),
        }
    }

    /// Does a key pair exist under this nickname?  Deleting a bare public
    /// key is refused by callers when it does — the asymmetry with
    /// `delete_keypair`, which performs no such check, is deliberate.
    pub fn exists_keypair(&self, nick: &str) -> (r: Result<bool, KvError>)
        ensures
            r is Ok ==> r->Ok_0 == (current(self@, MixedPair::table_name_spec(), nick@) is Some),
    {
        let key = KeypairName(nick.to_owned());
        match self.get::<MixedPair>(&key) {
            Err(e) => Err(e),
            Ok(opt) => Ok(opt.is_some()),
        }
    }

    /// Every stored bare public key beside its nickname.
    pub fn get_pubkeys(&self) -> (r: Result<Vec<(PubkeyName, PublicKey)>, KvError>)
        ensures
            r is Ok ==> listing_of::<PublicKey>(self@, (r->Ok_0)@),
    {
        let r = self.get_all::<PublicKey>();
        proof {
            if r is Ok {
                assert(listing_of::<PublicKey>(self@, (r->Ok_0)@));
            }
        }
        r
    }

    /// The public halves of the stored key pairs, read without any
    /// password from the cleartext sides of their encrypted entries.
    pub fn get_local_pubkeys(&self) -> (r: Result<Vec<(PubkeyName, PublicKey)>, KvError>)
        ensures
            ({
                let t = MixedPair::table_name_spec();
                r is Ok ==> {
                    let out = r->Ok_0;
                    &&& (forall|i: int, j: int|
                        0 <= i < j < out@.len() ==> (#[trigger] out@[i]).0@ != (
                        #[trigger] out@[j]).0@)
                    &&& (forall|i: int|
                        0 <= i < out@.len() ==> {
                            let cur = current(self@, t, (#[trigger] out@[i]).0@);
                            &&& cur is Some
                            &&& MixedPair::value_dec_of(cur->0) is Some
                            &&& out@[i].1@ == (MixedPair::value_dec_of(cur->0)->0).clear
                        })
                    &&& (forall|k: Seq<char>|
                        current(self@, t, k) is Some ==> (exists|i: int|
                            0 <= i < out@.len() && (#[trigger] out@[i]).0@ == k))
                }
            }),
    {
        let entries = match self.get_all::<MixedPair>() {
            Err(e) => {
                return Err(e);
            },
            Ok(v) => v,
        };
        let ghost t = MixedPair::table_name_spec();
        let ghost ks = choose|ks: Seq<Seq<char>>|
            {
                &&& #[trigger] ks.len() == entries@.len()
                &&& ks.no_duplicates()
                &&& (forall|i: int|
                    0 <= i < entries@.len() ==> {
                        &&& current(self@, t, #[trigger] ks[i]) is Some
                        &&& MixedPair::key_dec_of(ks[i]) == Some(entries@[i].0@)
                        &&& MixedPair::value_dec_of(current(self@, t, ks[i])->0) == Some(
                            entries@[i].1@,
                        )
                    })
                &&& (forall|k: Seq<char>| current(self@, t, k) is Some ==> ks.contains(k))
            };
        proof {
            assert forall|i: int| 0 <= i < entries@.len() implies ks[i] == entries@[i].0@ by {
                assert(MixedPair::key_dec_of(ks[i]) == Some(entries@[i].0@));
            }
        }
        let mut out: Vec<(PubkeyName, PublicKey)> = Vec::new();
        let mut i: usize = 0;
        while i < entries.len()
            invariant
                0 <= i <= entries@.len(),
                out@.len() == i,
                forall|a: int| 0 <= a < i ==> (#[trigger] out@[a]).0@ == entries@[a].0@,
                forall|a: int| 0 <= a < i ==> (#[trigger] out@[a]).1@ == entries@[a].1@.clear,
            decreases entries@.len() - i,
        {
            let name = PubkeyName(entries[i].0.0.clone());
            let pk = entries[i].1.clear_no_verify();
            out.push((name, pk));
            i = i + 1;
        }
        proof {
            assert forall|i: int| 0 <= i < out@.len() implies {
                let cur = current(self@, t, (#[trigger] out@[i]).0@);
                &&& cur is Some
                &&& MixedPair::value_dec_of(cur->0) is Some
                &&& out@[i].1@ == (MixedPair::value_dec_of(cur->0)->0).clear
            } by {
                assert(current(self@, t, ks[i]) is Some);
                assert(MixedPair::value_dec_of(current(self@, t, ks[i])->0) == Some(
                    entries@[i].1@,
                ));
            }
            assert forall|i: int, j: int| 0 <= i < j < out@.len() implies (#[trigger] out@[i]).0@
                != (#[trigger] out@[j]).0@ by {
                assert(ks[i] != ks[j]);
            }
            assert forall|k: Seq<char>| current(self@, t, k) is Some implies (exists|i: int|
                0 <= i < out@.len() && (#[trigger] out@[i]).0@ == k) by {
                assert(ks.contains(k));
                let i = choose|i: int| 0 <= i < ks.len() && ks[i] == k;
                assert(out@[i].0@ == k);
            }
        }
        Ok(out)
    }

    /// A bare public key by nickname.
    pub fn get_pubkey(&self, k: &PubkeyName) -> (r: Result<Option<PublicKey>, KvError>)
        ensures
            ({
                let cur = current(self@, PublicKey::table_name_spec(), k@);
                match r {
                    Ok(None) => cur is None,
                    Ok(Some(pk)) => cur == Some(pk@),
                    Err(e) => !(e is MissingKey) && !(e is DecryptionFailure),
                }
            }),
    {
        self.get::<PublicKey>(k)
    }

    /// Removes a bare public key unconditionally, returning what was
    /// stored: the raw primitive behind `delete_pubkey_checked`, which is
    /// the operation that honours the shadowing-keypair refusal.
    pub fn delete_pubkey(&mut self, k: &PubkeyName) -> (r: Result<Option<PublicKey>, KvError>)
        ensures
            ({
                let cur = current(old(self)@, PublicKey::table_name_spec(), k@);
                r is Ok ==> final(self)@ == store_delete(
                    old(self)@,
                    PublicKey::table_name_spec(),
                    k@,
                ) && (match r->Ok_0 {
                    None => cur is None,
                    Some(pk) => cur == Some(pk@),
                })
            }),
            r is Err ==> final(self)@ == old(self)@,
    {
        self.delete::<PublicKey>(k)
    }

    /// Deletes a bare public key, refusing while a key pair of the same
    /// nickname exists: that entry must be removed through
    /// `delete_keypair` first.  This check-and-refuse is the deliberate
    /// asymmetry with `delete_keypair`, which checks nothing; the raw
    /// `delete_pubkey` below stays as the unchecked primitive it pairs
    /// with.
    pub fn delete_pubkey_checked(&mut self, k: &PubkeyName) -> (r: Result<PubkeyDeletion, KvError>)
        ensures
            ({
                let shadowed = current(old(self)@, MixedPair::table_name_spec(), k@) is Some;
                let cur = current(old(self)@, PublicKey::table_name_spec(), k@);
                match r {
                    Ok(PubkeyDeletion::ShadowedByKeypair) => shadowed && final(self)@ == old(
                        self,
                    )@,
                    Ok(PubkeyDeletion::Absent) => !shadowed && cur is None && final(self)@
                        == store_delete(old(self)@, PublicKey::table_name_spec(), k@),
                    Ok(PubkeyDeletion::Deleted(pk)) => !shadowed && cur == Some(pk@)
                        && final(self)@ == store_delete(
                        old(self)@,
                        PublicKey::table_name_spec(),
                        k@,
                    ),
                    Err(_) => final(self)@ == old(self)@,
                }
            }),
    {
        let shadowed = match self.exists_keypair(k.0.as_str()) {
            Err(e) => {
                return Err(e);
            },
            Ok(b) => b,
        };
        if shadowed {
            return Ok(PubkeyDeletion::ShadowedByKeypair);
        }
        match self.delete::<PublicKey>(k) {
            Err(e) => Err(e),
            Ok(None) => Ok(PubkeyDeletion::Absent),
            Ok(Some(pk)) => Ok(PubkeyDeletion::Deleted(pk)),
        }
    }

    /// Stores a bare public key under a nickname.
    pub fn add_public_key(&mut self, k: &PubkeyName, pk: PublicKey) -> (r: Result<(), KvError>)
        ensures
            r is Ok ==> final(self)@ == store_set(
                old(self)@,
                PublicKey::table_name_spec(),
                k@,
                pk@,
            ),
            (r is Err ==> final(self)@ == old(self)@ || final(self)@ == with_table(
                old(self)@,
                PublicKey::table_name_spec(),
            )),
    {
        match self.set::<PublicKey>(k, pk) {
            Ok(_) => Ok(()),
            Err(e) => Err(e),
        }
    }

    /// Every finalized transaction beside its nickname.
    pub fn get_built_transactions(&self) -> (r: Result<Vec<(TxnName, TxnEntry)>, KvError>)
        ensures
            r is Ok ==> listing_of::<TxnEntry>(self@, (r->Ok_0)@),
    {
        let r = self.get_all::<TxnEntry>();
        proof {
            if r is Ok {
                assert(listing_of::<TxnEntry>(self@, (r->Ok_0)@));
            }
        }
        r
    }

    /// A finalized transaction by nickname.
    pub fn get_built_transaction(&self, k: &TxnName) -> (r: Result<Option<TxnEntry>, KvError>)
        ensures
            lookup_of::<TxnEntry>(self@, k@, r),
    {
        let r = self.get::<TxnEntry>(k);
        proof {
            assert(lookup_of::<TxnEntry>(self@, k@, r));
        }
        r
    }

    /// Finalizes a builder: removes it from the builder table and stores
    /// the transaction it accumulated, beside the given metadata, under
    /// the target nickname.  Fails with `MissingKey` when the source
    /// nickname is not currently building.
    ///
    /// The removal and the insertion are two separate engine statements
    /// with no enclosing transaction: a crash between them can lose the
    /// builder without producing the finalized row.  The contract below
    /// covers the completed call only.
    pub fn build_transaction(
        &mut self,
        k_orig: &TxnBuilderName,
        k_new: &TxnName,
        metadata: TxnMetadata,
    ) -> (r: Result<TxnEntry, KvError>)
        ensures
            ({
                let bt = TxnBuilderEntry::table_name_spec();
                let tt = TxnEntry::table_name_spec();
                let cur = current(old(self)@, bt, k_orig@);
                r is Ok ==> cur is Some && TxnBuilderEntry::value_dec_of(cur->0) is Some && {
                    let bv = TxnBuilderEntry::value_dec_of(cur->0)->0;
                    let ev = TxnEntryView {
                        txn: TxnRecordView { seq_id: bv.seq_id, operations: bv.operations },
                        metadata: metadata@,
                    };
                    &&& (r->Ok_0)@ == ev
                    &&& final(self)@ == store_set(
                        store_delete(old(self)@, bt, k_orig@),
                        tt,
                        k_new@,
                        TxnEntry::value_enc_of(ev),
                    )
                }
            }),
            (r matches Err(KvError::MissingKey { key: ks }) ==> current(
                old(self)@,
                TxnBuilderEntry::table_name_spec(),
                k_orig@,
            ) is None && final(self)@ == old(self)@ && ks@ == k_orig@),
            (r is Err ==> final(self)@ == old(self)@ || final(self)@ == store_delete(
                old(self)@,
                TxnBuilderEntry::table_name_spec(),
                k_orig@,
            ) || final(self)@ == with_table(
                store_delete(old(self)@, TxnBuilderEntry::table_name_spec(), k_orig@),
                TxnEntry::table_name_spec(),
            )),
    {
        let builder = match self.get::<TxnBuilderEntry>(k_orig) {
            Err(e) => {
                return Err(e);
            },
            Ok(None) => {
                return Err(KvError::MissingKey { key: k_orig.0.clone() });
            },
            Ok(Some(b)) => b,
        };
        match self.delete::<TxnBuilderEntry>(k_orig) {
            Err(e) => {
                return Err(e);
            },
            Ok(_) => (),
        };
        let stored = TxnEntry { txn: builder.transaction(), metadata: metadata.clone() };
        match self.set::<TxnEntry>(k_new, stored) {
            Err(e) => {
                return Err(e);
            },
            Ok(_) => (),
        };
        Ok(TxnEntry { txn: builder.transaction(), metadata })
    }

    /// Applies the caller's mutation to a finalized transaction's metadata
    /// and writes it back only on success — all-or-nothing per key, as
    /// with every read-modify-write of the store.
    pub fn update_txn_metadata<E, F: FnOnce(TxnMetadata) -> Result<TxnMetadata, E>>(
        &mut self,
        k: &TxnName,
        f: F,
    ) -> (r: Result<(), WithError<E>>)
        requires
            forall|m: TxnMetadata| call_requires(f, (m,)),
        ensures
            ({
                let cur = current(old(self)@, TxnEntry::table_name_spec(), k@);
                r is Ok ==> cur is Some && TxnEntry::value_dec_of(cur->0) is Some && (exists|
                    m0: TxnMetadata,
                    m2: TxnMetadata,
                |
                    {
                        &&& m0@ == (TxnEntry::value_dec_of(cur->0)->0).metadata
                        &&& #[trigger] call_ensures(f, (m0,), Ok(m2))
                        &&& final(self)@ == store_set(
                            old(self)@,
                            TxnEntry::table_name_spec(),
                            k@,
                            TxnEntry::value_enc_of(
                                TxnEntryView {
                                    txn: (TxnEntry::value_dec_of(cur->0)->0).txn,
                                    metadata: m2@,
                                },
                            ),
                        )
                    })
            }),
            (r matches Err(WithError::MutationFailure(e)) ==> metadata_mutation_failed::<E, F>(
                old(self)@,
                final(self)@,
                k@,
                f,
                e,
            )),
            ({
                let cur = current(old(self)@, TxnEntry::table_name_spec(), k@);
                r matches Err(WithError::Store(err)) ==> match err {
                    KvError::MissingKey { key: ks } => cur is None && final(self)@ == old(self)@
                        && ks@ == k@,
                    KvError::QueryPrepare => true,
                    KvError::StorageIo => true,
                    KvError::Deserialization { .. } => true,
                    _ => false,
                }
            }),
            (r is Err ==> final(self)@ == old(self)@ || final(self)@ == with_table(
                old(self)@,
                TxnEntry::table_name_spec(),
            )),
    {
        let entry = match self.get::<TxnEntry>(k) {
            Err(e) => {
                return Err(WithError::Store(e));
            },
            Ok(None) => {
                return Err(WithError::Store(KvError::MissingKey { key: k.0.clone() }));
            },
            Ok(Some(en)) => en,
        };
        let TxnEntry { txn, metadata } = entry;
        let ghost gm0 = metadata;
        let res = f(metadata);
        let ghost gres = res;
        match res {
            Err(e) => {
                proof {
                    assert(call_ensures(f, (gm0,), gres));
                    assert(gres == Err::<TxnMetadata, E>(e));
                    assert(metadata_mutation_failed::<E, F>(old(self)@, self@, k@, f, e));
                }
                Err(WithError::MutationFailure(e))
            },
            Ok(m2) => {
                let ghost gm2 = m2;
                match self.set::<TxnEntry>(k, TxnEntry { txn, metadata: m2 }) {
                    Err(e) => Err(WithError::Store(e)),
                    Ok(_) => {
                        proof {
                            assert(call_ensures(f, (gm0,), Ok::<TxnMetadata, E>(gm2)));
                        }
                        Ok(())
                    },
                }
            },
        }
    }

    /// Starts (or restarts) a builder under a nickname, replacing any
    /// prior builder stored there.
    pub fn prepare_transaction(&mut self, k: &TxnBuilderName, seq_id: u64) -> (r: Result<
        (),
        KvError,
    >)
        ensures
            r is Ok ==> final(self)@ == store_set(
                old(self)@,
                TxnBuilderEntry::table_name_spec(),
                k@,
                TxnBuilderEntry::value_enc_of(
                    crate::records::TxnBuilderEntryView {
                        seq_id,
                        operations: Seq::empty(),
                        signers: Seq::empty(),
                        new_asset_types: Seq::empty(),
                        new_txos: Seq::empty(),
                        spent_txos: Seq::empty(),
                    },
                ),
            ),
            (r is Err ==> final(self)@ == old(self)@ || final(self)@ == with_table(
                old(self)@,
                TxnBuilderEntry::table_name_spec(),
            )),
    {
        match self.set::<TxnBuilderEntry>(k, TxnBuilderEntry::from_seq_id(seq_id)) {
            Ok(_) => Ok(()),
            Err(e) => Err(e),
        }
    }

    /// Every in-progress builder beside its nickname.
    pub fn get_txn_builders(&self) -> (r: Result<Vec<(TxnBuilderName, TxnBuilderEntry)>, KvError>)
        ensures
            r is Ok ==> listing_of::<TxnBuilderEntry>(self@, (r->Ok_0)@),
    {
        let r = self.get_all::<TxnBuilderEntry>();
        proof {
            if r is Ok {
                assert(listing_of::<TxnBuilderEntry>(self@, (r->Ok_0)@));
            }
        }
        r
    }

    /// An in-progress builder by nickname.
    pub fn get_txn_builder(&self, k: &TxnBuilderName) -> (r: Result<
        Option<TxnBuilderEntry>,
        KvError,
    >)
        ensures
            lookup_of::<TxnBuilderEntry>(self@, k@, r),
    {
        let r = self.get::<TxnBuilderEntry>(k);
        proof {
            assert(lookup_of::<TxnBuilderEntry>(self@, k@, r));
        }
        r
    }

    /// Applies the caller's mutation to a builder and writes it back only
    /// on success; a builder must already exist under the nickname.
    pub fn with_txn_builder<E, F: FnOnce(TxnBuilderEntry) -> Result<TxnBuilderEntry, E>>(
        &mut self,
        k: &TxnBuilderName,
        f: F,
    ) -> (r: Result<(), WithError<E>>)
        requires
            forall|v: TxnBuilderEntry| call_requires(f, (v,)),
        ensures
            ({
                let cur = current(old(self)@, TxnBuilderEntry::table_name_spec(), k@);
                r is Ok ==> cur is Some && (exists|v: TxnBuilderEntry, v2: TxnBuilderEntry|
                    {
                        &&& TxnBuilderEntry::value_dec_of(cur->0) == Some(v@)
                        &&& #[trigger] call_ensures(f, (v,), Ok(v2))
                        &&& final(self)@ == store_set(
                            old(self)@,
                            TxnBuilderEntry::table_name_spec(),
                            k@,
                            TxnBuilderEntry::value_enc_of(v2@),
                        )
                    })
            }),
            (r matches Err(WithError::MutationFailure(e)) ==> mutation_kept_store::<
                TxnBuilderEntry,
                E,
                F,
            >(old(self)@, final(self)@, k@, f, e)),
            ({
                let cur = current(old(self)@, TxnBuilderEntry::table_name_spec(), k@);
                r matches Err(WithError::Store(err)) ==> match err {
                    KvError::MissingKey { key: ks } => cur is None && final(self)@ == old(self)@
                        && ks@ == k@,
                    KvError::QueryPrepare => true,
                    KvError::StorageIo => true,
                    KvError::Deserialization { .. } => true,
                    _ => false,
                }
            }),
            (r is Err ==> final(self)@ == old(self)@ || final(self)@ == with_table(
                old(self)@,
                TxnBuilderEntry::table_name_spec(),
            )),
    {
        self.with::<TxnBuilderEntry, E, F>(k, f)
    }

    /// Every cached transaction output beside its nickname.
    pub fn get_cached_txos(&self) -> (r: Result<Vec<(TxoName, TxoCacheEntry)>, KvError>)
        ensures
            r is Ok ==> listing_of::<TxoCacheEntry>(self@, (r->Ok_0)@),
    {
        let r = self.get_all::<TxoCacheEntry>();
        proof {
            if r is Ok {
                assert(listing_of::<TxoCacheEntry>(self@, (r->Ok_0)@));
            }
        }
        r
    }

    /// A cached transaction output by nickname.
    pub fn get_cached_txo(&self, k: &TxoName) -> (r: Result<Option<TxoCacheEntry>, KvError>)
        ensures
            lookup_of::<TxoCacheEntry>(self@, k@, r),
    {
        let r = self.get::<TxoCacheEntry>(k);
        proof {
            assert(lookup_of::<TxoCacheEntry>(self@, k@, r));
        }
        r
    }

    /// Invalidates a cached output.
    pub fn delete_cached_txo(&mut self, k: &TxoName) -> (r: Result<(), KvError>)
        ensures
            r is Ok ==> final(self)@ == store_delete(
                old(self)@,
                TxoCacheEntry::table_name_spec(),
                k@,
            ),
            r is Err ==> final(self)@ == old(self)@,
    {
        match self.delete::<TxoCacheEntry>(k) {
            Ok(_) => Ok(()),
            Err(e) => Err(e),
        }
    }

    /// Caches an output under a nickname.
    pub fn cache_txo(&mut self, k: &TxoName, ent: TxoCacheEntry) -> (r: Result<(), KvError>)
        ensures
            r is Ok ==> final(self)@ == store_set(
                old(self)@,
                TxoCacheEntry::table_name_spec(),
                k@,
                TxoCacheEntry::value_enc_of(ent@),
            ),
            (r is Err ==> final(self)@ == old(self)@ || final(self)@ == with_table(
                old(self)@,
                TxoCacheEntry::table_name_spec(),
            )),
    {
        match self.set::<TxoCacheEntry>(k, ent) {
            Ok(_) => Ok(()),
            Err(e) => Err(e),
        }
    }

    /// Every cached asset definition beside its nickname.
    pub fn get_asset_types(&self) -> (r: Result<Vec<(AssetTypeName, AssetTypeEntry)>, KvError>)
        ensures
            r is Ok ==> listing_of::<AssetTypeEntry>(self@, (r->Ok_0)@),
    {
        let r = self.get_all::<AssetTypeEntry>();
        proof {
            if r is Ok {
                assert(listing_of::<AssetTypeEntry>(self@, (r->Ok_0)@));
            }
        }
        r
    }

    /// A cached asset definition by nickname.
    pub fn get_asset_type(&self, k: &AssetTypeName) -> (r: Result<Option<AssetTypeEntry>, KvError>)
        ensures
            lookup_of::<AssetTypeEntry>(self@, k@, r),
    {
        let r = self.get::<AssetTypeEntry>(k);
        proof {
            assert(lookup_of::<AssetTypeEntry>(self@, k@, r));
        }
        r
    }

    /// Applies the caller's mutation to a cached asset definition and
    /// writes it back only on success; the entry must already exist.
    pub fn update_asset_type<E, F: FnOnce(AssetTypeEntry) -> Result<AssetTypeEntry, E>>(
        &mut self,
        k: &AssetTypeName,
        f: F,
    ) -> (r: Result<(), WithError<E>>)
        requires
            forall|v: AssetTypeEntry| call_requires(f, (v,)),
        ensures
            ({
                let cur = current(old(self)@, AssetTypeEntry::table_name_spec(), k@);
                r is Ok ==> cur is Some && (exists|v: AssetTypeEntry, v2: AssetTypeEntry|
                    {
                        &&& AssetTypeEntry::value_dec_of(cur->0) == Some(v@)
                        &&& #[trigger] call_ensures(f, (v,), Ok(v2))
                        &&& final(self)@ == store_set(
                            old(self)@,
                            AssetTypeEntry::table_name_spec(),
                            k@,
                            AssetTypeEntry::value_enc_of(v2@),
                        )
                    })
            }),
            (r matches Err(WithError::MutationFailure(e)) ==> mutation_kept_store::<
                AssetTypeEntry,
                E,
                F,
            >(old(self)@, final(self)@, k@, f, e)),
            ({
                let cur = current(old(self)@, AssetTypeEntry::table_name_spec(), k@);
                r matches Err(WithError::Store(err)) ==> match err {
                    KvError::MissingKey { key: ks } => cur is None && final(self)@ == old(self)@
                        && ks@ == k@,
                    KvError::QueryPrepare => true,
                    KvError::StorageIo => true,
                    KvError::Deserialization { .. } => true,
                    _ => false,
                }
            }),
            (r is Err ==> final(self)@ == old(self)@ || final(self)@ == with_table(
                old(self)@,
                AssetTypeEntry::table_name_spec(),
            )),
    {
        self.with::<AssetTypeEntry, E, F>(k, f)
    }

    /// Removes a cached asset definition, returning what was stored.
    pub fn delete_asset_type(&mut self, k: &AssetTypeName) -> (r: Result<
        Option<AssetTypeEntry>,
        KvError,
    >)
        ensures
            ({
                let cur = current(old(self)@, AssetTypeEntry::table_name_spec(), k@);
                r is Ok ==> final(self)@ == store_delete(
                    old(self)@,
                    AssetTypeEntry::table_name_spec(),
                    k@,
                ) && (match r->Ok_0 {
                    None => cur is None,
                    Some(v) => cur is Some && AssetTypeEntry::value_dec_of(cur->0) == Some(v@),
                })
            }),
            r is Err ==> final(self)@ == old(self)@,
    {
        self.delete::<AssetTypeEntry>(k)
    }

    /// Caches an asset definition under a nickname.
    pub fn add_asset_type(&mut self, k: &AssetTypeName, ent: AssetTypeEntry) -> (r: Result<
        (),
        KvError,
    >)
        ensures
            r is Ok ==> final(self)@ == store_set(
                old(self)@,
                AssetTypeEntry::table_name_spec(),
                k@,
                AssetTypeEntry::value_enc_of(ent@),
            ),
            (r is Err ==> final(self)@ == old(self)@ || final(self)@ == with_table(
                old(self)@,
                AssetTypeEntry::table_name_spec(),
            )),
    {
        match self.set::<AssetTypeEntry>(k, ent) {
            Ok(_) => Ok(()),
            Err(e) => Err(e),
        }
    }
}

/// Outcome of a checked public-key deletion.
#[derive(Debug, PartialEq, Eq)]
pub enum PubkeyDeletion {
    /// The bare public key was removed; carries what was stored.
    Deleted(PublicKey),
    /// No bare public key of that nickname exists; every row of the
    /// nickname (there were none) is gone all the same.
    Absent,
    /// A key pair of the same nickname exists, so the deletion was
    /// refused and nothing changed.
    ShadowedByKeypair,
}

/// Yields fresh nicknames: the base itself first, then the base with the
/// delimiter and a counter appended.
pub struct FreshNamer {
    base: String,
    i: u64,
    delim: String,
}

/// Ghost mirror of `FreshNamer`.
pub struct FreshNamerView {
    pub base: Seq<char>,
    pub count: u64,
    pub delim: Seq<char>,
}

impl View for FreshNamer {
    type V = FreshNamerView;

    closed spec fn view(&self) -> FreshNamerView {
        FreshNamerView { base: self.base@, count: self.i, delim: self.delim@ }
    }
}

impl FreshNamer {
    /// A namer that has yielded nothing yet.
    pub fn new(base: String, delim: String) -> (r: FreshNamer)
        ensures
            r@ == (FreshNamerView { base: base@, count: 0, delim: delim@ }),
    {
        FreshNamer { base, i: 0, delim }
    }

    /// The next fresh name: the bare base first, then base, delimiter and
    /// a counter counting up from zero.
    pub fn next(&mut self) -> (r: Option<String>)
        requires
            old(self)@.count < 0xFFFF_FFFF_FFFF_FFFF,
        ensures
            final(self)@.base == old(self)@.base,
            final(self)@.delim == old(self)@.delim,
            final(self)@.count == old(self)@.count + 1,
            r is Some,
            (r->0)@ == if old(self)@.count == 0 {
                old(self)@.base
            } else {
                old(self)@.base + old(self)@.delim + spec_digits((old(self)@.count - 1) as nat)
            },
    {
        let ret = if self.i == 0 {
            self.base.clone()
        } else {
            let mut s = self.base.clone();
            s.append(self.delim.as_str());
            s.append(digits_string(self.i - 1).as_str());
            s
        };
        self.i = self.i + 1;
        Some(ret)
    }
}

} // verus!