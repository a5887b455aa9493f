//! The generic typed table store.
//!
//! Each storable type names its table and encodes its keys and values as
//! strings; the store keeps one table per type inside a single database
//! file and resolves duplicate rows in favour of the most recently written
//! one.

use vstd::prelude::*;

use crate::engine;
use crate::engine::{db_view, is_canonical_name};
use crate::errors::{KvError, WithError};
use crate::model::{
    current, current_in_rows, has_key, housekeep, last_per_key, lemma_current_after_delete,
    lemma_current_after_set, lemma_current_concat, lemma_current_is_last_value,
    lemma_current_some_iff_has_key, lemma_has_key_concat, lemma_last_key_pos_here,
    lemma_last_per_key_current, last_key_pos,
    lemma_with_table_current, store_delete, store_set, table_after_set, with_table, SpecTables,
};
use rusqlite::Connection;

verus! {

/// A type that lives in its own table of the store.
///
/// Implementors pick a stable table name and a deterministic, injective
/// encoding of keys and values; the store's contracts are stated over those
/// encodings.
pub trait HasTable: Sized + View {
    /// The lookup key for this type.
    type Key: View;

    /// The table's stable name.
    spec fn table_name_spec() -> Seq<char>;

    /// The encoded form of a key, over its view.
    spec fn key_enc_of(k: <Self::Key as View>::V) -> Seq<char>;

    /// The encoded form of a value, over its view.
    spec fn value_enc_of(v: Self::V) -> Seq<char>;

    /// Decoding of a stored key.
    spec fn key_dec_of(s: Seq<char>) -> Option<<Self::Key as View>::V>;

    /// Decoding of a stored value.
    spec fn value_dec_of(s: Seq<char>) -> Option<Self::V>;

    /// The table name must be canonical for the engine — free of ASCII
    /// upper-case letters — since the engine resolves names
    /// case-insensitively over ASCII and two non-canonical names could
    /// alias one table.
    proof fn lemma_table_name_canonical()
        ensures
            is_canonical_name(Self::table_name_spec()),
    ;

    /// Key encoding must round-trip; this also makes it injective, which
    /// duplicate handling relies on.
    proof fn lemma_key_round_trip(k: <Self::Key as View>::V)
        ensures
            Self::key_dec_of(Self::key_enc_of(k)) == Some(k),
    ;

    /// Value encoding must round-trip.
    proof fn lemma_value_round_trip(v: Self::V)
        ensures
            Self::value_dec_of(Self::value_enc_of(v)) == Some(v),
    ;

    fn table_name() -> (r: String)
        ensures
            r@ == Self::table_name_spec(),
    ;

    fn encode_key(k: &Self::Key) -> (r: String)
        ensures
            r@ == Self::key_enc_of(k@),
    ;

    fn encode_value(&self) -> (r: String)
        ensures
            r@ == Self::value_enc_of(self@),
    ;

    fn decode_key(s: &str) -> (r: Option<Self::Key>)
        ensures
            r is Some <==> Self::key_dec_of(s@) is Some,
            r is Some ==> Self::key_dec_of(s@) == Some((r->0)@),
    ;

    fn decode_value(s: &str) -> (r: Option<Self>)
        ensures
            r is Some <==> Self::value_dec_of(s@) is Some,
            r is Some ==> Self::value_dec_of(s@) == Some((r->0)@),
    ;
}

/// Outcome of a failed read-modify-write mutation: the store kept its
/// state, the key held a decodable value, and the mutation failed on it
/// with the reported cause.
pub open spec fn mutation_kept_store<T: HasTable, E, F: FnOnce(T) -> Result<T, E>>(
    pre: SpecTables,
    post: SpecTables,
    k: <T::Key as View>::V,
    f: F,
    e: E,
) -> bool {
    let cur = current(pre, T::table_name_spec(), T::key_enc_of(k));
    &&& post == pre
    &&& cur is Some
    &&& exists|v: T|
        T::value_dec_of(cur->0) == Some(v@) && #[trigger] call_ensures(f, (v,), Err::<T, E>(e))
}

/// As `mutation_kept_store`, for the absence-tolerant variant: the mutation
/// received the current value, if any, and failed with the reported cause.
pub open spec fn opt_mutation_kept_store<
    T: HasTable,
    E,
    F: FnOnce(Option<T>) -> Result<Option<T>, E>,
>(pre: SpecTables, post: SpecTables, k: <T::Key as View>::V, f: F, e: E) -> bool {
    let cur = current(pre, T::table_name_spec(), T::key_enc_of(k));
    &&& post == pre
    &&& exists|vo: Option<T>|
        {
            &&& (match cur {
                None => vo is None,
                Some(s) => vo is Some && T::value_dec_of(s) == Some((vo->0)@),
            })
            &&& #[trigger] call_ensures(f, (vo,), Err::<Option<T>, E>(e))
        }
}

/// What a lookup reported about the current value under encoded key `k`:
/// `None` for an absent table or key, the decoded current value otherwise,
/// or a failure — `Deserialization` exactly when the stored row cannot be
/// decoded.
pub open spec fn lookup_of<T: HasTable>(
    m: SpecTables,
    k: Seq<char>,
    r: Result<Option<T>, KvError>,
) -> bool {
    let cur = current(m, T::table_name_spec(), k);
    match r {
        Ok(None) => cur is None,
        Ok(Some(v)) => cur is Some && T::value_dec_of(cur->0) == Some(v@),
        Err(e) => match e {
            KvError::QueryPrepare => true,
            KvError::StorageIo => true,
            KvError::Deserialization { table, raw } => table@ == T::table_name_spec() && cur
                == Some(raw@) && T::value_dec_of(raw@) is None,
            _ => false,
        },
    }
}

/// `entries` lists every distinct key's current value of `T`'s table in
/// `m`: some sequence of encoded keys matches it one to one, without
/// duplicates, and covers every key that currently holds a value.  The
/// deliberate order: the key whose current row was written most recently
/// comes first.
pub open spec fn listing_of<T: HasTable>(m: SpecTables, entries: Seq<(T::Key, T)>) -> bool {
    exists|ks: Seq<Seq<char>>|
        {
            &&& #[trigger] ks.len() == entries.len()
            &&& ks.no_duplicates()
            &&& (forall|i: int|
                0 <= i < entries.len() ==> {
                    &&& current(m, T::table_name_spec(), #[trigger] ks[i]) is Some
                    &&& T::key_dec_of(ks[i]) == Some(entries[i].0@)
                    &&& T::value_dec_of(current(m, T::table_name_spec(), ks[i])->0) == Some(
                        entries[i].1@,
                    )
                })
            &&& (forall|k: Seq<char>|
                current(m, T::table_name_spec(), k) is Some ==> ks.contains(k))
            &&& (forall|i: int, j: int|
                0 <= i < j < entries.len() ==> last_key_pos(
                    m[T::table_name_spec()],
                    #[trigger] ks[i],
                ) > last_key_pos(m[T::table_name_spec()], #[trigger] ks[j]))
        }
}

/// A view over a single database file as a typed key/value store: one table
/// per type, each row an encoded key beside an encoded value.
pub struct KVStore {
    conn: Connection,
}

impl View for KVStore {
    type V = SpecTables;

    closed spec fn view(&self) -> SpecTables {
        db_view(self.conn)
    }
}

impl KVStore {
    /// Opens the store at the provided path, creating it if it does not
    /// exist.  The file's prior contents become the store's state.
    pub fn open(db_path: &str) -> (r: Result<KVStore, KvError>)
        ensures
            r is Err ==> r->Err_0 is StorageOpen,
    {
        match engine::open_path(db_path) {
            Ok(conn) => Ok(KVStore { conn }),
            Err(e) => Err(e),
        }
    }

    /// Opens an empty in-memory store, primarily for testing.
    pub fn open_in_memory() -> (r: Result<KVStore, KvError>)
        ensures
            r is Ok ==> (r->Ok_0)@ == Map::<Seq<char>, Seq<(Seq<char>, Seq<char>)>>::empty(),
    {
        match engine::open_memory() {
            Ok(conn) => Ok(KVStore { conn }),
            Err(e) => Err(e),
        }
    }

    /// Creates the table for a type when it does not exist yet; an
    /// existing table is untouched.  `set` does this lazily, so calling it
    /// is never required.
    pub fn create_table<T: HasTable>(&mut self) -> (r: Result<(), KvError>)
        ensures
            r is Ok ==> final(self)@ == with_table(old(self)@, T::table_name_spec()),
    {
        let table = T::table_name();
        proof {
            T::lemma_table_name_canonical();
        }
        engine::create_table(&mut self.conn, table.as_str())
    }

    /// Gets the current value for a key: the most recently written one, or
    /// `None` when the table or the key is absent — absence is not an
    /// error.  Fails with `Deserialization`, carrying the table name and
    /// the raw text, when the stored row cannot be decoded.
    pub fn get<T: HasTable>(&self, key: &T::Key) -> (r: Result<Option<T>, KvError>)
        ensures
            ({
                let cur = current(self@, T::table_name_spec(), T::key_enc_of(key@));
                match r {
                    Ok(None) => cur is None,
                    Ok(Some(v)) => cur is Some && T::value_dec_of(cur->0) == Some(v@),
                    Err(e) => match e {
                        KvError::QueryPrepare => true,
                        KvError::StorageIo => true,
                        KvError::Deserialization { table, raw } => table@
                            == T::table_name_spec() && cur == Some(raw@) && T::value_dec_of(
                            raw@,
                        ) is None,
                        _ => false,
                    },
                }
            }),
    {
        let table = T::table_name();
        proof {
            T::lemma_table_name_canonical();
        }
        let exists = match engine::table_exists(&self.conn, table.as_str()) {
            Ok(b) => b,
            Err(e) => {
                return Err(e);
            },
        };
        if !exists {
            return Ok(None);
        }
        let key_s = T::encode_key(key);
        let vals = match engine::rows_for_key(&self.conn, table.as_str(), key_s.as_str()) {
            Ok(v) => v,
            Err(e) => {
                return Err(e);
            },
        };
        proof {
            lemma_current_is_last_value(self@[T::table_name_spec()], T::key_enc_of(key@));
        }
        if vals.len() == 0 {
            return Ok(None);
        }
        let raw = &vals[vals.len() - 1];
        proof {
            assert(vals.deep_view().last() == raw@);
        }
        match T::decode_value(raw.as_str()) {
            Some(v) => Ok(Some(v)),
            None => Err(KvError::Deserialization { table, raw: raw.clone() }),
        }
    }

    /// Sets a key to a value, creating the table when absent, and returns
    /// the prior current value if there was one.  When the key already has
    /// rows, every one of them is updated — defensive against pre-existing
    /// duplicates; otherwise one row is inserted.
    pub fn set<T: HasTable>(&mut self, key: &T::Key, value: T) -> (r: Result<Option<T>, KvError>)
        ensures
            ({
                let t = T::table_name_spec();
                let k = T::key_enc_of(key@);
                let cur = current(old(self)@, t, k);
                match r {
                    Ok(prior) => final(self)@ == store_set(
                        old(self)@,
                        t,
                        k,
                        T::value_enc_of(value@),
                    ) && (match prior {
                        None => cur is None,
                        Some(p) => cur is Some && T::value_dec_of(cur->0) == Some(p@),
                    }),
                    Err(e) => match e {
                        KvError::QueryPrepare => true,
                        KvError::StorageIo => true,
                        KvError::Deserialization { table, raw } => table@ == t && cur == Some(raw@)
                            && T::value_dec_of(raw@) is None,
                        _ => false,
                    },
                }
            }),
            (r is Err ==> final(self)@ == old(self)@ || final(self)@ == with_table(
                old(self)@,
                T::table_name_spec(),
            )),
    {
        let ghost t = T::table_name_spec();
        let ghost k = T::key_enc_of(key@);
        let table = T::table_name();
        proof {
            T::lemma_table_name_canonical();
        }
        match engine::create_table(&mut self.conn, table.as_str()) {
            Ok(()) => (),
            Err(e) => {
                return Err(e);
            },
        };
        proof {
            lemma_with_table_current(old(self)@, t, t, k);
        }
        let prior = match self.get::<T>(key) {
            Ok(p) => p,
            Err(e) => {
                return Err(e);
            },
        };
        let key_s = T::encode_key(key);
        let val_s = value.encode_value();
        proof {
            lemma_current_some_iff_has_key(self@[t], k);
        }
        let wrote = if prior.is_some() {
            engine::update_rows(&mut self.conn, table.as_str(), key_s.as_str(), val_s.as_str())
        } else {
            engine::insert_row(&mut self.conn, table.as_str(), key_s.as_str(), val_s.as_str())
        };
        match wrote {
            Ok(()) => Ok(prior),
            Err(e) => Err(e),
        }
    }

    /// Deletes every row sharing the key and returns what was current.
    pub fn delete<T: HasTable>(&mut self, key: &T::Key) -> (r: Result<Option<T>, KvError>)
        ensures
            ({
                let t = T::table_name_spec();
                let k = T::key_enc_of(key@);
                let cur = current(old(self)@, t, k);
                match r {
                    Ok(prior) => final(self)@ == store_delete(old(self)@, t, k) && (match prior {
                        None => cur is None,
                        Some(p) => cur is Some && T::value_dec_of(cur->0) == Some(p@),
                    }),
                    Err(e) => match e {
                        KvError::QueryPrepare => true,
                        KvError::StorageIo => true,
                        KvError::Deserialization { table, raw } => table@ == t && cur == Some(raw@)
                            && T::value_dec_of(raw@) is None,
                        _ => false,
                    },
                }
            }),
            (r is Err ==> final(self)@ == old(self)@),
    {
        let ghost t = T::table_name_spec();
        let ghost k = T::key_enc_of(key@);
        let table = T::table_name();
        proof {
            T::lemma_table_name_canonical();
        }
        let prior = match self.get::<T>(key) {
            Ok(p) => p,
            Err(e) => {
                return Err(e);
            },
        };
        let exists = match engine::table_exists(&self.conn, table.as_str()) {
            Ok(b) => b,
            Err(e) => {
                return Err(e);
            },
        };
        if !exists {
            return Ok(prior);
        }
        let key_s = T::encode_key(key);
        match engine::delete_rows(&mut self.conn, table.as_str(), key_s.as_str()) {
            Ok(()) => Ok(prior),
            Err(e) => Err(e),
        }
    }

    /// Loads the current value for a key, applies the caller's mutation and
    /// writes the result back only on success.  An absent key fails with
    /// `MissingKey`; a failed mutation reports `MutationFailure` wrapping
    /// its cause; in both cases the store is left unchanged.
    #[verifier::rlimit(50)]
    pub fn with<T: HasTable, E, F: FnOnce(T) -> Result<T, E>>(
        &mut self,
        key: &T::Key,
        f: F,
    ) -> (r: Result<(), WithError<E>>)
        requires
            forall|v: T| call_requires(f, (v,)),
        ensures
            ({
                let cur = current(old(self)@, T::table_name_spec(), T::key_enc_of(key@));
                r is Ok ==> cur is Some && (exists|v: T, v2: T|
                    {
                        &&& T::value_dec_of(cur->0) == Some(v@)
                        &&& #[trigger] call_ensures(f, (v,), Ok(v2))
                        &&& final(self)@ == store_set(
                            old(self)@,
                            T::table_name_spec(),
                            T::key_enc_of(key@),
                            T::value_enc_of(v2@),
                        )
                    })
            }),
            (r matches Err(WithError::MutationFailure(e)) ==> mutation_kept_store::<T, E, F>(
                old(self)@,
                final(self)@,
                key@,
                f,
                e,
            )),
            ({
                let cur = current(old(self)@, T::table_name_spec(), T::key_enc_of(key@));
                r matches Err(WithError::Store(err)) ==> match err {
                    KvError::MissingKey { key: ks } => cur is None && final(self)@ == old(self)@
                        && ks@ == T::key_enc_of(key@),
                    KvError::QueryPrepare => true,
                    KvError::StorageIo => true,
                    KvError::Deserialization { table, raw } => table@ == T::table_name_spec()
                        && cur == Some(raw@) && T::value_dec_of(raw@) is None,
                    _ => false,
                }
            }),
            (r is Err ==> final(self)@ == old(self)@ || final(self)@ == with_table(
                old(self)@,
                T::table_name_spec(),
            )),
    {
        let cur = match self.get::<T>(key) {
            Ok(c) => c,
            Err(e) => {
                return Err(WithError::Store(e));
            },
        };
        match cur {
            None => Err(WithError::Store(KvError::MissingKey { key: T::encode_key(key) })),
            Some(v) => {
                let ghost gv = v;
                match f(v) {
                    Err(e) => {
                        proof {
                            assert(call_ensures(f, (gv,), Err::<T, E>(e)));
                            assert(mutation_kept_store::<T, E, F>(old(self)@, self@, key@, f, e));
                        }
                        Err(WithError::MutationFailure(e))
                    },
                    Ok(v2) => {
                        let ghost gv2 = v2;
                        match self.set::<T>(key, v2) {
                            Ok(_) => {
                                proof {
                                    assert(call_ensures(f, (gv,), Ok::<T, E>(gv2)));
                                }
                                Ok(())
                            },
                            Err(e) => Err(WithError::Store(e)),
                        }
                    },
                }
            },
        }
    }

    /// As `with`, but tolerant of absence: the mutation receives the
    /// current value if any, and whatever value it returns is persisted —
    /// nothing is written when it returns no value.
    #[verifier::rlimit(50)]
    pub fn with_opt<T: HasTable, E, F: FnOnce(Option<T>) -> Result<Option<T>, E>>(
        &mut self,
        key: &T::Key,
        f: F,
    ) -> (r: Result<(), WithError<E>>)
        requires
            forall|vo: Option<T>| call_requires(f, (vo,)),
        ensures
            ({
                let cur = current(old(self)@, T::table_name_spec(), T::key_enc_of(key@));
                r is Ok ==> (exists|vo: Option<T>, vo2: Option<T>|
                    {
                        &&& (match cur {
                            None => vo is None,
                            Some(s) => vo is Some && T::value_dec_of(s) == Some((vo->0)@),
                        })
                        &&& #[trigger] call_ensures(f, (vo,), Ok(vo2))
                        &&& (match vo2 {
                            None => final(self)@ == old(self)@,
                            Some(v2) => final(self)@ == store_set(
                                old(self)@,
                                T::table_name_spec(),
                                T::key_enc_of(key@),
                                T::value_enc_of(v2@),
                            ),
                        })
                    })
            }),
            (r matches Err(WithError::MutationFailure(e)) ==> opt_mutation_kept_store::<T, E, F>(
                old(self)@,
                final(self)@,
                key@,
                f,
                e,
            )),
            ({
                let cur = current(old(self)@, T::table_name_spec(), T::key_enc_of(key@));
                r matches Err(WithError::Store(err)) ==> match err {
                    KvError::QueryPrepare => true,
                    KvError::StorageIo => true,
                    KvError::Deserialization { table, raw } => table@ == T::table_name_spec()
                        && cur == Some(raw@) && T::value_dec_of(raw@) is None,
                    _ => false,
                }
            }),
            (r is Err ==> final(self)@ == old(self)@ || final(self)@ == with_table(
                old(self)@,
                T::table_name_spec(),
            )),
    {
        let cur = match self.get::<T>(key) {
            Ok(c) => c,
            Err(e) => {
                return Err(WithError::Store(e));
            },
        };
        let ghost gvo = cur;
        match f(cur) {
            Err(e) => {
                proof {
                    assert(call_ensures(f, (gvo,), Err::<Option<T>, E>(e)));
                    assert(opt_mutation_kept_store::<T, E, F>(old(self)@, self@, key@, f, e));
                }
                Err(WithError::MutationFailure(e))
            },
            Ok(None) => {
                proof {
                    assert(call_ensures(f, (gvo,), Ok::<Option<T>, E>(None)));
                }
                Ok(())
            },
            Ok(Some(v2)) => {
                let ghost gv2 = v2;
                match self.set::<T>(key, v2) {
                    Ok(_) => {
                        proof {
                            assert(call_ensures(f, (gvo,), Ok::<Option<T>, E>(Some(gv2))));
                        }
                        Ok(())
                    },
                    Err(e) => Err(WithError::Store(e)),
                }
            },
        }
    }

    /// Returns every distinct key's current value, the key whose current
    /// row was written most recently first.  An absent table yields an
    /// empty listing, never an error; a row that cannot be decoded fails
    /// with `Deserialization`.
    #[verifier::rlimit(50)]
    pub fn get_all<T: HasTable>(&self) -> (r: Result<Vec<(T::Key, T)>, KvError>)
        ensures
            ({
                let t = T::table_name_spec();
                match r {
                    Ok(entries) => exists|ks: Seq<Seq<char>>|
                        {
                            &&& #[trigger] ks.len() == entries@.len()
                            &&& ks.no_duplicates()
                            &&& (forall|i: int|
                                0 <= i < entries@.len() ==> {
                                    &&& current(self@, t, #[trigger] ks[i]) is Some
                                    &&& T::key_dec_of(ks[i]) == Some(entries@[i].0@)
                                    &&& T::value_dec_of(current(self@, t, ks[i])->0) == Some(entries@[i].1@)
                                })
                            &&& (forall|k: Seq<char>|
                                current(self@, t, k) is Some ==> ks.contains(k))
                            &&& (forall|i: int, j: int|
                                0 <= i < j < entries@.len() ==> last_key_pos(
                                    self@[t],
                                    #[trigger] ks[i],
                                ) > last_key_pos(self@[t], #[trigger] ks[j]))
                        },
                    Err(e) => match e {
                        KvError::QueryPrepare => true,
                        KvError::StorageIo => true,
                        KvError::Deserialization { table, raw } => table@ == t && (exists|
                            k: Seq<char>,
                        |
                            (#[trigger] current(self@, t, k)) is Some && ((raw@ == k
                                && T::key_dec_of(k) is None) || (current(self@, t, k)->0 == raw@
                                && T::value_dec_of(raw@) is None))),
                        _ => false,
                    },
                }
            }),
    {
        let ghost t = T::table_name_spec();
        let table = T::table_name();
        proof {
            T::lemma_table_name_canonical();
        }
        let exists_t = match engine::table_exists(&self.conn, table.as_str()) {
            Ok(b) => b,
            Err(e) => {
                return Err(e);
            },
        };
        if !exists_t {
            let entries: Vec<(T::Key, T)> = Vec::new();
            proof {
                let ks = Seq::<Seq<char>>::empty();
                assert(ks.len() == entries@.len() && ks.no_duplicates() && (forall|i: int|
                    0 <= i < entries@.len() ==> {
                        &&& current(self@, t, #[trigger] ks[i]) is Some
                        &&& T::key_dec_of(ks[i]) == Some(entries@[i].0@)
                        &&& T::value_dec_of(current(self@, t, ks[i])->0) == Some(entries@[i].1@)
                    }) && (forall|k: Seq<char>| current(self@, t, k) is Some ==> ks.contains(k))
                    && (forall|i: int, j: int|
                    0 <= i < j < entries@.len() ==> last_key_pos(self@[t], #[trigger] ks[i])
                        > last_key_pos(self@[t], #[trigger] ks[j])));
            }
            return Ok(entries);
        }
        let rows = match engine::all_rows(&self.conn, table.as_str()) {
            Ok(v) => v,
            Err(e) => {
                return Err(e);
            },
        };
        let ghost rs = rows.deep_view();
        let mut picked: Vec<(String, String)> = Vec::new();
        let mut i: usize = rows.len();
        proof {
            assert(rs.skip(rows@.len() as int) =~= Seq::<(Seq<char>, Seq<char>)>::empty());
        }
        while i > 0
            invariant
                0 <= i <= rows@.len(),
                rs == rows.deep_view(),
                rs == self@[t],
                self@.dom().contains(t),
                forall|a: int, b: int|
                    0 <= a < b < picked@.len() ==> (#[trigger] picked@[a]).0@ != (
                    #[trigger] picked@[b]).0@,
                forall|a: int|
                    0 <= a < picked@.len() ==> current_in_rows(rs, (#[trigger] picked@[a]).0@)
                        == Some(picked@[a].1@),
                forall|a: int|
                    0 <= a < picked@.len() ==> has_key(
                        rs.skip(i as int),
                        (#[trigger] picked@[a]).0@,
                    ),
                forall|k: Seq<char>|
                    has_key(rs.skip(i as int), k) ==> (exists|a: int|
                        0 <= a < picked@.len() && (#[trigger] picked@[a]).0@ == k),
                forall|a: int|
                    0 <= a < picked@.len() ==> i <= last_key_pos(
                        rs,
                        (#[trigger] picked@[a]).0@,
                    ) < rs.len(),
                forall|a: int, b: int|
                    0 <= a < b < picked@.len() ==> last_key_pos(rs, (#[trigger] picked@[a]).0@)
                        > last_key_pos(rs, (#[trigger] picked@[b]).0@),
            decreases i,
        {
            i = i - 1;
            let rk = rows[i].0.clone();
            let rv = rows[i].1.clone();
            let mut found = false;
            let mut j: usize = 0;
            while j < picked.len()
                invariant
                    0 <= j <= picked@.len(),
                    0 <= i < rows@.len(),
                    rs == rows.deep_view(),
                    rk@ == rs[i as int].0,
                    found ==> (exists|a: int|
                        0 <= a < picked@.len() && (#[trigger] picked@[a]).0@ == rk@),
                    !found ==> (forall|a: int|
                        0 <= a < j ==> (#[trigger] picked@[a]).0@ != rk@),
                decreases picked@.len() - j,
            {
                if picked[j].0 == rk {
                    found = true;
                }
                j = j + 1;
            }
            proof {
                assert(rs.skip(i as int) =~= seq![rs[i as int]] + rs.skip(i as int + 1));
                assert forall|k: Seq<char>|
                    has_key(rs.skip(i as int), k) == (rs[i as int].0 == k || has_key(
                        rs.skip(i as int + 1),
                        k,
                    )) by {
                    lemma_has_key_concat(seq![rs[i as int]], rs.skip(i as int + 1), k);
                    assert(seq![rs[i as int]].last() == rs[i as int]);
                    assert(seq![rs[i as int]].drop_last() =~= Seq::<(
                        Seq<char>,
                        Seq<char>,
                    )>::empty());
                    assert(!has_key(Seq::<(Seq<char>, Seq<char>)>::empty(), k));
                    assert(has_key(seq![rs[i as int]], k) == (rs[i as int].0 == k));
                }
            }
            let ghost grk = rk@;
            let ghost picked0 = picked@;
            if !found {
                proof {
                    assert(!has_key(rs.skip(i as int + 1), rk@));
                    assert(rs =~= rs.take(i as int + 1) + rs.skip(i as int + 1));
                    lemma_current_concat(rs.take(i as int + 1), rs.skip(i as int + 1), rk@);
                    assert(rs.take(i as int + 1).last() == rs[i as int]);
                    assert(current_in_rows(rs, rk@) == Some(rv@));
                    lemma_last_key_pos_here(rs, i as int, rk@);
                }
                picked.push((rk, rv));
            }
            proof {
                assert forall|k: Seq<char>| has_key(rs.skip(i as int), k) implies (exists|a: int|
                    0 <= a < picked@.len() && (#[trigger] picked@[a]).0@ == k) by {
                    if k == rs[i as int].0 {
                        if found {
                            let a = choose|a: int|
                                0 <= a < picked0.len() && (#[trigger] picked0[a]).0@ == grk;
                            assert(picked@[a].0@ == k);
                        } else {
                            assert(picked@[picked@.len() - 1].0@ == k);
                        }
                    } else {
                        assert(has_key(rs.skip(i as int + 1), k));
                        let a = choose|a: int|
                            0 <= a < picked0.len() && (#[trigger] picked0[a]).0@ == k;
                        assert(picked@[a].0@ == k);
                    }
                }
            }
        }
        proof {
            assert(rs.skip(0) =~= rs);
            lemma_current_some_iff_has_key(rs, Seq::<char>::empty());
        }
        let mut entries: Vec<(T::Key, T)> = Vec::new();
        let mut j2: usize = 0;
        while j2 < picked.len()
            invariant
                0 <= j2 <= picked@.len(),
                entries@.len() == j2,
                rs == self@[T::table_name_spec()],
                self@.dom().contains(T::table_name_spec()),
                table@ == T::table_name_spec(),
                forall|a: int, b: int|
                    0 <= a < b < picked@.len() ==> (#[trigger] picked@[a]).0@ != (
                    #[trigger] picked@[b]).0@,
                forall|a: int|
                    0 <= a < picked@.len() ==> current_in_rows(rs, (#[trigger] picked@[a]).0@)
                        == Some(picked@[a].1@),
                forall|k: Seq<char>|
                    has_key(rs, k) ==> (exists|a: int|
                        0 <= a < picked@.len() && (#[trigger] picked@[a]).0@ == k),
                forall|a: int, b: int|
                    0 <= a < b < picked@.len() ==> last_key_pos(rs, (#[trigger] picked@[a]).0@)
                        > last_key_pos(rs, (#[trigger] picked@[b]).0@),
                forall|a: int|
                    0 <= a < j2 ==> T::key_dec_of((#[trigger] picked@[a]).0@) == Some(entries@[a].0@) && T::value_dec_of(picked@[a].1@) == Some(entries@[a].1@),
            decreases picked@.len() - j2,
        {
            let kk = match T::decode_key(picked[j2].0.as_str()) {
                Some(x) => x,
                None => {
                    proof {
                        let wk = picked@[j2 as int].0@;
                        assert(current(self@, T::table_name_spec(), wk) is Some);
                        assert(T::key_dec_of(wk) is None);
                    }
                    return Err(
                        KvError::Deserialization { table: table.clone(), raw: picked[j2].0.clone() },
                    );
                },
            };
            let vv = match T::decode_value(picked[j2].1.as_str()) {
                Some(x) => x,
                None => {
                    proof {
                        let wk = picked@[j2 as int].0@;
                        assert(current(self@, T::table_name_spec(), wk) is Some);
                        assert(current(self@, T::table_name_spec(), wk)->0 == picked@[j2 as int].1@);
                        assert(T::value_dec_of(picked@[j2 as int].1@) is None);
                    }
                    return Err(
                        KvError::Deserialization { table: table.clone(), raw: picked[j2].1.clone() },
                    );
                },
            };
            entries.push((kk, vv));
            j2 = j2 + 1;
        }
        proof {
            let ks = Seq::new(picked@.len() as nat, |a: int| picked@[a].0@);
            assert(ks.len() == entries@.len());
            assert(ks.no_duplicates());
            assert forall|a: int| 0 <= a < entries@.len() implies {
                &&& current(self@, t, #[trigger] ks[a]) is Some
                &&& T::key_dec_of(ks[a]) == Some(entries@[a].0@)
                &&& T::value_dec_of(current(self@, t, ks[a])->0) == Some(entries@[a].1@)
            } by {
                assert(current_in_rows(rs, picked@[a].0@) == Some(picked@[a].1@));
            }
            assert forall|k: Seq<char>| current(self@, t, k) is Some implies ks.contains(k) by {
                lemma_current_some_iff_has_key(rs, k);
                let a = choose|a: int| 0 <= a < picked@.len() && (#[trigger] picked@[a]).0@ == k;
                assert(ks[a] == k);
            }
            assert forall|a: int, b: int| 0 <= a < b < entries@.len() implies last_key_pos(
                self@[t],
                #[trigger] ks[a],
            ) > last_key_pos(self@[t], #[trigger] ks[b]) by {
                assert(last_key_pos(rs, picked@[a].0@) > last_key_pos(rs, picked@[b].0@));
            }
        }
        Ok(entries)
    }

    /// Compacts the whole store: in every table only the most recently
    /// written row of each key is retained, then storage is reclaimed.
    /// Safe to invoke at any time: whether it succeeds or fails, no key's
    /// current value changes.
    pub fn run_housekeeping(&mut self) -> (r: Result<(), KvError>)
        ensures
            r is Ok ==> final(self)@ == housekeep(old(self)@),
            r is Err ==> (r->Err_0 is QueryPrepare || r->Err_0 is StorageIo),
            forall|t2: Seq<char>, k2: Seq<char>|
                current(final(self)@, t2, k2) == current(old(self)@, t2, k2),
    {
        let names = match engine::list_tables(&self.conn) {
            Ok(v) => v,
            Err(e) => {
                return Err(e);
            },
        };
        let ghost m0 = self@;
        let ghost nsq = names.deep_view();
        let mut i: usize = 0;
        while i < names.len()
            invariant
                0 <= i <= names@.len(),
                nsq == names.deep_view(),
                m0 == old(self)@,
                nsq.to_set() == m0.dom(),
                nsq.no_duplicates(),
                forall|a: int| 0 <= a < nsq.len() ==> is_canonical_name(#[trigger] nsq[a]),
                self@.dom() == m0.dom(),
                forall|tt: Seq<char>|
                    m0.dom().contains(tt) ==> self@[tt] == (if nsq.take(i as int).contains(tt) {
                        last_per_key(m0[tt])
                    } else {
                        m0[tt]
                    }),
            decreases names@.len() - i,
        {
            let nm = &names[i];
            proof {
                assert(nsq[i as int] == nm@);
                assert(is_canonical_name(nm@));
                assert(nsq.contains(nm@));
                assert(nsq.to_set().contains(nm@));
                assert(!nsq.take(i as int).contains(nm@)) by {
                    if nsq.take(i as int).contains(nm@) {
                        let a = choose|a: int|
                            0 <= a < i && #[trigger] nsq.take(i as int)[a] == nm@;
                        assert(nsq[a] == nsq[i as int]);
                    }
                }
            }
            match engine::dedup_table(&mut self.conn, nm.as_str()) {
                Ok(()) => (),
                Err(e) => {
                    proof {
                        assert forall|t2: Seq<char>, k2: Seq<char>|
                            current(self@, t2, k2) == current(m0, t2, k2) by {
                            if m0.dom().contains(t2) {
                                lemma_last_per_key_current(m0[t2], k2);
                            }
                        }
                    }
                    return Err(e);
                },
            };
            i = i + 1;
            proof {
                assert(self@.dom() =~= m0.dom());
                assert(nsq.take(i as int) =~= nsq.take(i - 1).push(nsq[i - 1]));
                assert forall|tt: Seq<char>| m0.dom().contains(tt) implies self@[tt] == (if nsq.take(
                    i as int,
                ).contains(tt) {
                    last_per_key(m0[tt])
                } else {
                    m0[tt]
                }) by {
                    if tt == nm@ {
                        assert(nsq.take(i as int)[i - 1] == nm@);
                        assert(nsq.take(i as int).contains(nm@));
                    } else {
                        assert(nsq.take(i as int).contains(tt) == nsq.take(i - 1).contains(tt))
                            by {
                            if nsq.take(i as int).contains(tt) {
                                let a = choose|a: int|
                                    0 <= a < i && #[trigger] nsq.take(i as int)[a] == tt;
                                assert(a < i - 1);
                                assert(nsq.take(i - 1)[a] == tt);
                            }
                            if nsq.take(i - 1).contains(tt) {
                                let a = choose|a: int|
                                    0 <= a < i - 1 && #[trigger] nsq.take(i - 1)[a] == tt;
                                assert(nsq.take(i as int)[a] == tt);
                            }
                        }
                    }
                }
            }
        }
        match engine::vacuum(&mut self.conn) {
            Ok(()) => (),
            Err(e) => {
                proof {
                    assert forall|t2: Seq<char>, k2: Seq<char>|
                        current(self@, t2, k2) == current(m0, t2, k2) by {
                        if m0.dom().contains(t2) {
                            lemma_last_per_key_current(m0[t2], k2);
                        }
                    }
                }
                return Err(e);
            },
        };
        proof {
            assert(nsq.take(names@.len() as int) =~= nsq);
            assert forall|tt: Seq<char>| m0.dom().contains(tt) implies nsq.contains(tt) by {
                assert(nsq.to_set().contains(tt));
            }
            assert(self@ =~= housekeep(m0));
            assert forall|t2: Seq<char>, k2: Seq<char>|
                current(self@, t2, k2) == current(m0, t2, k2) by {
                if m0.dom().contains(t2) {
                    lemma_last_per_key_current(m0[t2], k2);
                }
            }
        }
        Ok(())
    }
}

} // verus!
