//! The store's laws: properties that hold of every key, value and state,
//! stated over the same spec functions the operations' contracts use and
//! proved once and for all.

use vstd::prelude::*;

use crate::crypto::spec_pack;
use crate::crypto::KeyPairView;
use crate::model::{
    current, housekeep, last_per_key, lemma_current_after_set, lemma_last_per_key_from_distinct,
    no_stale_keys, store_set, values_for_key, SpecTable, SpecTables,
};
use crate::store::HasTable;

verus! {

/// The map-level effect of a write: the written key's current value is the
/// written one, every other key and table is untouched.
pub proof fn lemma_store_set_current(
    m: SpecTables,
    t: Seq<char>,
    k: Seq<char>,
    v: Seq<char>,
    t2: Seq<char>,
    k2: Seq<char>,
)
    ensures
        current(store_set(m, t, k, v), t2, k2) == if t2 == t && k2 == k {
            Some(v)
        } else {
            current(m, t2, k2)
        },
{
    let m1 = crate::model::with_table(m, t);
    crate::model::lemma_with_table_current(m, t, t2, k2);
    if t2 == t {
        lemma_current_after_set(m1[t], k, v, k2);
    }
}

/// Setting a key and then getting it yields the value that was set: the
/// stored encoding of the new value is current and decodes back to it.
pub proof fn lemma_set_then_get<T: HasTable>(m: SpecTables, kv: <T::Key as View>::V, vv: T::V)
    ensures
        ({
            let t = T::table_name_spec();
            let k = T::key_enc_of(kv);
            let cur = current(store_set(m, t, k, T::value_enc_of(vv)), t, k);
            cur is Some && T::value_dec_of(cur->0) == Some(vv)
        }),
{
    let t = T::table_name_spec();
    let k = T::key_enc_of(kv);
    lemma_store_set_current(m, t, k, T::value_enc_of(vv), t, k);
    T::lemma_value_round_trip(vv);
}

/// Overwriting: after `set(k, v1)`, a second `set(k, v2)` sees `v1` as the
/// prior current value, and a `get(k)` after both yields `v2`.
pub proof fn lemma_set_set_get<T: HasTable>(
    m: SpecTables,
    kv: <T::Key as View>::V,
    v1: T::V,
    v2: T::V,
)
    ensures
        ({
            let t = T::table_name_spec();
            let k = T::key_enc_of(kv);
            let m1 = store_set(m, t, k, T::value_enc_of(v1));
            let m2 = store_set(m1, t, k, T::value_enc_of(v2));
            &&& current(m1, t, k) is Some
            &&& T::value_dec_of(current(m1, t, k)->0) == Some(v1)
            &&& current(m2, t, k) is Some
            &&& T::value_dec_of(current(m2, t, k)->0) == Some(v2)
        }),
{
    let t = T::table_name_spec();
    let k = T::key_enc_of(kv);
    let m1 = store_set(m, t, k, T::value_enc_of(v1));
    lemma_store_set_current(m, t, k, T::value_enc_of(v1), t, k);
    lemma_store_set_current(m1, t, k, T::value_enc_of(v2), t, k);
    T::lemma_value_round_trip(v1);
    T::lemma_value_round_trip(v2);
}

/// Rows free of stale and duplicate keys carry each key at most once.
proof fn lemma_no_stale_values(rows: SpecTable, seen: Set<Seq<char>>, k: Seq<char>)
    requires
        no_stale_keys(rows, seen),
    ensures
        values_for_key(rows, k).len() + (if seen.contains(k) {
            1int
        } else {
            0int
        }) <= 1,
    decreases rows.len(),
{
    if rows.len() > 0 {
        lemma_no_stale_values(rows.drop_last(), seen.insert(rows.last().0), k);
    }
}

/// After housekeeping, no key has more than one visible row in any table:
/// duplicates never survive compaction.
pub proof fn lemma_housekeep_no_duplicates(m: SpecTables, t: Seq<char>, k: Seq<char>)
    requires
        m.dom().contains(t),
    ensures
        values_for_key(housekeep(m)[t], k).len() <= 1,
{
    lemma_last_per_key_from_distinct(m[t], Set::empty());
    lemma_no_stale_values(last_per_key(m[t]), Set::empty(), k);
}

/// A table that was never written holds nothing: on an empty store every
/// lookup is absent, which the store reports as `None`, not as an error.
pub proof fn lemma_empty_store_has_nothing(t: Seq<char>, k: Seq<char>)
    ensures
        current(Map::<Seq<char>, SpecTable>::empty(), t, k) is None,
{
}

/// The cleartext half of a packed pair is the public value as given,
/// whatever the salt, so it can be read back without any password.
pub proof fn lemma_clear_of_pack(
    clear: Seq<char>,
    secret: KeyPairView,
    pw: Seq<char>,
    salt: Seq<u8>,
)
    ensures
        spec_pack(clear, secret, pw, salt).clear == clear,
{
}

} // verus!