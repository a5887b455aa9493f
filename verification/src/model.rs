//! Mathematical model of the row store.
//!
//! A table is a sequence of rows in the order they were written (oldest
//! first); a row is an encoded key paired with an encoded value.  The whole
//! store maps each table name to its rows.  Several rows may share a key;
//! the current value of a key is the value of the most recently written row.

use vstd::prelude::*;

verus! {

/// One persisted row: encoded key, encoded value.
pub type SpecRow = (Seq<char>, Seq<char>);

/// One table's rows, oldest first.
pub type SpecTable = Seq<SpecRow>;

/// The whole store: table name to rows.
pub type SpecTables = Map<Seq<char>, SpecTable>;

/// Does some row of `rows` carry key `k`?
pub open spec fn has_key(rows: SpecTable, k: Seq<char>) -> bool
    decreases rows.len(),
{
    if rows.len() == 0 {
        false
    } else {
        rows.last().0 == k || has_key(rows.drop_last(), k)
    }
}

/// The values of the rows carrying key `k`, oldest first.
pub open spec fn values_for_key(rows: SpecTable, k: Seq<char>) -> Seq<Seq<char>>
    decreases rows.len(),
{
    if rows.len() == 0 {
        Seq::empty()
    } else if rows.last().0 == k {
        values_for_key(rows.drop_last(), k).push(rows.last().1)
    } else {
        values_for_key(rows.drop_last(), k)
    }
}

/// The current value of key `k` in `rows`: the most recently written one.
pub open spec fn current_in_rows(rows: SpecTable, k: Seq<char>) -> Option<Seq<char>>
    decreases rows.len(),
{
    if rows.len() == 0 {
        None
    } else if rows.last().0 == k {
        Some(rows.last().1)
    } else {
        current_in_rows(rows.drop_last(), k)
    }
}

/// The current value of key `k` in table `t`; `None` when the table is
/// absent or the key was never written.
pub open spec fn current(m: SpecTables, t: Seq<char>, k: Seq<char>) -> Option<Seq<char>> {
    if m.dom().contains(t) {
        current_in_rows(m[t], k)
    } else {
        None
    }
}

/// Lazy table creation: add an empty table when it is absent.
pub open spec fn with_table(m: SpecTables, t: Seq<char>) -> SpecTables {
    if m.dom().contains(t) {
        m
    } else {
        m.insert(t, Seq::empty())
    }
}

/// Every row carrying key `k` is rewritten to value `v`; the others stay.
pub open spec fn update_all(rows: SpecTable, k: Seq<char>, v: Seq<char>) -> SpecTable
    decreases rows.len(),
{
    if rows.len() == 0 {
        Seq::empty()
    } else if rows.last().0 == k {
        update_all(rows.drop_last(), k, v).push((k, v))
    } else {
        update_all(rows.drop_last(), k, v).push(rows.last())
    }
}

/// Effect of a write on one table: when the key already occurs, every row
/// carrying it is updated (defensive against pre-existing duplicates);
/// otherwise one row is appended.
pub open spec fn table_after_set(rows: SpecTable, k: Seq<char>, v: Seq<char>) -> SpecTable {
    if has_key(rows, k) {
        update_all(rows, k, v)
    } else {
        rows.push((k, v))
    }
}

/// Effect of `set` on the whole store: create the table lazily, then write.
pub open spec fn store_set(m: SpecTables, t: Seq<char>, k: Seq<char>, v: Seq<char>) -> SpecTables {
    let m1 = with_table(m, t);
    m1.insert(t, table_after_set(m1[t], k, v))
}

/// Effect of a delete on one table: every row carrying the key is removed.
pub open spec fn table_after_delete(rows: SpecTable, k: Seq<char>) -> SpecTable
    decreases rows.len(),
{
    if rows.len() == 0 {
        Seq::empty()
    } else if rows.last().0 == k {
        table_after_delete(rows.drop_last(), k)
    } else {
        table_after_delete(rows.drop_last(), k).push(rows.last())
    }
}

/// Effect of `delete` on the whole store.
pub open spec fn store_delete(m: SpecTables, t: Seq<char>, k: Seq<char>) -> SpecTables {
    if m.dom().contains(t) {
        m.insert(t, table_after_delete(m[t], k))
    } else {
        m
    }
}

/// Walks the rows newest first and keeps a row only when its key was not
/// seen in a newer row.
pub open spec fn last_per_key_from(rows: SpecTable, seen: Set<Seq<char>>) -> SpecTable
    decreases rows.len(),
{
    if rows.len() == 0 {
        Seq::empty()
    } else if seen.contains(rows.last().0) {
        last_per_key_from(rows.drop_last(), seen)
    } else {
        last_per_key_from(rows.drop_last(), seen.insert(rows.last().0)).push(rows.last())
    }
}

/// Compaction of one table: only the most recently written row of each key
/// is retained, in its original position relative to the other survivors.
pub open spec fn last_per_key(rows: SpecTable) -> SpecTable {
    last_per_key_from(rows, Set::empty())
}

/// Compaction of the whole store.
pub open spec fn housekeep(m: SpecTables) -> SpecTables {
    Map::new(|t: Seq<char>| m.dom().contains(t), |t: Seq<char>| last_per_key(m[t]))
}

/// Rows whose keys avoid `seen`, each key occurring at most once.
pub open spec fn no_stale_keys(rows: SpecTable, seen: Set<Seq<char>>) -> bool
    decreases rows.len(),
{
    if rows.len() == 0 {
        true
    } else {
        !seen.contains(rows.last().0) && no_stale_keys(
            rows.drop_last(),
            seen.insert(rows.last().0),
        )
    }
}

/// The index of the most recently written row carrying key `k`; `-1` when
/// no row does.
pub open spec fn last_key_pos(rows: SpecTable, k: Seq<char>) -> int
    decreases rows.len(),
{
    if rows.len() == 0 {
        -1
    } else if rows.last().0 == k {
        rows.len() - 1
    } else {
        last_key_pos(rows.drop_last(), k)
    }
}

/// A row whose key never occurs later is that key's most recently written
/// row.
pub proof fn lemma_last_key_pos_here(rows: SpecTable, i: int, k: Seq<char>)
    requires
        0 <= i < rows.len(),
        rows[i].0 == k,
        !has_key(rows.skip(i + 1), k),
    ensures
        last_key_pos(rows, k) == i,
    decreases rows.len(),
{
    if i < rows.len() - 1 {
        assert(rows.skip(i + 1).last() == rows.last());
        assert(rows.last().0 != k);
        assert(rows.drop_last()[i] == rows[i]);
        assert(rows.drop_last().skip(i + 1) =~= rows.skip(i + 1).drop_last());
        assert(!has_key(rows.skip(i + 1).drop_last(), k));
        lemma_last_key_pos_here(rows.drop_last(), i, k);
    }
}

// ---------------------------------------------------------------------------
// Facts about one processing step: how each recursive function unfolds over
// `push`.  These drive the loop proofs, which extend a processed prefix one
// row at a time.
// ---------------------------------------------------------------------------

pub broadcast proof fn lemma_current_push(rows: SpecTable, r: SpecRow, k: Seq<char>)
    ensures
        #[trigger] current_in_rows(rows.push(r), k) == if r.0 == k {
            Some(r.1)
        } else {
            current_in_rows(rows, k)
        },
{
    assert(rows.push(r).drop_last() =~= rows);
}

// ---------------------------------------------------------------------------
// The current value seen through each mutation.
// ---------------------------------------------------------------------------

/// The current value and key presence agree.
pub proof fn lemma_current_some_iff_has_key(rows: SpecTable, k: Seq<char>)
    ensures
        current_in_rows(rows, k) is Some <==> has_key(rows, k),
    decreases rows.len(),
{
    if rows.len() > 0 && rows.last().0 != k {
        lemma_current_some_iff_has_key(rows.drop_last(), k);
    }
}

/// The current value is the most recently written one.
pub proof fn lemma_current_is_last_value(rows: SpecTable, k: Seq<char>)
    ensures
        current_in_rows(rows, k) == if values_for_key(rows, k).len() == 0 {
            None::<Seq<char>>
        } else {
            Some(values_for_key(rows, k).last())
        },
    decreases rows.len(),
{
    if rows.len() > 0 && rows.last().0 != k {
        lemma_current_is_last_value(rows.drop_last(), k);
    }
}

/// After a write, the written key's current value is the written value and
/// every other key's current value is untouched.
pub proof fn lemma_current_after_set(rows: SpecTable, k: Seq<char>, v: Seq<char>, q: Seq<char>)
    ensures
        current_in_rows(table_after_set(rows, k, v), q) == if q == k {
            Some(v)
        } else {
            current_in_rows(rows, q)
        },
    decreases rows.len(),
{
    broadcast use lemma_current_push;

    if has_key(rows, k) {
        lemma_current_after_update_all(rows, k, v, q);
    }
}

/// The rewrite-every-matching-row form, shown by induction whether or not
/// the key occurs.
proof fn lemma_current_after_update_all(rows: SpecTable, k: Seq<char>, v: Seq<char>, q: Seq<char>)
    ensures
        current_in_rows(update_all(rows, k, v), q) == if q == k && has_key(rows, k) {
            Some(v)
        } else {
            current_in_rows(rows, q)
        },
    decreases rows.len(),
{
    broadcast use lemma_current_push;

    if rows.len() > 0 {
        lemma_current_after_update_all(rows.drop_last(), k, v, q);
    }
}

/// After a delete, the deleted key is gone and every other key's current
/// value is untouched.
pub proof fn lemma_current_after_delete(rows: SpecTable, k: Seq<char>, q: Seq<char>)
    ensures
        current_in_rows(table_after_delete(rows, k), q) == if q == k {
            None::<Seq<char>>
        } else {
            current_in_rows(rows, q)
        },
    decreases rows.len(),
{
    broadcast use lemma_current_push;

    if rows.len() > 0 {
        lemma_current_after_delete(rows.drop_last(), k, q);
    }
}

/// Key presence splits over concatenation.
pub proof fn lemma_has_key_concat(a: SpecTable, b: SpecTable, k: Seq<char>)
    ensures
        has_key(a + b, k) == (has_key(a, k) || has_key(b, k)),
    decreases b.len(),
{
    if b.len() == 0 {
        assert(a + b =~= a);
    } else {
        assert((a + b).last() == b.last());
        assert((a + b).drop_last() =~= a + b.drop_last());
        lemma_has_key_concat(a, b.drop_last(), k);
    }
}

/// The current value after concatenation: the later rows win.
pub proof fn lemma_current_concat(a: SpecTable, b: SpecTable, k: Seq<char>)
    ensures
        current_in_rows(a + b, k) == if has_key(b, k) {
            current_in_rows(b, k)
        } else {
            current_in_rows(a, k)
        },
    decreases b.len(),
{
    if b.len() == 0 {
        assert(a + b =~= a);
    } else {
        assert((a + b).last() == b.last());
        assert((a + b).drop_last() =~= a + b.drop_last());
        lemma_current_concat(a, b.drop_last(), k);
    }
}

/// Lazily creating a table changes no current value.
pub proof fn lemma_with_table_current(m: SpecTables, t: Seq<char>, t2: Seq<char>, k: Seq<char>)
    ensures
        current(with_table(m, t), t2, k) == current(m, t2, k),
{
}

// ---------------------------------------------------------------------------
// Compaction.
// ---------------------------------------------------------------------------

/// Compaction never changes what a key currently maps to.
pub proof fn lemma_last_per_key_from_current(
    rows: SpecTable,
    seen: Set<Seq<char>>,
    q: Seq<char>,
)
    ensures
        current_in_rows(last_per_key_from(rows, seen), q) == if seen.contains(q) {
            None::<Seq<char>>
        } else {
            current_in_rows(rows, q)
        },
    decreases rows.len(),
{
    broadcast use lemma_current_push;

    if rows.len() > 0 {
        if seen.contains(rows.last().0) {
            lemma_last_per_key_from_current(rows.drop_last(), seen, q);
        } else {
            lemma_last_per_key_from_current(rows.drop_last(), seen.insert(rows.last().0), q);
        }
    }
}

/// Compaction never changes what a key currently maps to.
pub proof fn lemma_last_per_key_current(rows: SpecTable, q: Seq<char>)
    ensures
        current_in_rows(last_per_key(rows), q) == current_in_rows(rows, q),
{
    lemma_last_per_key_from_current(rows, Set::empty(), q);
}

/// Compacted rows carry no key from `seen` and no key twice.
pub proof fn lemma_last_per_key_from_distinct(rows: SpecTable, seen: Set<Seq<char>>)
    ensures
        no_stale_keys(last_per_key_from(rows, seen), seen),
    decreases rows.len(),
{
    if rows.len() > 0 {
        if seen.contains(rows.last().0) {
            lemma_last_per_key_from_distinct(rows.drop_last(), seen);
        } else {
            let r = rows.last();
            let inner = last_per_key_from(rows.drop_last(), seen.insert(r.0));
            lemma_last_per_key_from_distinct(rows.drop_last(), seen.insert(r.0));
            assert(inner.push(r).drop_last() =~= inner);
        }
    }
}

/// Rows already free of stale and duplicate keys compact to themselves.
pub proof fn lemma_no_stale_keys_fixed(rows: SpecTable, seen: Set<Seq<char>>)
    requires
        no_stale_keys(rows, seen),
    ensures
        last_per_key_from(rows, seen) == rows,
    decreases rows.len(),
{
    if rows.len() > 0 {
        let r = rows.last();
        lemma_no_stale_keys_fixed(rows.drop_last(), seen.insert(r.0));
        lemma_no_stale_keys_widen(rows.drop_last(), seen.insert(r.0), seen);
        assert(last_per_key_from(rows, seen) =~= rows);
    }
}

/// Freedom from stale keys is kept when the stale set shrinks, as long as
/// the dropped elements are keys the rows avoid anyway.
proof fn lemma_no_stale_keys_widen(rows: SpecTable, big: Set<Seq<char>>, small: Set<Seq<char>>)
    requires
        no_stale_keys(rows, big),
        small.subset_of(big),
    ensures
        last_per_key_from(rows, small) == rows,
    decreases rows.len(),
{
    if rows.len() > 0 {
        let r = rows.last();
        lemma_no_stale_keys_widen(rows.drop_last(), big.insert(r.0), small.insert(r.0));
        assert(small.insert(r.0).subset_of(big.insert(r.0)));
        assert(last_per_key_from(rows, small) =~= rows);
    }
}

/// Compacting twice is the same as compacting once.
pub proof fn lemma_last_per_key_idempotent(rows: SpecTable)
    ensures
        last_per_key(last_per_key(rows)) == last_per_key(rows),
{
    lemma_last_per_key_from_distinct(rows, Set::empty());
    lemma_no_stale_keys_fixed(last_per_key(rows), Set::empty());
}

/// Store-level idempotence of compaction.
pub proof fn lemma_housekeep_idempotent(m: SpecTables)
    ensures
        housekeep(housekeep(m)) == housekeep(m),
{
    let once = housekeep(m);
    let twice = housekeep(once);
    assert forall|t: Seq<char>| once.dom().contains(t) implies #[trigger] twice[t] == once[t] by {
        lemma_last_per_key_idempotent(m[t]);
    }
    assert(twice =~= once);
}

/// Store-level: compaction does not change any current value.
pub proof fn lemma_housekeep_current(m: SpecTables, t: Seq<char>, k: Seq<char>)
    ensures
        current(housekeep(m), t, k) == current(m, t, k),
{
    if m.dom().contains(t) {
        lemma_last_per_key_current(m[t], k);
    }
}

} // verus!
