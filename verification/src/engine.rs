//! Trusted boundary to the embedded relational engine.
//!
//! The store keeps its rows in SQLite through the `rusqlite` crate.  Verus
//! sees the connection as an opaque value whose contents are named by
//! `db_view`: a map from table name to the table's rows in the order they
//! were written.  Each wrapper below performs one SQL statement and states,
//! over `db_view`, what that statement does to the rows; everything above
//! this module is verified against those contracts.
//!
//! SQLite resolves table names case-insensitively over the ASCII letters,
//! so `db_view` is keyed by canonical names — names holding no ASCII
//! upper-case letter — and every wrapper requires its table argument to be
//! canonical: two distinct canonical names can never alias one stored
//! table, and a mixed-case name found in a file opened from disk is keyed
//! here by its lower-cased form, which is how every statement below
//! resolves it.  Table names are interpolated into the SQL text as quoted
//! identifiers with embedded quotes doubled, so a name is taken literally
//! and cannot alter the statement around it (quoting does not change name
//! resolution); keys and values are always bound as parameters and
//! compared with the default BINARY collation, exact text.
//!
//! Every wrapped statement orders or selects rows through `rowid`,
//! SQLite's write-order row identifier: reads are ordered by it and the
//! compaction statement keeps the row with the greatest `rowid` per key,
//! so `db_view`'s row order is exactly write order.  A failing statement
//! backs out its own changes (SQLite statements are atomic), so each
//! mutating wrapper also states that an error leaves the contents
//! unchanged.
//!
//! One schema assumption underlies all of this: the database holds only
//! what this engine writes — plain tables of two text columns with
//! ordinary rowids, no views, triggers or rows of other types.  A foreign
//! file that breaks it (a trigger multiplying an insert's effect, a view
//! posing as a table, a table at the maximum rowid) is outside these
//! contracts, which `open_path`, claiming nothing of a file's contents,
//! does not police.

use vstd::prelude::*;

use crate::errors::KvError;
use crate::model::{
    last_per_key, table_after_delete, update_all, values_for_key, with_table, SpecTable,
    SpecTables,
};
use rusqlite::Connection;

verus! {

#[verifier::external_type_specification]
#[verifier::external_body]
pub struct ExConnection(Connection);

/// The rows held by the engine behind a connection: canonical table name
/// to rows, oldest row first.
pub uninterp spec fn db_view(c: Connection) -> SpecTables;

/// A canonical table name: no ASCII upper-case letter, so SQLite's
/// ASCII-case-insensitive name resolution treats it as its own form and
/// two distinct canonical names never reach the same table.
pub open spec fn is_canonical_name(s: Seq<char>) -> bool {
    forall|i: int|
        0 <= i < s.len() ==> !(65 <= (#[trigger] s[i]) as u32 && s[i] as u32 <= 90)
}

/// Relies on `rusqlite::Connection::open_in_memory`: a fresh in-memory
/// database holds no tables at all.
#[verifier::external_body]
pub(crate) fn open_memory() -> (r: Result<Connection, KvError>)
    ensures
        (match r {
            Ok(c) => db_view(c) == Map::<Seq<char>, SpecTable>::empty(),
            Err(e) => e is StorageOpen,
        }),
{
    Connection::open_in_memory().map_err(|_| KvError::StorageOpen)
}

/// Relies on `rusqlite::Connection::open`: opens (creating if missing) the
/// database file at `path`.  What it holds depends on the disk, so nothing
/// is stated about the contents.
#[verifier::external_body]
pub(crate) fn open_path(path: &str) -> (r: Result<Connection, KvError>)
    ensures
        r is Err ==> r->Err_0 is StorageOpen,
{
    Connection::open(path).map_err(|_| KvError::StorageOpen)
}

/// Relies on `rusqlite::Statement::query`: `sqlite_master` lists one row
/// of type `table` per existing table, and the NOCASE comparison finds the
/// stored name whatever its ASCII case — exactly membership of the
/// canonical name in `db_view`'s domain.
#[verifier::external_body]
pub(crate) fn table_exists(c: &Connection, table: &str) -> (r: Result<bool, KvError>)
    requires
        is_canonical_name(table@),
    ensures
        r is Ok ==> r->Ok_0 == db_view(*c).dom().contains(table@),
        r is Err ==> r->Err_0 is QueryPrepare || r->Err_0 is StorageIo,
{
    let sql = "select name from sqlite_master where type='table' and name = (?) collate nocase;";
    let mut stmt = c.prepare(sql).map_err(|_| KvError::QueryPrepare)?;
    let mut rows = stmt.query((table,)).map_err(|_| KvError::StorageIo)?;
    Ok(rows.next().map_err(|_| KvError::StorageIo)?.is_some())
}

/// Relies on `rusqlite::Connection::execute` running `create table if not
/// exists`: an absent table appears empty, an existing one — under any
/// ASCII case of the same name — is untouched.
#[verifier::external_body]
pub(crate) fn create_table(c: &mut Connection, table: &str) -> (r: Result<(), KvError>)
    requires
        is_canonical_name(table@),
    ensures
        r is Ok ==> db_view(*final(c)) == with_table(db_view(*old(c)), table@),
        r is Err ==> r->Err_0 is StorageIo && db_view(*final(c)) == db_view(*old(c)),
{
    let sql = format!(
        "create table if not exists \"{}\" ( key text NOT NULL, value text NOT NULL );",
        table.replace('"', "\"\""),
    );
    c.execute(&sql, ()).map_err(|_| KvError::StorageIo)?;
    Ok(())
}

/// Relies on `rusqlite::Statement::query_map` over `select ... where key =
/// (?) order by rowid`: the values of the rows carrying `key`, oldest
/// first; preparing the statement fails when no table resolves to the
/// name.
#[verifier::external_body]
pub(crate) fn rows_for_key(c: &Connection, table: &str, key: &str) -> (r: Result<
    Vec<String>,
    KvError,
>)
    requires
        is_canonical_name(table@),
    ensures
        r is Ok ==> db_view(*c).dom().contains(table@) && (r->Ok_0).deep_view()
            == values_for_key(db_view(*c)[table@], key@),
        r is Err ==> r->Err_0 is QueryPrepare || r->Err_0 is StorageIo,
{
    let sql = format!(
        "select value from \"{}\" where key = (?) order by rowid;",
        table.replace('"', "\"\""),
    );
    let mut stmt = c.prepare(&sql).map_err(|_| KvError::QueryPrepare)?;
    let rows = stmt.query_map((key,), |row| row.get::<_, String>(0)).map_err(
        |_| KvError::StorageIo,
    )?;
    let mut out: Vec<String> = Vec::new();
    for r in rows {
        out.push(r.map_err(|_| KvError::StorageIo)?);
    }
    Ok(out)
}

/// Relies on `rusqlite::Statement::query_map` over `select key, value ...
/// order by rowid`: every row of the table, oldest first; preparing the
/// statement fails when no table resolves to the name.
#[verifier::external_body]
pub(crate) fn all_rows(c: &Connection, table: &str) -> (r: Result<
    Vec<(String, String)>,
    KvError,
>)
    requires
        is_canonical_name(table@),
    ensures
        r is Ok ==> db_view(*c).dom().contains(table@) && (r->Ok_0).deep_view() == db_view(
            *c,
        )[table@],
        r is Err ==> r->Err_0 is QueryPrepare || r->Err_0 is StorageIo,
{
    let sql = format!(
        "select key, value from \"{}\" order by rowid;",
        table.replace('"', "\"\""),
    );
    let mut stmt = c.prepare(&sql).map_err(|_| KvError::QueryPrepare)?;
    let rows = stmt.query_map((), |row| {
        Ok((row.get::<_, String>(0)?, row.get::<_, String>(1)?))
    }).map_err(|_| KvError::StorageIo)?;
    let mut out: Vec<(String, String)> = Vec::new();
    for r in rows {
        out.push(r.map_err(|_| KvError::StorageIo)?);
    }
    Ok(out)
}

/// Relies on `rusqlite::Connection::execute` running `insert`: one new row
/// is appended and, rowids growing with write order, it sorts after every
/// existing row.
#[verifier::external_body]
pub(crate) fn insert_row(c: &mut Connection, table: &str, key: &str, value: &str) -> (r: Result<
    (),
    KvError,
>)
    requires
        is_canonical_name(table@),
        db_view(*old(c)).dom().contains(table@),
    ensures
        r is Ok ==> db_view(*final(c)) == db_view(*old(c)).insert(
            table@,
            db_view(*old(c))[table@].push((key@, value@)),
        ),
        r is Err ==> r->Err_0 is StorageIo && db_view(*final(c)) == db_view(*old(c)),
{
    let sql = format!(
        "insert into \"{}\" (key, value) values (?, ?);",
        table.replace('"', "\"\""),
    );
    c.execute(&sql, (key, value)).map_err(|_| KvError::StorageIo)?;
    Ok(())
}

/// Relies on `rusqlite::Connection::execute` running `update ... where key =
/// (?)`: every row carrying `key` gets the new value, rows and order are
/// otherwise untouched.
#[verifier::external_body]
pub(crate) fn update_rows(c: &mut Connection, table: &str, key: &str, value: &str) -> (r: Result<
    (),
    KvError,
>)
    requires
        is_canonical_name(table@),
        db_view(*old(c)).dom().contains(table@),
    ensures
        r is Ok ==> db_view(*final(c)) == db_view(*old(c)).insert(
            table@,
            update_all(db_view(*old(c))[table@], key@, value@),
        ),
        r is Err ==> r->Err_0 is StorageIo && db_view(*final(c)) == db_view(*old(c)),
{
    let sql = format!(
        "update \"{}\" set value = (?) where key = (?);",
        table.replace('"', "\"\""),
    );
    c.execute(&sql, (value, key)).map_err(|_| KvError::StorageIo)?;
    Ok(())
}

/// Relies on `rusqlite::Connection::execute` running `delete ... where key =
/// (?)`: every row carrying `key` is removed, the rest keep their order.
#[verifier::external_body]
pub(crate) fn delete_rows(c: &mut Connection, table: &str, key: &str) -> (r: Result<(), KvError>)
    requires
        is_canonical_name(table@),
        db_view(*old(c)).dom().contains(table@),
    ensures
        r is Ok ==> db_view(*final(c)) == db_view(*old(c)).insert(
            table@,
            table_after_delete(db_view(*old(c))[table@], key@),
        ),
        r is Err ==> r->Err_0 is StorageIo && db_view(*final(c)) == db_view(*old(c)),
{
    let sql = format!(
        "delete from \"{}\" where key = (?);",
        table.replace('"', "\"\""),
    );
    c.execute(&sql, (key,)).map_err(|_| KvError::StorageIo)?;
    Ok(())
}

/// Relies on `rusqlite::Statement::query_map` over `sqlite_master`: one
/// name per existing table, lower-cased by SQLite's ASCII-only `lower()`
/// into its canonical form — the canonical names are distinct because
/// SQLite refuses to create a table whose name differs from an existing
/// one only in ASCII case.
#[verifier::external_body]
pub(crate) fn list_tables(c: &Connection) -> (r: Result<Vec<String>, KvError>)
    ensures
        r is Ok ==> (r->Ok_0).deep_view().to_set() == db_view(*c).dom() && (
        r->Ok_0).deep_view().no_duplicates() && (forall|i: int|
            0 <= i < (r->Ok_0)@.len() ==> is_canonical_name(
                #[trigger] (r->Ok_0).deep_view()[i],
            )),
        r is Err ==> r->Err_0 is QueryPrepare || r->Err_0 is StorageIo,
{
    let sql = "select lower(name) from sqlite_master where type='table';";
    let mut stmt = c.prepare(sql).map_err(|_| KvError::QueryPrepare)?;
    let rows = stmt.query_map((), |row| row.get::<_, String>(0)).map_err(
        |_| KvError::StorageIo,
    )?;
    let mut out: Vec<String> = Vec::new();
    for r in rows {
        out.push(r.map_err(|_| KvError::StorageIo)?);
    }
    Ok(out)
}

/// Relies on `rusqlite::Connection::execute` running `delete ... where rowid
/// not in (select max(rowid) ... group by key)`: only the most recently
/// written row of each key survives, keeping its place among the survivors.
#[verifier::external_body]
pub(crate) fn dedup_table(c: &mut Connection, table: &str) -> (r: Result<(), KvError>)
    requires
        is_canonical_name(table@),
        db_view(*old(c)).dom().contains(table@),
    ensures
        r is Ok ==> db_view(*final(c)) == db_view(*old(c)).insert(
            table@,
            last_per_key(db_view(*old(c))[table@]),
        ),
        r is Err ==> r->Err_0 is StorageIo && db_view(*final(c)) == db_view(*old(c)),
{
    let sql = format!(
        "delete from \"{0}\" where rowid not in (select max(rowid) from \"{0}\" group by key);",
        table.replace('"', "\"\""),
    );
    c.execute(&sql, ()).map_err(|_| KvError::StorageIo)?;
    Ok(())
}

/// Relies on `rusqlite::Connection::execute` running `VACUUM`: storage is
/// reclaimed; tables, rows and their order are unchanged (the file is
/// rebuilt by copying each table's rows in rowid order), and a failed
/// VACUUM leaves the original file as it was.
#[verifier::external_body]
pub(crate) fn vacuum(c: &mut Connection) -> (r: Result<(), KvError>)
    ensures
        r is Ok ==> db_view(*final(c)) == db_view(*old(c)),
        r is Err ==> r->Err_0 is StorageIo && db_view(*final(c)) == db_view(*old(c)),
{
    c.execute("VACUUM;", ()).map_err(|_| KvError::StorageIo)?;
    Ok(())
}

} // verus!
