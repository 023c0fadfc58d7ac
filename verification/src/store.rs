//! The record store: a durable table of task records behind a SQLite
//! connection, with insert, lookup, existence checks and deletion.
//!
//! The stored table is modelled as the sequence of its rows in ascending
//! identifier order; `db_rows` names that sequence and `db_next_id` the
//! identifier the next insert will be assigned.

use vstd::prelude::*;
use rusqlite::Connection;
use crate::schedule::{agenda_model, entries_for, has_date, recs_view, render_schedule, Entry, Record};

verus! {

#[verifier::external_type_specification]
#[verifier::external_body]
pub struct ExConnection(Connection);

#[verifier::external_type_specification]
#[verifier::external_body]
pub struct ExSqlError(rusqlite::Error);

/// The rows of the `events` table behind `conn`, in ascending identifier
/// order, each as (identifier, date, hour, task).
pub uninterp spec fn db_rows(conn: Connection) -> Seq<Entry>;

/// The identifier that the next inserted row will be assigned.
pub uninterp spec fn db_next_id(conn: Connection) -> int;

/// The error a store operation surfaces: the underlying storage failure.
#[derive(Debug)]
pub enum AppError {
    /// A failure reported by the SQLite layer.
    RSQLError(rusqlite::Error),
}

/// Whether an entry carries both the given date and the given identifier.
pub open spec fn matches_pair(e: Entry, date: Seq<char>, id: int) -> bool {
    e.1 == date && e.0 == id
}

/// The entries of `rows` matching the (date, identifier) pair.
pub open spec fn entries_at(rows: Seq<Entry>, date: Seq<char>, id: int) -> Seq<Entry> {
    rows.filter(|e: Entry| matches_pair(e, date, id))
}

/// Whether some entry matches the (date, identifier) pair.
pub open spec fn has_pair(rows: Seq<Entry>, date: Seq<char>, id: int) -> bool {
    entries_at(rows, date, id).len() > 0
}

/// The table after appending one fresh row.
pub open spec fn insert_model(rows: Seq<Entry>, e: Entry) -> Seq<Entry> {
    rows.push(e)
}

/// The table after erasing every row matching the (date, identifier) pair.
pub open spec fn delete_model(rows: Seq<Entry>, date: Seq<char>, id: int) -> Seq<Entry> {
    rows.filter(|e: Entry| !matches_pair(e, date, id))
}

/// Relies on rusqlite's `Connection::open_with_flags`: it opens the database
/// file, creating it when absent, and touches no table.
#[verifier::external_body]
fn open_db(path: &str) -> (r: Result<Connection, rusqlite::Error>) {
    rusqlite::Connection::open_with_flags(
        path,
        rusqlite::OpenFlags::SQLITE_OPEN_READ_WRITE | rusqlite::OpenFlags::SQLITE_OPEN_CREATE,
    )
}

/// Relies on rusqlite's `Connection::execute` running
/// `CREATE TABLE IF NOT EXISTS`: on success the table exists, and an already
/// existing table keeps its rows and its identifier counter untouched.
#[verifier::external_body]
fn create_events_table(conn: &mut Connection) -> (r: Result<(), rusqlite::Error>)
    ensures
        r is Ok ==> db_rows(*final(conn)) == db_rows(*old(conn)) && db_next_id(*final(conn))
            == db_next_id(*old(conn)),
{
    let res = conn.execute(
        "CREATE TABLE IF NOT EXISTS events (
            id   INTEGER PRIMARY KEY AUTOINCREMENT,
            date TEXT,
            hour TEXT,
            task TEXT
        )",
        (),
    );
    match res {
        Ok(_) => Ok(()),
        Err(e) => Err(e),
    }
}

/// Relies on rusqlite's `Connection::execute` running an `INSERT` on a table
/// whose key is `INTEGER PRIMARY KEY AUTOINCREMENT`: SQLite keeps the next
/// identifier above every identifier ever used — so it exceeds every stored
/// one — assigns it to the new row, which is thereby appended at the end in
/// identifier order, and moves the counter up by exactly one.
#[verifier::external_body]
fn insert_row(conn: &mut Connection, date: &str, hour: &str, task: &str) -> (r: Result<
    (),
    rusqlite::Error,
>)
    ensures
        r is Ok ==> db_rows(*final(conn)) == insert_model(
            db_rows(*old(conn)),
            (db_next_id(*old(conn)), date@, hour@, task@),
        ) && db_next_id(*final(conn)) == db_next_id(*old(conn)) + 1 && (forall|i: int|
            0 <= i < db_rows(*old(conn)).len() ==> (#[trigger] db_rows(*old(conn))[i]).0
                < db_next_id(*old(conn))),
{
    let res = conn.execute(
        "INSERT OR REPLACE INTO events (date, hour, task) VALUES (?1, ?2, ?3)",
        (date, hour, task),
    );
    match res {
        Ok(_) => Ok(()),
        Err(e) => Err(e),
    }
}

/// Relies on rusqlite's `Statement::query_map` over a `SELECT ... WHERE date
/// = ?1 ORDER BY id`: it yields exactly the rows with that date, ascending by
/// identifier, each column read back as it was stored.
#[verifier::external_body]
fn select_rows_by_date(conn: &Connection, date: &str) -> (r: Result<Vec<Record>, rusqlite::Error>)
    ensures
        r matches Ok(v) ==> recs_view(v@) == entries_for(db_rows(*conn), date@),
{
    let mut stmt = conn.prepare(
        "SELECT id, date, hour, task FROM events WHERE date = ?1 ORDER BY id",
    )?;
    let rows = stmt.query_map([date], |row| {
        Ok(Record { id: row.get(0)?, date: row.get(1)?, hour: row.get(2)?, task: row.get(3)? })
    })?;
    let mut out = Vec::new();
    for r in rows {
        out.push(r?);
    }
    Ok(out)
}

/// Relies on rusqlite's `Statement::exists` over a `SELECT ... WHERE date =
/// ?1`: true exactly when some row carries that date.
#[verifier::external_body]
fn exists_for_date(conn: &Connection, date: &str) -> (r: Result<bool, rusqlite::Error>)
    ensures
        r matches Ok(b) ==> b == has_date(db_rows(*conn), date@),
{
    let mut stmt = conn.prepare("SELECT id FROM events WHERE date = ?1")?;
    stmt.exists([date])
}

/// Relies on rusqlite's `Statement::exists` over a `SELECT ... WHERE date =
/// ?1 AND id = ?2`: true exactly when some row carries that date and that
/// identifier.
#[verifier::external_body]
fn exists_for_pair(conn: &Connection, date: &str, id: i64) -> (r: Result<bool, rusqlite::Error>)
    ensures
        r matches Ok(b) ==> b == has_pair(db_rows(*conn), date@, id as int),
{
    let mut stmt = conn.prepare("SELECT id FROM events WHERE date = ?1 AND id = ?2")?;
    stmt.exists((date, id))
}

/// Relies on rusqlite's `Connection::execute` running a `DELETE ... WHERE
/// date = ?1 AND id = ?2`: exactly the matching rows disappear, and with
/// `AUTOINCREMENT` the identifier counter never moves back.
#[verifier::external_body]
fn delete_pair(conn: &mut Connection, date: &str, id: i64) -> (r: Result<(), rusqlite::Error>)
    ensures
        r is Ok ==> db_rows(*final(conn)) == delete_model(
            db_rows(*old(conn)),
            date@,
            id as int,
        ) && db_next_id(*final(conn)) == db_next_id(*old(conn)),
{
    let res = conn.execute(
        "DELETE FROM events WHERE date = ?1 AND id = ?2",
        (date, id),
    );
    match res {
        Ok(_) => Ok(()),
        Err(e) => Err(e),
    }
}

/// Idempotently ensure the `events` table exists behind `conn`; existing
/// records are never discarded.
pub fn ensure_events_table(conn: &mut Connection) -> (r: Result<(), AppError>)
    ensures
        r is Ok ==> db_rows(*final(conn)) == db_rows(*old(conn)) && db_next_id(*final(conn))
            == db_next_id(*old(conn)),
{
    match create_events_table(conn) {
        Ok(()) => Ok(()),
        Err(e) => Err(AppError::RSQLError(e)),
    }
}

/// Open (creating it when absent) the database at `db_path` and idempotently
/// ensure the `events` table exists in it, through `ensure_events_table`,
/// whose contract states that existing records survive. The table lives at a
/// path outside the model, so nothing further is statable here.
pub fn db_setup(db_path: &str) -> (r: Result<(), AppError>) {
    let conn = match open_db(db_path) {
        Ok(c) => c,
        Err(e) => {
            return Err(AppError::RSQLError(e));
        },
    };
    let mut conn = conn;
    ensure_events_table(&mut conn)
}

/// Append a new record with a fresh identifier — one above every stored
/// identifier, never reused; repeated identical inserts add further rows
/// rather than replacing earlier ones.
pub fn db_writer(conn: &mut Connection, date: String, hour: String, task: String) -> (r: Result<
    (),
    AppError,
>)
    ensures
        r is Ok ==> db_rows(*final(conn)) == insert_model(
            db_rows(*old(conn)),
            (db_next_id(*old(conn)), date@, hour@, task@),
        ) && db_next_id(*final(conn)) == db_next_id(*old(conn)) + 1 && (forall|i: int|
            0 <= i < db_rows(*old(conn)).len() ==> (#[trigger] db_rows(*old(conn))[i]).0
                < db_next_id(*old(conn))),
{
    match insert_row(conn, date.as_str(), hour.as_str(), task.as_str()) {
        Ok(()) => Ok(()),
        Err(e) => Err(AppError::RSQLError(e)),
    }
}

/// Whether at least one record lies on the given date.
pub fn db_verify(conn: &Connection, x: &str) -> (r: Result<bool, AppError>)
    ensures
        r matches Ok(b) ==> b == has_date(db_rows(*conn), x@),
{
    match exists_for_date(conn, x) {
        Ok(b) => Ok(b),
        Err(e) => Err(AppError::RSQLError(e)),
    }
}

/// Whether a record matches both the date and the identifier; the pre-check
/// before a deletion.
pub fn db_verify_eraser(conn: &Connection, date: &String, id: i64) -> (r: Result<bool, AppError>)
    ensures
        r matches Ok(b) ==> b == has_pair(db_rows(*conn), date@, id as int),
{
    match exists_for_pair(conn, date.as_str(), id) {
        Ok(b) => Ok(b),
        Err(e) => Err(AppError::RSQLError(e)),
    }
}

/// Erase every record matching the (date, identifier) pair; a no-op when
/// none matches. Erased identifiers are never handed out again.
pub fn db_eraser(conn: &mut Connection, date: String, id: i64) -> (r: Result<(), AppError>)
    ensures
        r is Ok ==> db_rows(*final(conn)) == delete_model(
            db_rows(*old(conn)),
            date@,
            id as int,
        ) && db_next_id(*final(conn)) == db_next_id(*old(conn)),
{
    match delete_pair(conn, date.as_str(), id) {
        Ok(()) => Ok(()),
        Err(e) => Err(AppError::RSQLError(e)),
    }
}

/// Render the schedule for date `x`: `NONE` when no record lies on it, else
/// one line per record in display order.
pub fn db_reader(conn: &Connection, x: &str) -> (r: Result<String, AppError>)
    ensures
        r matches Ok(s) ==> s@ == agenda_model(db_rows(*conn), x@),
{
    let has = match db_verify(conn, x) {
        Ok(b) => b,
        Err(e) => {
            return Err(e);
        },
    };
    if has {
        let recs = match select_rows_by_date(conn, x) {
            Ok(v) => v,
            Err(e) => {
                return Err(AppError::RSQLError(e));
            },
        };
        Ok(render_schedule(&recs))
    } else {
        let s = String::from_str("NONE");
        proof {
            reveal_strlit("NONE");
            assert(s@ =~= crate::schedule::none_text());
        }
        Ok(s)
    }
}

/// Filtering keeps a sequence whole when every element passes.
proof fn lemma_filter_all_pass(s: Seq<Entry>, pred: spec_fn(Entry) -> bool)
    requires
        forall|i: int| 0 <= i < s.len() ==> pred(#[trigger] s[i]),
    ensures
        s.filter(pred) == s,
    decreases s.len(),
{
    reveal(Seq::filter);
    if s.len() > 0 {
        lemma_filter_all_pass(s.drop_last(), pred);
        assert(s.filter(pred) =~= s.drop_last().push(s.last()));
        assert(s.drop_last().push(s.last()) =~= s);
    }
}

/// Filtering empties a sequence when no element passes.
proof fn lemma_filter_none_pass(s: Seq<Entry>, pred: spec_fn(Entry) -> bool)
    requires
        forall|i: int| 0 <= i < s.len() ==> !pred(#[trigger] s[i]),
    ensures
        s.filter(pred).len() == 0,
    decreases s.len(),
{
    reveal(Seq::filter);
    if s.len() > 0 {
        lemma_filter_none_pass(s.drop_last(), pred);
    }
}

/// When no entry matches the pair, every entry fails the match predicate.
proof fn lemma_no_pair_pointwise(rows: Seq<Entry>, date: Seq<char>, id: int)
    requires
        !has_pair(rows, date, id),
    ensures
        forall|i: int| 0 <= i < rows.len() ==> !matches_pair(#[trigger] rows[i], date, id),
{
    assert forall|i: int| 0 <= i < rows.len() implies !matches_pair(
        #[trigger] rows[i],
        date,
        id,
    ) by {
        if matches_pair(rows[i], date, id) {
            rows.lemma_filter_contains(|e: Entry| matches_pair(e, date, id), i);
        }
    }
}

/// Law: erasing a (date, identifier) pair that no record carries leaves the
/// table exactly as it was.
pub proof fn lemma_delete_missing_is_noop(rows: Seq<Entry>, date: Seq<char>, id: int)
    requires
        !has_pair(rows, date, id),
    ensures
        delete_model(rows, date, id) == rows,
{
    lemma_no_pair_pointwise(rows, date, id);
    lemma_filter_all_pass(rows, |e: Entry| !matches_pair(e, date, id));
}

/// Law: inserting a record and then erasing it by its (date, identifier)
/// pair removes it from the table — and when its identifier was fresh, as
/// the store always assigns, the table returns to exactly its prior rows, so
/// every later render of that date is as if the insert had never happened.
pub proof fn lemma_insert_then_delete(
    rows: Seq<Entry>,
    date: Seq<char>,
    hour: Seq<char>,
    task: Seq<char>,
    id: int,
)
    ensures
        delete_model(insert_model(rows, (id, date, hour, task)), date, id) == delete_model(
            rows,
            date,
            id,
        ),
        !has_pair(delete_model(insert_model(rows, (id, date, hour, task)), date, id), date, id),
        !has_pair(rows, date, id) ==> delete_model(
            insert_model(rows, (id, date, hour, task)),
            date,
            id,
        ) == rows,
{
    let e = (id, date, hour, task);
    let keep = |x: Entry| !matches_pair(x, date, id);
    rows.lemma_filter_push(e, keep);
    assert(delete_model(insert_model(rows, e), date, id) == delete_model(rows, date, id));
    let remaining = delete_model(rows, date, id);
    assert forall|i: int| 0 <= i < remaining.len() implies !matches_pair(
        #[trigger] remaining[i],
        date,
        id,
    ) by {
        rows.lemma_filter_pred(keep, i);
    }
    lemma_filter_none_pass(remaining, |x: Entry| matches_pair(x, date, id));
    if !has_pair(rows, date, id) {
        lemma_delete_missing_is_noop(rows, date, id);
    }
}

} // verus!
