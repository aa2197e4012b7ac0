//! The trusted surface over the external relational store. Each item here
//! wraps one interaction with rusqlite; everything above it is verified
//! against these contracts.

use vstd::prelude::*;

verus! {

#[verifier::external_type_specification]
#[verifier::external_body]
pub struct ExConnection(rusqlite::Connection);

#[verifier::external_type_specification]
#[verifier::external_body]
pub struct ExSqlError(rusqlite::Error);

/// Relies on rusqlite::Connection::open_in_memory: opens a fresh, empty
/// in-memory database owned by this process alone.
#[verifier::external_body]
pub(crate) fn open_memory_store() -> (r: Result<rusqlite::Connection, rusqlite::Error>) {
    rusqlite::Connection::open_in_memory()
}

/// Relies on rusqlite::Connection::execute, with params_from_iter binding
/// each value, in order, to one `?` placeholder of the statement; the store
/// decides whether it accepts the request.
#[verifier::external_body]
pub(crate) fn run_stmt(conn: &rusqlite::Connection, sql: &str, values: &Vec<String>) -> (r: Result<
    usize,
    rusqlite::Error,
>) {
    conn.execute(sql, rusqlite::params_from_iter(values.iter()))
}

/// Relies on rusqlite::Connection::prepare, Statement::query, Rows::next and
/// Row::get: runs one read query and hands back every result cell as text,
/// row by row, in the order the store returns them. Every row carries the
/// statement's column count, so all returned rows have one same length.
#[verifier::external_body]
pub(crate) fn fetch_rows(conn: &rusqlite::Connection, sql: &str) -> (r: Result<
    Vec<Vec<String>>,
    rusqlite::Error,
>)
    ensures
        r matches Ok(rows) ==> forall|i: int, j: int|
            0 <= i < rows@.len() && 0 <= j < rows@.len() ==> rows@[i]@.len() == rows@[j]@.len(),
{
    let mut stmt = conn.prepare(sql)?;
    let ncols = stmt.column_count();
    let mut rows = stmt.query([])?;
    let mut out: Vec<Vec<String>> = Vec::new();
    loop {
        let row = match rows.next()? {
            Some(r) => r,
            None => return Ok(out),
        };
        let mut cells: Vec<String> = Vec::new();
        for i in 0..ncols {
            cells.push(row.get(i)?);
        }
        out.push(cells);
    }
}

/// Relies on the Display impl of rusqlite::Error: the store's own words for
/// a rejected request.
#[verifier::external_body]
pub(crate) fn store_error_text(e: &rusqlite::Error) -> (r: String) {
    format!("{}", e)
}

} // verus!
