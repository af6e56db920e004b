//! The database behind the ledger, and what is trusted of it.
//!
//! What a database holds rests on what is on disk and on who else writes to it, so nothing is said of
//! its answers. What is said is which path a connection was opened with, and that every question and
//! its answer go into the connection's transcript: the rest of the library can then say exactly what it asks, and what it makes of the
//! answers.
use crate::tracking::sql;
use crate::tracking::sql::{Cell, CellView, SqlValue, SqlView};
use rusqlite::types::Value;
use vstd::prelude::*;

verus! {

/// `rusqlite::Connection`: an open database.
#[verifier::external_type_specification]
#[verifier::external_body]
pub struct ExConnection(rusqlite::Connection);

/// `rusqlite::Error`: why the database did not do what it was asked.
#[verifier::external_type_specification]
#[verifier::external_body]
pub struct ExSqlError(rusqlite::Error);

// ---------------------------------------------------------------------------------------------
// Questions and answers
// ---------------------------------------------------------------------------------------------

/// At which point a query failed.
#[derive(Debug, Clone, Copy, PartialEq, Eq, Structural)]
pub enum Stage {
    Prepare,
    Query,
    Read,
}

/// Why the rows of a query could not be had.
pub enum QueryError {
    Prepare(rusqlite::Error),
    Query(rusqlite::Error),
    Read(rusqlite::Error),
}

/// A question to the database and its answer; `None` where it failed.
pub enum Exchange {
    /// A batch of statements, and whether it ran.
    Batch { sql: Seq<char>, ok: bool },
    /// A statement with its values, and how many rows it changed.
    Run { sql: Seq<char>, values: Seq<SqlView>, changed: Option<usize> },
    /// A query, and its rows or the point at which it failed.
    Rows { sql: Seq<char>, answer: Answer },
}

/// The rows that a query gave back, or the point at which it failed.
pub type Answer = Result<Seq<Seq<CellView>>, Stage>;

/// What a connection was asked and what it answered, in order.
pub uninterp spec fn transcript(c: rusqlite::Connection) -> Seq<Exchange>;

/// The path that a connection was opened with; `None` for one that was opened in memory.
pub uninterp spec fn opened(c: rusqlite::Connection) -> Option<Seq<char>>;

/// The point at which a query failed.
pub open spec fn stage_of(e: QueryError) -> Stage {
    match e {
        QueryError::Prepare(_) => Stage::Prepare,
        QueryError::Query(_) => Stage::Query,
        QueryError::Read(_) => Stage::Read,
    }
}

/// The point at which a query failed.
pub fn failed_at(e: QueryError) -> (r: Stage)
    ensures
        r == stage_of(e),
{
    match e {
        QueryError::Prepare(_) => Stage::Prepare,
        QueryError::Query(_) => Stage::Query,
        QueryError::Read(_) => Stage::Read,
    }
}

/// The value of a result, where it has one.
pub open spec fn value_of<T>(r: Result<T, rusqlite::Error>) -> Option<T> {
    match r {
        Ok(v) => Some(v),
        Err(_) => None,
    }
}

/// The rows of a query, or the point at which it failed.
pub open spec fn answer_of(r: Result<Vec<Vec<Cell>>, QueryError>) -> Answer {
    match r {
        Ok(v) => Ok(sql::table_view(v@)),
        Err(e) => Err(stage_of(e)),
    }
}

// ---------------------------------------------------------------------------------------------
// The connection
// ---------------------------------------------------------------------------------------------

/// `rusqlite::Connection::open_in_memory`: a new connection has been asked nothing, and was opened
/// with no path. Whether it opens rests on the machine.
#[verifier::external_body]
pub(crate) fn connect_in_memory() -> (r: Result<rusqlite::Connection, rusqlite::Error>)
    ensures
        r matches Ok(c) ==> transcript(c) == Seq::<Exchange>::empty() && opened(c) is None,
{
    rusqlite::Connection::open_in_memory()
}

/// `rusqlite::Connection::open`: a new connection has been asked nothing, and was opened with the
/// path. Whether it opens rests on what is on disk.
#[verifier::external_body]
pub(crate) fn connect(path: &str) -> (r: Result<rusqlite::Connection, rusqlite::Error>)
    ensures
        r matches Ok(c) ==> transcript(c) == Seq::<Exchange>::empty() && opened(c) == Some(path@),
{
    rusqlite::Connection::open(path)
}

/// `rusqlite::Connection::execute_batch`: the batch, and whether it ran, are the transcript's next
/// entry, and the connection stays the one that was opened. What the batch does rests on what the
/// database holds.
#[verifier::external_body]
pub(crate) fn execute_batch(conn: &mut rusqlite::Connection, statements: &str) -> (r: Result<
    (),
    rusqlite::Error,
>)
    ensures
        transcript(*final(conn)) == transcript(*old(conn)).push(
            Exchange::Batch { sql: statements@, ok: r is Ok },
        ),
        opened(*final(conn)) == opened(*old(conn)),
{
    conn.execute_batch(statements)
}

/// `rusqlite::Connection::execute`: the statement, its values and how many rows it changed are the
/// transcript's next entry, and the connection stays the one that was opened. How many that are rests
/// on what the database holds.
#[verifier::external_body]
pub(crate) fn execute(
    conn: &mut rusqlite::Connection,
    statement: &str,
    values: &Vec<SqlValue>,
) -> (r: Result<usize, rusqlite::Error>)
    ensures
        transcript(*final(conn)) == transcript(*old(conn)).push(
            Exchange::Run {
                sql: statement@,
                values: sql::values_view(values@),
                changed: value_of(r),
            },
        ),
        opened(*final(conn)) == opened(*old(conn)),
{
    conn.execute(
        statement,
        rusqlite::params_from_iter(
            values.iter().map(
                |v| match v {
                    SqlValue::Null => Value::Null,
                    SqlValue::Int(i) => Value::Integer(*i),
                    SqlValue::Text(s) => Value::Text(s.clone()),
                },
            ),
        ),
    )
}

/// `rusqlite::Connection::prepare` and `rusqlite::Statement::query_map`: the query and its rows, with
/// every value of a row as it comes, are the transcript's next entry, and the connection stays the one
/// that was opened. The rows rest on what the database holds.
#[verifier::external_body]
pub(crate) fn query_rows(conn: &mut rusqlite::Connection, query: &str) -> (r: Result<
    Vec<Vec<Cell>>,
    QueryError,
>)
    ensures
        transcript(*final(conn)) == transcript(*old(conn)).push(
            Exchange::Rows { sql: query@, answer: answer_of(r) },
        ),
        opened(*final(conn)) == opened(*old(conn)),
{
    let mut stmt = conn.prepare(query).map_err(QueryError::Prepare)?;
    let n = stmt.column_count();
    let rows = stmt.query_map([], |row| (0..n).map(|i| Ok(match row.get(i)? {
        Value::Null => Cell::Null,
        Value::Integer(x) => Cell::Int(x),
        Value::Real(_) => Cell::Other,
        Value::Text(s) => Cell::Text(s),
        Value::Blob(_) => Cell::Other,
    })).collect::<Result<Vec<Cell>, rusqlite::Error>>()).map_err(QueryError::Query)?;
    rows.collect::<Result<Vec<_>, _>>().map_err(QueryError::Read)
}

} // verus!
