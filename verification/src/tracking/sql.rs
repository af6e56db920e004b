//! The statements that the ledger runs, and the values that go into them.
use crate::tracking;
use crate::tracking::{Period, Record};
use vstd::prelude::*;

verus! {

/// A value that a statement takes.
#[derive(Debug, PartialEq)]
pub enum SqlValue {
    Null,
    Int(i64),
    Text(String),
}

/// A value with its text as a sequence of characters.
pub enum SqlView {
    Null,
    Int(i64),
    Text(Seq<char>),
}

impl View for SqlValue {
    type V = SqlView;

    open spec fn view(&self) -> SqlView {
        match self {
            SqlValue::Null => SqlView::Null,
            SqlValue::Int(i) => SqlView::Int(*i),
            SqlValue::Text(s) => SqlView::Text(s@),
        }
    }
}

/// The views of a list of values.
pub open spec fn values_view(v: Seq<SqlValue>) -> Seq<SqlView> {
    v.map_values(|x: SqlValue| x@)
}

/// A value of a row that a query gives back.
#[derive(Debug, PartialEq)]
pub enum Cell {
    Null,
    Int(i64),
    Text(String),
    /// A number that is no integer, or bytes: the ledger keeps neither.
    Other,
}

/// A value of a row with its text as a sequence of characters.
pub enum CellView {
    Null,
    Int(i64),
    Text(Seq<char>),
    Other,
}

impl View for Cell {
    type V = CellView;

    open spec fn view(&self) -> CellView {
        match self {
            Cell::Null => CellView::Null,
            Cell::Int(i) => CellView::Int(*i),
            Cell::Text(s) => CellView::Text(s@),
            Cell::Other => CellView::Other,
        }
    }
}

/// The views of the values of a row.
pub open spec fn cells_view(row: Seq<Cell>) -> Seq<CellView> {
    row.map_values(|c: Cell| c@)
}

/// The views of a list of rows.
pub open spec fn table_view(rows: Seq<Vec<Cell>>) -> Seq<Seq<CellView>> {
    rows.map_values(|row: Vec<Cell>| cells_view(row@))
}

/// Makes the table, unless it is there.
pub const CREATE_TABLE: &'static str = "CREATE TABLE IF NOT EXISTS compressions (
    id            INTEGER PRIMARY KEY,
    ts            TEXT NOT NULL,
    provider      TEXT NOT NULL,
    model         TEXT,
    tokenizer     TEXT NOT NULL,
    exact         INTEGER NOT NULL,
    input_before  INTEGER NOT NULL,
    input_after   INTEGER NOT NULL,
    output_before INTEGER,
    output_after  INTEGER,
    compress_micros INTEGER
);";

/// Adds the column for latency to a table that was made before there was one. It fails where the
/// column is there, and that is fine.
pub const ADD_LATENCY: &'static str = "ALTER TABLE compressions ADD COLUMN compress_micros INTEGER";

/// Adds one row.
pub const INSERT: &'static str = "INSERT INTO compressions
    (ts, provider, model, tokenizer, exact, input_before, input_after,
     output_before, output_after, compress_micros)
 VALUES (?1, ?2, ?3, ?4, ?5, ?6, ?7, ?8, ?9, ?10)";

/// Drops the rows before a point in time. The texts of points in time sort like the points.
pub const DELETE_OLD: &'static str = "DELETE FROM compressions WHERE ts < ?1";

/// Counts the rows.
pub const COUNT: &'static str = "SELECT COUNT(*) FROM compressions";

/// Drops all but the most recent rows, the ones with the highest ids.
pub const DELETE_OVER_CAP: &'static str =
    "DELETE FROM compressions WHERE id NOT IN (SELECT id FROM compressions ORDER BY id DESC LIMIT ?1)";

/// Sums up all rows.
pub const TOTALS: &'static str = "SELECT COUNT(*),
        COALESCE(SUM(input_before), 0),
        COALESCE(SUM(input_after), 0),
        COALESCE(SUM(CASE WHEN exact = 0 THEN 1 ELSE 0 END), 0),
        COALESCE(SUM(output_before), 0),
        COALESCE(SUM(output_after), 0),
        COALESCE(SUM(CASE WHEN output_after IS NOT NULL THEN 1 ELSE 0 END), 0)
 FROM compressions";

/// Sums up the rows of each provider.
pub const BY_PROVIDER: &'static str = "SELECT provider, COUNT(*),
        COALESCE(SUM(input_before), 0),
        COALESCE(SUM(input_after), 0),
        MIN(exact),
        COALESCE(SUM(output_before), 0),
        COALESCE(SUM(output_after), 0),
        COALESCE(SUM(CASE WHEN output_after IS NOT NULL THEN 1 ELSE 0 END), 0)
 FROM compressions GROUP BY provider ORDER BY provider";

/// Sums up the latency of the rows that have one, and counts them. The upper and the lower halves are
/// summed up apart, so that neither sum runs over.
pub const LATENCY: &'static str = "SELECT COALESCE(SUM(compress_micros >> 32), 0),
        COALESCE(SUM(compress_micros & 4294967295), 0),
        COUNT(compress_micros)
 FROM compressions";

/// Sums up the rows of each model.
pub const BY_MODEL: &'static str = "SELECT provider, model, COUNT(*),
        COALESCE(SUM(input_before), 0),
        COALESCE(SUM(input_after), 0),
        COALESCE(SUM(output_after), 0)
 FROM compressions GROUP BY provider, model ORDER BY provider, model";

/// What follows the bucket in the statement that sums up the rows of each period.
pub const BY_PERIOD_REST: &'static str = " AS bucket, COUNT(*),
        COALESCE(SUM(input_before), 0),
        COALESCE(SUM(input_after), 0),
        COALESCE(SUM(output_before), 0),
        COALESCE(SUM(output_after), 0)
 FROM compressions GROUP BY bucket ORDER BY bucket";

/// The statement that sums up the rows of each period.
pub open spec fn by_period_view(period: Period) -> Seq<char> {
    "SELECT "@ + tracking::sql_bucket_view(period) + BY_PERIOD_REST@
}

/// The statement that sums up the rows of each period.
pub fn by_period(period: Period) -> (r: String)
    ensures
        r@ == by_period_view(period),
{
    let mut out = "SELECT ".to_owned();
    out.append(period.sql_bucket());
    out.append(BY_PERIOD_REST);
    out
}

/// An optional text as a value.
pub open spec fn text_or_null(s: Option<String>) -> SqlView {
    match s {
        Some(t) => SqlView::Text(t@),
        None => SqlView::Null,
    }
}

/// An optional number as a value.
pub open spec fn int_or_null(n: Option<i64>) -> SqlView {
    match n {
        Some(i) => SqlView::Int(i),
        None => SqlView::Null,
    }
}

/// The values of the row that records `r` at the time `ts`, in the order in which [`INSERT`] takes
/// them.
pub open spec fn row_view(r: Record, ts: Seq<char>) -> Seq<SqlView> {
    seq![
        SqlView::Text(ts),
        SqlView::Text(r.provider@),
        text_or_null(r.model),
        SqlView::Text(r.tokenizer@),
        SqlView::Int(
            if r.exact {
                1
            } else {
                0
            },
        ),
        SqlView::Int(r.input_before),
        SqlView::Int(r.input_after),
        int_or_null(r.output_before),
        int_or_null(r.output_after),
        int_or_null(r.compress_micros),
    ]
}

fn optional_int(n: Option<i64>) -> (r: SqlValue)
    ensures
        r@ == int_or_null(n),
{
    match n {
        Some(i) => SqlValue::Int(i),
        None => SqlValue::Null,
    }
}

fn optional_text(s: &Option<String>) -> (r: SqlValue)
    ensures
        r@ == text_or_null(*s),
{
    match s {
        Some(t) => SqlValue::Text(t.clone()),
        None => SqlValue::Null,
    }
}

/// The values of the row that records `r` at the time `ts`.
pub fn row(r: &Record, ts: &str) -> (v: Vec<SqlValue>)
    ensures
        values_view(v@) == row_view(*r, ts@),
{
    let mut v: Vec<SqlValue> = Vec::new();
    v.push(SqlValue::Text(ts.to_owned()));
    v.push(SqlValue::Text(r.provider.clone()));
    v.push(optional_text(&r.model));
    v.push(SqlValue::Text(r.tokenizer.clone()));
    v.push(SqlValue::Int(if r.exact { 1 } else { 0 }));
    v.push(SqlValue::Int(r.input_before));
    v.push(SqlValue::Int(r.input_after));
    v.push(optional_int(r.output_before));
    v.push(optional_int(r.output_after));
    v.push(optional_int(r.compress_micros));
    assert(values_view(v@) =~= row_view(*r, ts@));
    v
}

} // verus!
