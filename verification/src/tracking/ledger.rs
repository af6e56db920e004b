//! The savings ledger.
use crate::tracking::clock;
use crate::tracking::clock::Instant;
use crate::tracking::database;
use crate::tracking::database::{Answer, Exchange, QueryError, Stage};
use crate::tracking::rows;
use crate::tracking::rows::Totals;
use crate::tracking::sql;
use crate::tracking::sql::{Cell, SqlValue, SqlView};
use crate::tracking::{ModelRow, Period, PeriodRow, ProviderRow, Record, Summary};
use vstd::prelude::*;

verus! {

// ---------------------------------------------------------------------------------------------
// Errors
// ---------------------------------------------------------------------------------------------

/// What is summed up row by row.
#[derive(Debug, Clone, Copy, PartialEq, Eq, Structural)]
pub enum Report {
    Provider,
    Model,
    Period,
}

/// What the ledger could not do.
#[derive(Debug, Clone, Copy, PartialEq, Eq, Structural)]
pub enum LedgerError {
    OpenInMemory,
    Open,
    Migrate,
    AgePrune,
    Count,
    CapPrune,
    Record,
    Summarize,
    Latency,
    Rows(Report, Stage),
}

/// What a report sums up.
pub open spec fn report_text(r: Report) -> Seq<char> {
    match r {
        Report::Provider => "provider summary"@,
        Report::Model => "model summary"@,
        Report::Period => "period summary"@,
    }
}

/// What could not be done to a report.
pub open spec fn stage_text(s: Stage) -> Seq<char> {
    match s {
        Stage::Prepare => "failed to prepare "@,
        Stage::Query => "failed to query "@,
        Stage::Read => "failed to read "@,
    }
}

/// The text of an error.
pub open spec fn error_text(e: LedgerError) -> Seq<char> {
    match e {
        LedgerError::OpenInMemory => "failed to open in-memory ledger"@,
        LedgerError::Open => "failed to open ledger"@,
        LedgerError::Migrate => "failed to migrate ledger schema"@,
        LedgerError::AgePrune => "failed to age-prune ledger"@,
        LedgerError::Count => "failed to count ledger rows"@,
        LedgerError::CapPrune => "failed to cap-prune ledger"@,
        LedgerError::Record => "failed to record compression"@,
        LedgerError::Summarize => "failed to summarize ledger"@,
        LedgerError::Latency => "failed to average compression latency"@,
        LedgerError::Rows(r, s) => stage_text(s) + report_text(r),
    }
}

impl LedgerError {
    /// The text of this error.
    pub fn message(&self) -> (r: String)
        ensures
            r@ == error_text(*self),
    {
        match *self {
            LedgerError::OpenInMemory => "failed to open in-memory ledger".to_owned(),
            LedgerError::Open => "failed to open ledger".to_owned(),
            LedgerError::Migrate => "failed to migrate ledger schema".to_owned(),
            LedgerError::AgePrune => "failed to age-prune ledger".to_owned(),
            LedgerError::Count => "failed to count ledger rows".to_owned(),
            LedgerError::CapPrune => "failed to cap-prune ledger".to_owned(),
            LedgerError::Record => "failed to record compression".to_owned(),
            LedgerError::Summarize => "failed to summarize ledger".to_owned(),
            LedgerError::Latency => "failed to average compression latency".to_owned(),
            LedgerError::Rows(report, stage) => {
                let mut out = match stage {
                    Stage::Prepare => "failed to prepare ".to_owned(),
                    Stage::Query => "failed to query ".to_owned(),
                    Stage::Read => "failed to read ".to_owned(),
                };
                out.append(
                    match report {
                        Report::Provider => "provider summary",
                        Report::Model => "model summary",
                        Report::Period => "period summary",
                    },
                );
                out
            },
        }
    }
}

// ---------------------------------------------------------------------------------------------
// What the answers mean
// ---------------------------------------------------------------------------------------------

/// An answer, as far as it is known which column is which.
pub open spec fn plain(a: Result<Vec<Vec<Cell>>, Stage>) -> Answer {
    match a {
        Ok(v) => Ok(sql::table_view(v@)),
        Err(stage) => Err(stage),
    }
}

/// An answer, or the point at which the query failed.
fn answered(r: Result<Vec<Vec<Cell>>, QueryError>) -> (a: Result<Vec<Vec<Cell>>, Stage>)
    ensures
        plain(a) == database::answer_of(r),
{
    match r {
        Ok(v) => Ok(v),
        Err(e) => Err(database::failed_at(e)),
    }
}

/// The number that an answer is, where it is one.
pub open spec fn counted(a: Answer) -> Option<i64> {
    match a {
        Ok(rs) => rows::count_in(rs),
        Err(_) => None,
    }
}

/// The number that an answer is, where it is one.
pub fn count(a: &Result<Vec<Vec<Cell>>, Stage>) -> (r: Option<i64>)
    ensures
        r == counted(plain(*a)),
{
    match a {
        Ok(v) => rows::count_of(v),
        Err(_) => None,
    }
}

/// The totals that an answer holds, where it holds any.
pub open spec fn totalled(a: Answer) -> Option<Totals> {
    match a {
        Ok(rs) => rows::totals_in(rs),
        Err(_) => None,
    }
}

/// The latency that an answer holds, where it holds any.
pub open spec fn timed(a: Answer) -> Option<(int, i64)> {
    match a {
        Ok(rs) => rows::latency_in(rs),
        Err(_) => None,
    }
}

/// What comes of the rows of the providers: each of them, or at which point they could not be had.
pub open spec fn providers_outcome(a: Answer, r: Result<Vec<ProviderRow>, LedgerError>) -> bool {
    match (a, r) {
        (Err(stage), Err(e)) => e == LedgerError::Rows(Report::Provider, stage),
        (Ok(rs), Ok(v)) => rows::providers_in(rs, v@),
        (Ok(rs), Err(e)) => rows::no_provider_in(rs) && e == LedgerError::Rows(
            Report::Provider,
            Stage::Read,
        ),
        (Err(_), Ok(_)) => false,
    }
}

/// The providers that an answer sums up.
pub fn provider_rows(a: Result<Vec<Vec<Cell>>, Stage>) -> (r: Result<Vec<ProviderRow>, LedgerError>)
    ensures
        providers_outcome(plain(a), r),
{
    match a {
        Ok(v) => match rows::providers_of(&v) {
            Some(out) => Ok(out),
            None => Err(LedgerError::Rows(Report::Provider, Stage::Read)),
        },
        Err(stage) => Err(LedgerError::Rows(Report::Provider, stage)),
    }
}

/// What comes of the rows of the models: each of them, or at which point they could not be had.
pub open spec fn models_outcome(a: Answer, r: Result<Vec<ModelRow>, LedgerError>) -> bool {
    match (a, r) {
        (Err(stage), Err(e)) => e == LedgerError::Rows(Report::Model, stage),
        (Ok(rs), Ok(v)) => rows::models_in(rs, v@),
        (Ok(rs), Err(e)) => rows::no_model_in(rs) && e == LedgerError::Rows(
            Report::Model,
            Stage::Read,
        ),
        (Err(_), Ok(_)) => false,
    }
}

/// The models that an answer sums up.
pub fn model_rows(a: Result<Vec<Vec<Cell>>, Stage>) -> (r: Result<Vec<ModelRow>, LedgerError>)
    ensures
        models_outcome(plain(a), r),
{
    match a {
        Ok(v) => match rows::models_of(&v) {
            Some(out) => Ok(out),
            None => Err(LedgerError::Rows(Report::Model, Stage::Read)),
        },
        Err(stage) => Err(LedgerError::Rows(Report::Model, stage)),
    }
}

/// What comes of the rows of the periods: each of them, or at which point they could not be had.
pub open spec fn periods_outcome(a: Answer, r: Result<Vec<PeriodRow>, LedgerError>) -> bool {
    match (a, r) {
        (Err(stage), Err(e)) => e == LedgerError::Rows(Report::Period, stage),
        (Ok(rs), Ok(v)) => rows::periods_in(rs, v@),
        (Ok(rs), Err(e)) => rows::no_period_in(rs) && e == LedgerError::Rows(
            Report::Period,
            Stage::Read,
        ),
        (Err(_), Ok(_)) => false,
    }
}

/// The periods that an answer sums up.
pub fn period_rows(a: Result<Vec<Vec<Cell>>, Stage>) -> (r: Result<Vec<PeriodRow>, LedgerError>)
    ensures
        periods_outcome(plain(a), r),
{
    match a {
        Ok(v) => match rows::periods_of(&v) {
            Some(out) => Ok(out),
            None => Err(LedgerError::Rows(Report::Period, Stage::Read)),
        },
        Err(stage) => Err(LedgerError::Rows(Report::Period, stage)),
    }
}

/// A summary says what the totals and the latency say, besides its providers.
pub open spec fn summary_of(s: Summary, totals: Totals, latency: (int, i64)) -> bool {
    &&& s.events == totals.events
    &&& s.input_before == totals.input_before
    &&& s.input_after == totals.input_after
    &&& s.any_approximate == (totals.approximate > 0)
    &&& s.output_before == totals.output_before
    &&& s.output_after == totals.output_after
    &&& s.output_events == totals.output_events
    &&& s.compress_micros == latency.0
    &&& s.compress_events == latency.1
}

/// The summary that the answers of the database make.
pub fn summarize(totals: Totals, providers: Vec<ProviderRow>, latency: (i128, i64)) -> (r: Summary)
    ensures
        summary_of(r, totals, (latency.0 as int, latency.1)),
        r.by_provider == providers,
{
    Summary {
        events: totals.events,
        input_before: totals.input_before,
        input_after: totals.input_after,
        any_approximate: totals.approximate > 0,
        by_provider: providers,
        output_before: totals.output_before,
        output_after: totals.output_after,
        output_events: totals.output_events,
        compress_micros: latency.0,
        compress_events: latency.1,
    }
}

/// What summing up the ledger asks and what comes of it, given the answers: the first failure, or the
/// summary.
pub open spec fn summed_up(
    log: Seq<Exchange>,
    r: Result<Summary, LedgerError>,
    totals: Answer,
    providers: Answer,
    latency: Answer,
) -> bool {
    let first = Exchange::Rows { sql: sql::TOTALS@, answer: totals };
    let second = Exchange::Rows { sql: sql::BY_PROVIDER@, answer: providers };
    let third = Exchange::Rows { sql: sql::LATENCY@, answer: latency };
    if totalled(totals) is None {
        log == seq![first] && r == Err::<Summary, LedgerError>(LedgerError::Summarize)
    } else if providers is Err || rows::no_provider_in(providers->Ok_0) {
        &&& log == seq![first, second]
        &&& r is Err
        &&& providers_outcome(providers, Err(r->Err_0))
    } else if timed(latency) is None {
        log == seq![first, second, third] && r == Err::<Summary, LedgerError>(LedgerError::Latency)
    } else {
        &&& log == seq![first, second, third]
        &&& r is Ok
        &&& summary_of(r->Ok_0, totalled(totals)->0, timed(latency)->0)
        &&& rows::providers_in(providers->Ok_0, r->Ok_0.by_provider@)
    }
}

/// The age in days that rows may have, where it is limited.
pub open spec fn retention_of(max_age_days: Option<i64>) -> Option<i64> {
    match max_age_days {
        Some(d) => if d > 0 {
            Some(d)
        } else {
            None
        },
        None => None,
    }
}

/// The age in days that rows may have, where it is limited.
pub fn retention(max_age_days: Option<i64>) -> (r: Option<i64>)
    ensures
        r == retention_of(max_age_days),
{
    match max_age_days {
        Some(d) => if d > 0 {
            Some(d)
        } else {
            None
        },
        None => None,
    }
}

/// What came back while the ledger was pruned; `None` for a failure.
#[derive(Debug, Clone, Copy, PartialEq, Eq, Structural)]
pub struct PruneReplies {
    /// Whether there is a point in time before which rows are old.
    pub cutoff: bool,
    /// How many old rows were deleted.
    pub aged: Option<usize>,
    /// How many rows were left.
    pub count: Option<i64>,
    /// How many rows over the cap were deleted.
    pub capped: Option<usize>,
}

/// The sum of two counts, as far as it can be written.
pub open spec fn sum_of(a: usize, b: usize) -> u64 {
    if a + b > u64::MAX {
        u64::MAX
    } else {
        (a + b) as u64
    }
}

/// What pruning comes to, given the answers: the first failure, or the number of deleted rows. Old
/// rows are asked for only where the age is limited and rows can be that old, and rows over the cap
/// only where there are any.
pub open spec fn pruned(max_rows: i64, max_age_days: Option<i64>, p: PruneReplies) -> Result<
    u64,
    LedgerError,
> {
    let limited = retention_of(max_age_days) is Some && p.cutoff;
    let aged = if limited && p.aged is Some {
        p.aged->0
    } else {
        0
    };
    if limited && p.aged is None {
        Err(LedgerError::AgePrune)
    } else if p.count is None {
        Err(LedgerError::Count)
    } else if p.count->0 <= max_rows {
        Ok(sum_of(aged, 0))
    } else if p.capped is None {
        Err(LedgerError::CapPrune)
    } else {
        Ok(sum_of(aged, p.capped->0))
    }
}

/// What pruning comes to, given the answers.
pub fn prune_outcome(max_rows: i64, max_age_days: Option<i64>, p: PruneReplies) -> (r: Result<
    u64,
    LedgerError,
>)
    ensures
        r == pruned(max_rows, max_age_days, p),
{
    let mut aged: usize = 0;
    if retention(max_age_days).is_some() && p.cutoff {
        match p.aged {
            Some(a) => {
                aged = a;
            },
            None => {
                return Err(LedgerError::AgePrune);
            },
        }
    }
    let n = match p.count {
        Some(n) => n,
        None => {
            return Err(LedgerError::Count);
        },
    };
    if n <= max_rows {
        return Ok(aged as u64);
    }
    match p.capped {
        Some(c) => {
            let wide: u128 = aged as u128 + c as u128;
            if wide > u64::MAX as u128 {
                Ok(u64::MAX)
            } else {
                Ok(wide as u64)
            }
        },
        None => Err(LedgerError::CapPrune),
    }
}

/// How many rows the cap leaves.
pub open spec fn cap_of(max_rows: i64) -> i64 {
    if max_rows < 0 {
        0
    } else {
        max_rows
    }
}

/// The question for how many rows there are.
pub open spec fn count_asked(answer: Answer) -> Exchange {
    Exchange::Rows { sql: sql::COUNT@, answer }
}

/// The deletion of the rows before `cutoff`.
pub open spec fn old_deleted(cutoff: Seq<char>, changed: Option<usize>) -> Exchange {
    Exchange::Run { sql: sql::DELETE_OLD@, values: seq![SqlView::Text(cutoff)], changed }
}

/// The deletion of all but the `cap` most recent rows.
pub open spec fn rest_deleted(cap: i64, changed: Option<usize>) -> Exchange {
    Exchange::Run { sql: sql::DELETE_OVER_CAP@, values: seq![SqlView::Int(cap)], changed }
}

/// What pruning asks, given the answers, where `cutoff` is the text of the oldest time that stays and
/// `answer` says how many rows there are.
pub open spec fn prune_log(
    max_rows: i64,
    max_age_days: Option<i64>,
    cutoff: Option<Seq<char>>,
    answer: Answer,
    p: PruneReplies,
) -> Seq<Exchange> {
    let limited = retention_of(max_age_days) is Some && cutoff is Some;
    let first = if limited {
        seq![old_deleted(cutoff->0, p.aged)]
    } else {
        Seq::<Exchange>::empty()
    };
    if limited && p.aged is None {
        first
    } else if p.count is None || p.count->0 <= max_rows {
        first.push(count_asked(answer))
    } else {
        first.push(count_asked(answer)).push(rest_deleted(cap_of(max_rows), p.capped))
    }
}

/// The cutoff is the text of the point in time that lies `max_age_days` days before `now`, and the
/// replies are what the answers say.
pub open spec fn cutoff_from(
    now: Instant,
    max_age_days: Option<i64>,
    cutoff: Option<Seq<char>>,
    answer: Answer,
    p: PruneReplies,
) -> bool {
    &&& clock::on_a_clock(now)
    &&& p.cutoff == (cutoff is Some)
    &&& p.count == counted(answer)
    &&& retention_of(max_age_days) matches Some(d) ==> cutoff == clock::cutoff_view(now, d)
}

// ---------------------------------------------------------------------------------------------
// The ledger
// ---------------------------------------------------------------------------------------------

/// How many of the most recent rows the ledger keeps unless it is told otherwise.
pub const DEFAULT_MAX_ROWS: i64 = 100_000;

/// The savings ledger.
pub struct Tracker {
    conn: rusqlite::Connection,
}

/// Making the table: the statement for the table, and where it ran, the one for the column that older
/// tables lack, whose failure is ignored.
pub open spec fn migration(log: Seq<Exchange>, ok: bool) -> bool {
    let table = Exchange::Batch { sql: sql::CREATE_TABLE@, ok };
    if ok {
        exists|changed: Option<usize>|
            log == #[trigger] seq![
                table,
                Exchange::Run { sql: sql::ADD_LATENCY@, values: Seq::empty(), changed },
            ]
    } else {
        log == seq![table]
    }
}

/// What was asked while the table was made.
pub open spec fn migrated(before: Seq<Exchange>, after: Seq<Exchange>, ok: bool) -> bool {
    exists|made: Seq<Exchange>| after == before + made && #[trigger] migration(made, ok)
}

proof fn lemma_first_migration(log: Seq<Exchange>)
    requires
        migrated(Seq::empty(), log, true),
    ensures
        migration(log, true),
{
    let made = choose|made: Seq<Exchange>|
        log == Seq::<Exchange>::empty() + made && #[trigger] migration(made, true);
    assert(Seq::<Exchange>::empty() + made =~= made);
}

impl Tracker {
    /// What the database was asked and what it answered, in order.
    pub closed spec fn log(&self) -> Seq<Exchange> {
        database::transcript(self.conn)
    }

    /// The path that the ledger was opened with; `None` for a ledger that was opened in memory.
    pub closed spec fn at(&self) -> Option<Seq<char>> {
        database::opened(self.conn)
    }

    /// Opens the ledger in the file at `path`, whose directory has to be there, and prunes it, as far
    /// as that succeeds.
    pub fn open_at(path: &str, retention_days: Option<i64>) -> (r: Result<Tracker, LedgerError>)
        ensures
            match r {
                Ok(t) => exists|
                    made: Seq<Exchange>,
                    now: Instant,
                    cutoff: Option<Seq<char>>,
                    answer: Answer,
                    p: PruneReplies,
                |
                    {
                        &&& #[trigger] migration(made, true)
                        &&& #[trigger] cutoff_from(now, retention_days, cutoff, answer, p)
                        &&& t.log() == made + prune_log(
                            DEFAULT_MAX_ROWS,
                            retention_days,
                            cutoff,
                            answer,
                            p,
                        )
                    },
                Err(e) => e == LedgerError::Open || e == LedgerError::Migrate,
            },
            r matches Ok(t) ==> t.at() == Some(path@),
    {
        let mut tracker = match Tracker::over(database::connect(path), LedgerError::Open) {
            Ok(t) => t,
            Err(e) => {
                return Err(e);
            },
        };
        let ghost made = tracker.log();
        proof {
            lemma_first_migration(made);
        }
        let _ = tracker.prune_default(retention_days);
        Ok(tracker)
    }

    /// Opens a ledger that lives in memory.
    pub fn open_in_memory() -> (r: Result<Tracker, LedgerError>)
        ensures
            match r {
                Ok(t) => migration(t.log(), true) && t.at() is None,
                Err(e) => e == LedgerError::OpenInMemory || e == LedgerError::Migrate,
            },
    {
        let r = Tracker::over(database::connect_in_memory(), LedgerError::OpenInMemory);
        proof {
            if r is Ok {
                lemma_first_migration(r->Ok_0.log());
            }
        }
        r
    }

    /// The ledger over a connection, or `refused` where there is none.
    pub fn over(conn: Result<rusqlite::Connection, rusqlite::Error>, refused: LedgerError) -> (r:
        Result<Tracker, LedgerError>)
        ensures
            match (conn, r) {
                (Err(_), Err(e)) => e == refused,
                (Err(_), Ok(_)) => false,
                (Ok(_), Err(e)) => e == LedgerError::Migrate,
                (Ok(c), Ok(t)) => migrated(database::transcript(c), t.log(), true) && t.at()
                    == database::opened(c),
            },
    {
        let mut tracker = match conn {
            Ok(conn) => Tracker { conn },
            Err(_) => {
                return Err(refused);
            },
        };
        match tracker.migrate() {
            Ok(()) => Ok(tracker),
            Err(e) => Err(e),
        }
    }

    /// Makes the table, and the column that older tables lack.
    fn migrate(&mut self) -> (r: Result<(), LedgerError>)
        ensures
            migrated(old(self).log(), final(self).log(), r is Ok),
            r matches Err(e) ==> e == LedgerError::Migrate,
            final(self).at() == old(self).at(),
    {
        match database::execute_batch(&mut self.conn, sql::CREATE_TABLE) {
            Ok(()) => {},
            Err(_) => {
                proof {
                    let made = seq![Exchange::Batch { sql: sql::CREATE_TABLE@, ok: false }];
                    assert(self.log() =~= old(self).log() + made);
                    assert(migration(made, false));
                }
                return Err(LedgerError::Migrate);
            },
        }
        let none: Vec<SqlValue> = Vec::new();
        assert(sql::values_view(none@) =~= Seq::<SqlView>::empty());
        let _done = database::execute(&mut self.conn, sql::ADD_LATENCY, &none);
        proof {
            let changed = database::value_of(_done);
            let made = seq![
                Exchange::Batch { sql: sql::CREATE_TABLE@, ok: true },
                Exchange::Run { sql: sql::ADD_LATENCY@, values: Seq::empty(), changed },
            ];
            assert(self.log() =~= old(self).log() + made);
            assert(migration(made, true));
        }
        Ok(())
    }

    /// Drops the rows that are older than `max_age_days` days, where that is set, and then all but
    /// the most recent `max_rows`. Gives the number of deleted rows.
    pub fn prune(&mut self, max_rows: i64, max_age_days: Option<i64>) -> (r: Result<
        u64,
        LedgerError,
    >)
        ensures
            exists|now: Instant, cutoff: Option<Seq<char>>, answer: Answer, p: PruneReplies|
                {
                    &&& #[trigger] cutoff_from(now, max_age_days, cutoff, answer, p)
                    &&& final(self).log() == old(self).log() + prune_log(
                        max_rows,
                        max_age_days,
                        cutoff,
                        answer,
                        p,
                    )
                    &&& r == pruned(max_rows, max_age_days, p)
                },
            final(self).at() == old(self).at(),
    {
        let ghost start = self.log();
        let mut p = PruneReplies { cutoff: false, aged: None, count: None, capped: None };
        let now = Instant::now();
        let ghost mut cut: Option<Seq<char>> = None;
        match retention(max_age_days) {
            Some(days) => match now.days_before(days) {
                Some(cutoff) => {
                    p.cutoff = true;
                    proof {
                        cut = Some(cutoff@);
                    }
                    let mut values: Vec<SqlValue> = Vec::new();
                    values.push(SqlValue::Text(cutoff));
                    assert(sql::values_view(values@) =~= seq![SqlView::Text(cut->0)]);
                    match database::execute(&mut self.conn, sql::DELETE_OLD, &values) {
                        Ok(n) => {
                            p.aged = Some(n);
                        },
                        Err(_) => {
                            let ghost none: Answer = Err(Stage::Prepare);
                            assert(cutoff_from(now, max_age_days, cut, none, p));
                            assert(self.log() =~= start + prune_log(
                                max_rows,
                                max_age_days,
                                cut,
                                none,
                                p,
                            ));
                            return prune_outcome(max_rows, max_age_days, p);
                        },
                    }
                },
                None => {},
            },
            None => {},
        }
        let answer = answered(database::query_rows(&mut self.conn, sql::COUNT));
        p.count = count(&answer);
        match p.count {
            Some(n) => {
                if n > max_rows {
                    let cap: i64 = if max_rows < 0 {
                        0
                    } else {
                        max_rows
                    };
                    let mut values: Vec<SqlValue> = Vec::new();
                    values.push(SqlValue::Int(cap));
                    assert(sql::values_view(values@) =~= seq![SqlView::Int(cap)]);
                    match database::execute(&mut self.conn, sql::DELETE_OVER_CAP, &values) {
                        Ok(n) => {
                            p.capped = Some(n);
                        },
                        Err(_) => {},
                    }
                }
            },
            None => {},
        }
        assert(cutoff_from(now, max_age_days, cut, plain(answer), p));
        assert(self.log() =~= start + prune_log(max_rows, max_age_days, cut, plain(answer), p));
        prune_outcome(max_rows, max_age_days, p)
    }

    /// Prunes by the default policy: the built-in cap, and the age that is configured.
    pub fn prune_default(&mut self, retention_days: Option<i64>) -> (r: Result<u64, LedgerError>)
        ensures
            exists|now: Instant, cutoff: Option<Seq<char>>, answer: Answer, p: PruneReplies|
                {
                    &&& #[trigger] cutoff_from(now, retention_days, cutoff, answer, p)
                    &&& final(self).log() == old(self).log() + prune_log(
                        DEFAULT_MAX_ROWS,
                        retention_days,
                        cutoff,
                        answer,
                        p,
                    )
                    &&& r == pruned(DEFAULT_MAX_ROWS, retention_days, p)
                },
            final(self).at() == old(self).at(),
    {
        self.prune(DEFAULT_MAX_ROWS, retention_days)
    }

    /// Records one compression, as of now.
    pub fn record(&mut self, r: &Record) -> (res: Result<(), LedgerError>)
        ensures
            exists|now: Instant|
                #[trigger] clock::on_a_clock(now) && recorded(
                    old(self).log(),
                    final(self).log(),
                    *r,
                    clock::rfc3339_text(now.secs, now.nanos)->0,
                    res,
                ),
            final(self).at() == old(self).at(),
    {
        let now = Instant::now();
        let ts = match now.to_rfc3339() {
            Some(ts) => ts,
            None => String::new(),
        };
        assert(clock::rfc3339_text(now.secs, now.nanos) == Some(ts@));
        self.record_with_ts(r, ts.as_str())
    }

    /// Records one compression, as of the time that `ts` writes.
    pub fn record_with_ts(&mut self, r: &Record, ts: &str) -> (res: Result<(), LedgerError>)
        ensures
            recorded(old(self).log(), final(self).log(), *r, ts@, res),
            final(self).at() == old(self).at(),
    {
        let done = database::execute(&mut self.conn, sql::INSERT, &sql::row(r, ts));
        let ghost changed = database::value_of(done);
        assert(self.log() == old(self).log().push(insertion(*r, ts@, changed)));
        match done {
            Ok(_) => Ok(()),
            Err(_) => Err(LedgerError::Record),
        }
    }

    /// Sums up the ledger.
    pub fn summary(&mut self) -> (r: Result<Summary, LedgerError>)
        ensures
            exists|log: Seq<Exchange>, totals: Answer, providers: Answer, latency: Answer|
                final(self).log() == old(self).log() + log && #[trigger] summed_up(
                    log,
                    r,
                    totals,
                    providers,
                    latency,
                ),
            final(self).at() == old(self).at(),
    {
        let ghost start = self.log();
        let ghost none: Answer = Err(Stage::Prepare);
        let first = answered(database::query_rows(&mut self.conn, sql::TOTALS));
        let ghost a1 = plain(first);
        let ghost e1 = Exchange::Rows { sql: sql::TOTALS@, answer: a1 };
        let found = match &first {
            Ok(v) => rows::totals_of(v),
            Err(_) => None,
        };
        let totals = match found {
            Some(t) => t,
            None => {
                let r = Err(LedgerError::Summarize);
                assert(self.log() =~= start + seq![e1]);
                assert(summed_up(seq![e1], r, a1, none, none));
                return r;
            },
        };
        let second = answered(database::query_rows(&mut self.conn, sql::BY_PROVIDER));
        let ghost a2 = plain(second);
        let ghost e2 = Exchange::Rows { sql: sql::BY_PROVIDER@, answer: a2 };
        let providers = match provider_rows(second) {
            Ok(p) => p,
            Err(e) => {
                let r = Err(e);
                assert(self.log() =~= start + seq![e1, e2]);
                assert(summed_up(seq![e1, e2], r, a1, a2, none));
                return r;
            },
        };
        proof {
            rows::lemma_all_or_some_provider(a2->Ok_0, providers@);
        }
        let third = answered(database::query_rows(&mut self.conn, sql::LATENCY));
        let ghost a3 = plain(third);
        let ghost e3 = Exchange::Rows { sql: sql::LATENCY@, answer: a3 };
        assert(self.log() =~= start + seq![e1, e2, e3]);
        let latency = match &third {
            Ok(v) => rows::latency_of(v),
            Err(_) => None,
        };
        let r = match latency {
            Some(l) => Ok(summarize(totals, providers, l)),
            None => Err(LedgerError::Latency),
        };
        assert(summed_up(seq![e1, e2, e3], r, a1, a2, a3));
        r
    }

    /// Sums up the rows of each provider and model.
    pub fn by_model(&mut self) -> (r: Result<Vec<ModelRow>, LedgerError>)
        ensures
            exists|answer: Answer|
                final(self).log() == old(self).log().push(#[trigger] models_asked(answer))
                    && models_outcome(answer, r),
            final(self).at() == old(self).at(),
    {
        let answer = answered(database::query_rows(&mut self.conn, sql::BY_MODEL));
        assert(self.log() == old(self).log().push(models_asked(plain(answer))));
        model_rows(answer)
    }

    /// Sums up the rows of each period, the oldest first.
    pub fn by_period(&mut self, period: Period) -> (r: Result<Vec<PeriodRow>, LedgerError>)
        ensures
            exists|answer: Answer|
                final(self).log() == old(self).log().push(#[trigger] periods_asked(period, answer))
                    && periods_outcome(answer, r),
            final(self).at() == old(self).at(),
    {
        let query = sql::by_period(period);
        let answer = answered(database::query_rows(&mut self.conn, query.as_str()));
        assert(self.log() == old(self).log().push(periods_asked(period, plain(answer))));
        period_rows(answer)
    }
}

/// The insertion of the row that records `r` at the time `ts`.
pub open spec fn insertion(r: Record, ts: Seq<char>, changed: Option<usize>) -> Exchange {
    Exchange::Run { sql: sql::INSERT@, values: sql::row_view(r, ts), changed }
}

/// Recording asks for the insertion of one row, and succeeds where that succeeds.
pub open spec fn recorded(
    before: Seq<Exchange>,
    after: Seq<Exchange>,
    r: Record,
    ts: Seq<char>,
    res: Result<(), LedgerError>,
) -> bool {
    exists|changed: Option<usize>|
        after == before.push(#[trigger] insertion(r, ts, changed)) && res == if changed is Some {
            Ok::<(), LedgerError>(())
        } else {
            Err::<(), LedgerError>(LedgerError::Record)
        }
}

/// The query for the totals of each model.
pub open spec fn models_asked(answer: Answer) -> Exchange {
    Exchange::Rows { sql: sql::BY_MODEL@, answer }
}

/// The query for the totals of each period.
pub open spec fn periods_asked(period: Period, answer: Answer) -> Exchange {
    Exchange::Rows { sql: sql::by_period_view(period), answer }
}

} // verus!
