//! What holds of the ledger's place, its times, its failures and what it makes of single rows.
use crate::text;
use crate::tracking;
use crate::tracking::clock;
use crate::tracking::clock::Instant;
use crate::tracking::database::{Answer, Exchange, Stage};
use crate::tracking::laws;
use crate::tracking::laws::Entry;
use crate::tracking::ledger;
use crate::tracking::ledger::{LedgerError, PruneReplies, Report};
use crate::tracking::rows;
use crate::tracking::sql;
use crate::tracking::sql::{CellView, SqlView};
use crate::tracking::{ModelRow, Period, PeriodRow, Record, Summary};
use vstd::prelude::*;

verus! {

/// The path that is set goes before any other; else the file is under the data directory, else under
/// the home directory, whichever variable names it; without any of them there is no path.
pub proof fn law_the_ledger_has_one_place(
    p: Seq<char>,
    data: Option<Seq<char>>,
    home: Option<Seq<char>>,
    user: Option<Seq<char>>,
)
    ensures
        tracking::db_path_view(Some(p), data, home, user) == Some(seq![p]),
        tracking::db_path_view(None, Some(p), home, user) == Some(
            seq![p, "llmtrim"@, "tracking.db"@],
        ),
        tracking::db_path_view(None, None, Some(p), user) == Some(
            seq![p, ".local/share"@, "llmtrim"@, "tracking.db"@],
        ),
        tracking::db_path_view(None, None, None, Some(p)) == tracking::db_path_view(
            None,
            None,
            Some(p),
            None,
        ),
        tracking::db_path_view(None, None, None, None) is None,
{
}

/// What was saved and what is left make up what there was; where there was nothing there is no
/// fraction.
pub proof fn law_saved_and_left_make_the_whole(before: i64, after: i64)
    requires
        before - after <= i64::MAX,
    ensures
        before <= 0 ==> tracking::fraction_saved(before, after) is None,
        before > 0 ==> (match tracking::fraction_saved(before, after) {
            Some((saved, whole)) => saved + after == before && whole == before,
            None => false,
        }),
{
}

/// An age limits only where it is a number of days above zero, and a cap below zero leaves no row.
pub proof fn law_limits_are_positive(d: i64, max_rows: i64)
    ensures
        ledger::retention_of(Some(d)) is Some <==> d > 0,
        d > 0 ==> ledger::retention_of(Some(d)) == Some(d),
        ledger::retention_of(None) is None,
        max_rows >= 0 ==> ledger::cap_of(max_rows) == max_rows,
        max_rows <= 0 ==> ledger::cap_of(max_rows) == 0,
{
}

/// A day has 24 hours of 3600 seconds: rows are old that were written more than so many days before.
pub proof fn law_days_are_counted_back(now: Instant, d: i64)
    requires
        d > 0,
        now.secs >= 0,
        d * (24 * 3600) <= clock::MAX_SPAN,
    ensures
        clock::cutoff_view(now, d) == clock::rfc3339_text(
            (now.secs - d * (24 * 3600)) as i64,
            now.nanos,
        ),
{
}

/// To go back some days and then some more is to go back all of them.
pub proof fn law_days_add_up(now: Instant, a: i64, b: i64)
    requires
        a > 0,
        b > 0,
        now.secs >= 0,
        (a + b) * 86_400 <= clock::MAX_SPAN,
    ensures
        clock::cutoff_view(now, (a + b) as i64) == clock::cutoff_view(
            Instant { secs: (now.secs - a * 86_400) as i64, nanos: now.nanos },
            b,
        ),
{
    assert((a + b) * 86_400 == a * 86_400 + b * 86_400);
}

/// A span that is too long to subtract reaches no row.
pub proof fn law_nothing_is_that_old(now: Instant, d: i64)
    requires
        d * 86_400 > clock::MAX_SPAN,
    ensures
        clock::cutoff_view(now, d) is None,
{
}

/// The first thing that fails while the ledger is pruned is what is told; what was not asked cannot
/// fail.
pub proof fn law_pruning_tells_the_first_failure(
    max_rows: i64,
    max_age_days: Option<i64>,
    p: PruneReplies,
)
    ensures
        ({
            let r = ledger::pruned(max_rows, max_age_days, p);
            let limited = max_age_days is Some && max_age_days->0 > 0 && p.cutoff;
            let over = p.count is Some && p.count->0 > max_rows;
            &&& limited && p.aged is None <==> r == Err::<u64, LedgerError>(LedgerError::AgePrune)
            &&& !(limited && p.aged is None) && p.count is None <==> r == Err::<
                u64,
                LedgerError,
            >(LedgerError::Count)
            &&& !(limited && p.aged is None) && over && p.capped is None <==> r == Err::<
                u64,
                LedgerError,
            >(LedgerError::CapPrune)
            &&& r is Ok ==> r->Ok_0 == (if limited {
                p.aged->0 as int
            } else {
                0
            }) + (if over {
                p.capped->0 as int
            } else {
                0
            }) || r->Ok_0 == u64::MAX
        }),
{
}

/// By default the last 100 000 rows stay, whatever their age.
pub proof fn law_the_default_cap_keeps_the_last_rows(t: Seq<Entry>)
    ensures
        ({
            let left = laws::kept(t, ledger::DEFAULT_MAX_ROWS, None, None);
            &&& t.len() <= 100_000 ==> left == t
            &&& t.len() > 100_000 ==> left == t.skip(t.len() - 100_000)
        }),
{
    if t.len() <= 100_000 {
        assert(t.skip(0) =~= t);
    }
}

/// Every failure of the ledger says that something failed, and that of a report which one and where.
pub proof fn law_failures_say_what_failed(report: Report, stage: Stage)
    ensures
        ledger::error_text(LedgerError::Rows(report, stage)) == (match stage {
            Stage::Prepare => "failed to prepare "@,
            Stage::Query => "failed to query "@,
            Stage::Read => "failed to read "@,
        }) + (match report {
            Report::Provider => "provider summary"@,
            Report::Model => "model summary"@,
            Report::Period => "period summary"@,
        }),
{
}

/// The sum of two counts is their sum, as far as it can be written.
pub proof fn law_counts_are_added(a: usize, b: usize)
    ensures
        a + b <= u64::MAX ==> ledger::sum_of(a, b) == a + b,
        a + b > u64::MAX ==> ledger::sum_of(a, b) == u64::MAX,
{
}

/// A summary fails with the first of its questions that fails, and asks no further; where none fails it
/// has asked three.
pub proof fn law_a_summary_tells_the_first_failure(
    log: Seq<Exchange>,
    r: Result<Summary, LedgerError>,
    totals: Answer,
    providers: Answer,
    latency: Answer,
)
    requires
        ledger::summed_up(log, r, totals, providers, latency),
    ensures
        totals is Err ==> r == Err::<Summary, LedgerError>(LedgerError::Summarize) && log.len() == 1,
        totals is Ok && totals->Ok_0.len() == 0 ==> r == Err::<Summary, LedgerError>(
            LedgerError::Summarize,
        ),
        r is Ok ==> totals is Ok && providers is Ok && latency is Ok && log.len() == 3,
        log.len() == 2 ==> r is Err && (providers is Err ==> r->Err_0 == LedgerError::Rows(
            Report::Provider,
            providers->Err_0,
        )) && (providers is Ok ==> r->Err_0 == LedgerError::Rows(Report::Provider, Stage::Read)),
        log.len() == 3 && latency is Err ==> r == Err::<Summary, LedgerError>(LedgerError::Latency),
        r is Ok ==> r->Ok_0.by_provider@.len() == providers->Ok_0.len(),
{
}

/// A report has a row for each row of its answer, or says at which point it failed.
pub proof fn law_reports_have_every_row(
    a: Answer,
    models: Result<Vec<ModelRow>, LedgerError>,
    periods: Result<Vec<PeriodRow>, LedgerError>,
)
    requires
        ledger::models_outcome(a, models),
        ledger::periods_outcome(a, periods),
    ensures
        a is Err ==> models == Err::<Vec<ModelRow>, LedgerError>(
            LedgerError::Rows(Report::Model, a->Err_0),
        ) && periods == Err::<Vec<PeriodRow>, LedgerError>(
            LedgerError::Rows(Report::Period, a->Err_0),
        ),
        models is Ok ==> a is Ok && models->Ok_0@.len() == a->Ok_0.len(),
        periods is Ok ==> a is Ok && periods->Ok_0@.len() == a->Ok_0.len(),
        a is Ok && models is Err ==> models->Err_0 == LedgerError::Rows(Report::Model, Stage::Read),
        a is Ok && periods is Err ==> periods->Err_0 == LedgerError::Rows(
            Report::Period,
            Stage::Read,
        ),
{
}

/// A row of a report is read only where every column holds what belongs there: the name is a text, a
/// model may be missing, and the numbers are whole.
pub proof fn law_other_columns_are_refused(c: Seq<CellView>, k: int)
    ensures
        c.len() == 0 || !(c[0] is Text) ==> rows::provider_in(c) is None && rows::model_in(c) is None
            && rows::period_in(c) is None,
        1 <= k < 8 && (k >= c.len() || !(c[k] is Int)) ==> rows::provider_in(c) is None,
        1 <= k < 6 && (k >= c.len() || !(c[k] is Int)) ==> rows::period_in(c) is None,
        2 <= k < 6 && (k >= c.len() || !(c[k] is Int)) ==> rows::model_in(c) is None,
        c.len() < 2 || !(c[1] is Text || c[1] is Null) ==> rows::model_in(c) is None,
{
    if 1 <= k < 8 && (k >= c.len() || !(c[k] is Int)) {
        assert(rows::int_at(c, k) is None);
    }
}

/// The number that an answer is stands in the first column of its first row.
pub proof fn law_a_count_is_one_number(
    n: i64,
    more: Seq<CellView>,
    rest: Seq<Seq<CellView>>,
    stage: Stage,
)
    ensures
        ledger::counted(Ok(seq![seq![CellView::Int(n)] + more] + rest)) == Some(n),
        ledger::counted(Ok(Seq::empty())) is None,
        ledger::counted(Err(stage)) is None,
{
    let table = seq![seq![CellView::Int(n)] + more] + rest;
    assert(table[0] == seq![CellView::Int(n)] + more);
    assert(table[0][0] == CellView::Int(n));
}

/// The values of a row are those of the record, each in the place of its column, with nothing where the
/// record has nothing.
pub proof fn law_a_row_holds_the_record(r: Record, ts: Seq<char>)
    ensures
        ({
            let v = sql::row_view(r, ts);
            &&& v.len() == 10
            &&& v[0] == SqlView::Text(ts)
            &&& v[1] == SqlView::Text(r.provider@)
            &&& r.model is Some ==> v[2] == SqlView::Text(r.model->0@)
            &&& r.model is None ==> v[2] == SqlView::Null
            &&& v[3] == SqlView::Text(r.tokenizer@)
            &&& v[4] == SqlView::Int(1) <==> r.exact
            &&& v[4] == SqlView::Int(0) <==> !r.exact
            &&& v[5] == SqlView::Int(r.input_before)
            &&& v[6] == SqlView::Int(r.input_after)
            &&& r.output_before is Some ==> v[7] == SqlView::Int(r.output_before->0)
            &&& r.output_before is None ==> v[7] == SqlView::Null
            &&& r.output_after is Some ==> v[8] == SqlView::Int(r.output_after->0)
            &&& r.output_after is None ==> v[8] == SqlView::Null
            &&& r.compress_micros is Some ==> v[9] == SqlView::Int(r.compress_micros->0)
            &&& r.compress_micros is None ==> v[9] == SqlView::Null
        }),
{
}

/// Each kind of period has an expression of its own in the query, and a label of its own.
pub proof fn law_periods_are_told_apart(a: Period, b: Period)
    ensures
        a != b ==> tracking::sql_bucket_view(a) != tracking::sql_bucket_view(b)
            && tracking::label_view(a) != tracking::label_view(b),
        text::starts_with(sql::by_period_view(a), "SELECT "@ + tracking::sql_bucket_view(a)),
{
    reveal_strlit("substr(ts, 1, 10)");
    reveal_strlit("substr(ts, 1, 7)");
    reveal_strlit("strftime('%G-W%V', ts)");
    reveal_strlit("daily");
    reveal_strlit("weekly");
    reveal_strlit("monthly");
    assert("substr(ts, 1, 10)"@.len() == 17 && "substr(ts, 1, 7)"@.len() == 16
        && "strftime('%G-W%V', ts)"@.len() == 22);
    assert("daily"@.len() == 5 && "weekly"@.len() == 6 && "monthly"@.len() == 7);
    let head = "SELECT "@ + tracking::sql_bucket_view(a);
    assert(sql::by_period_view(a).subrange(0, head.len() as int) =~= head);
}

/// A table that could not be made is the end of it; one that was made gets its column whether or not
/// that succeeds.
pub proof fn law_the_table_is_made_first(log: Seq<Exchange>, ok: bool)
    requires
        ledger::migration(log, ok),
    ensures
        log.len() == if ok {
            2int
        } else {
            1
        },
        log[0] == (Exchange::Batch { sql: sql::CREATE_TABLE@, ok }),
        ok ==> log[1] is Run && log[1]->Run_sql == sql::ADD_LATENCY@ && log[1]->Run_values.len()
            == 0,
{
}

} // verus!
