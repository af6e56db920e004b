//! What holds of every ledger, over a model of its rows.
//!
//! The model says what a database makes of the ledger's statements. Nothing says that a database does:
//! where a law speaks of one that works, it says so in its premise.
use crate::tracking::clock::Instant;
use crate::tracking::database::{Answer, Exchange};
use crate::tracking::ledger;
use crate::tracking::ledger::{LedgerError, PruneReplies};
use crate::tracking::rows;
use crate::tracking::sql;
use crate::tracking::sql::{CellView, SqlView};
use crate::tracking::{ModelRow, PeriodRow, ProviderRow, Record, Summary};
use vstd::prelude::*;

verus! {

// ---------------------------------------------------------------------------------------------
// The rows
// ---------------------------------------------------------------------------------------------

/// A row of the ledger.
#[verifier::ext_equal]
pub struct Entry {
    pub ts: Seq<char>,
    pub provider: Seq<char>,
    pub model: Option<Seq<char>>,
    pub exact: bool,
    pub input_before: i64,
    pub input_after: i64,
    pub output_before: Option<i64>,
    pub output_after: Option<i64>,
    pub compress_micros: Option<i64>,
}

/// The row that records `r` at the time `ts`.
pub open spec fn entry_of(r: Record, ts: Seq<char>) -> Entry {
    Entry {
        ts,
        provider: r.provider@,
        model: rows::option_view(r.model),
        exact: r.exact,
        input_before: r.input_before,
        input_after: r.input_after,
        output_before: r.output_before,
        output_after: r.output_after,
        compress_micros: r.compress_micros,
    }
}

/// The text of a value, where it is one.
pub open spec fn text_of(v: SqlView) -> Option<Seq<char>> {
    match v {
        SqlView::Text(s) => Some(s),
        _ => None,
    }
}

/// The integer of a value, where it is one.
pub open spec fn int_of(v: SqlView) -> Option<i64> {
    match v {
        SqlView::Int(i) => Some(i),
        _ => None,
    }
}

/// The row that an insertion of the values makes.
pub open spec fn inserted(values: Seq<SqlView>) -> Entry {
    Entry {
        ts: text_of(values[0])->0,
        provider: text_of(values[1])->0,
        model: text_of(values[2]),
        exact: int_of(values[4]) == Some(1i64),
        input_before: int_of(values[5])->0,
        input_after: int_of(values[6])->0,
        output_before: int_of(values[7]),
        output_after: int_of(values[8]),
        compress_micros: int_of(values[9]),
    }
}

/// One text comes before another: character by character, and a shorter one before a longer one.
pub open spec fn text_before(a: Seq<char>, b: Seq<char>) -> bool
    decreases a.len(),
{
    if b.len() == 0 {
        false
    } else if a.len() == 0 {
        true
    } else if a[0] == b[0] {
        text_before(a.drop_first(), b.drop_first())
    } else {
        (a[0] as int) < (b[0] as int)
    }
}

/// The rows that are not older than `cutoff`.
pub open spec fn young(t: Seq<Entry>, cutoff: Seq<char>) -> Seq<Entry> {
    t.filter(|e: Entry| !text_before(e.ts, cutoff))
}

/// The `n` most recent rows, or all where there are no more.
pub open spec fn recent(t: Seq<Entry>, n: int) -> Seq<Entry> {
    if t.len() <= n {
        t
    } else {
        t.skip(t.len() - n)
    }
}

/// What a question does to the rows, the oldest first. One that fails does nothing.
pub open spec fn done(t: Seq<Entry>, x: Exchange) -> Seq<Entry> {
    match x {
        Exchange::Run { sql: statement, values, changed: Some(_) } => {
            if statement == sql::INSERT@ && values.len() == 10 {
                t.push(inserted(values))
            } else if statement == sql::DELETE_OLD@ && values.len() == 1 && values[0] is Text {
                young(t, values[0]->Text_0)
            } else if statement == sql::DELETE_OVER_CAP@ && values.len() == 1 && values[0] is Int {
                recent(t, values[0]->Int_0 as int)
            } else {
                t
            }
        },
        _ => t,
    }
}

/// The rows that are there after the questions, where `t` was there before.
pub open spec fn stored(t: Seq<Entry>, log: Seq<Exchange>) -> Seq<Entry>
    decreases log.len(),
{
    if log.len() == 0 {
        t
    } else {
        done(stored(t, log.drop_last()), log.last())
    }
}

proof fn lemma_stored_push(t: Seq<Entry>, log: Seq<Exchange>, x: Exchange)
    ensures
        stored(t, log.push(x)) == done(stored(t, log), x),
{
    assert(log.push(x).drop_last() =~= log);
}

/// Recording adds one row, the most recent one, where it succeeds, and changes nothing where it fails.
pub proof fn law_recording_adds_one_row(
    t: Seq<Entry>,
    before: Seq<Exchange>,
    after: Seq<Exchange>,
    r: Record,
    ts: Seq<char>,
    res: Result<(), LedgerError>,
)
    requires
        ledger::recorded(before, after, r, ts, res),
    ensures
        stored(t, after) == if res is Ok {
            stored(t, before).push(entry_of(r, ts))
        } else {
            stored(t, before)
        },
{
    let changed = choose|changed: Option<usize>|
        after == before.push(#[trigger] ledger::insertion(r, ts, changed)) && res
            == if changed is Some {
            Ok::<(), LedgerError>(())
        } else {
            Err::<(), LedgerError>(LedgerError::Record)
        };
    lemma_stored_push(t, before, ledger::insertion(r, ts, changed));
    assert(inserted(sql::row_view(r, ts)) =~= entry_of(r, ts));
}

/// A query changes nothing.
pub proof fn law_queries_change_nothing(
    t: Seq<Entry>,
    log: Seq<Exchange>,
    query: Seq<char>,
    answer: Answer,
)
    ensures
        stored(t, log.push(Exchange::Rows { sql: query, answer })) == stored(t, log),
{
    lemma_stored_push(t, log, Exchange::Rows { sql: query, answer });
}

// ---------------------------------------------------------------------------------------------
// Pruning
// ---------------------------------------------------------------------------------------------

/// The rows that are not too old.
pub open spec fn kept_by_age(
    t: Seq<Entry>,
    max_age_days: Option<i64>,
    cutoff: Option<Seq<char>>,
) -> Seq<Entry> {
    if ledger::retention_of(max_age_days) is Some && cutoff is Some {
        young(t, cutoff->0)
    } else {
        t
    }
}

/// The rows that pruning leaves.
pub open spec fn kept(
    t: Seq<Entry>,
    max_rows: i64,
    max_age_days: Option<i64>,
    cutoff: Option<Seq<char>>,
) -> Seq<Entry> {
    recent(kept_by_age(t, max_age_days, cutoff), ledger::cap_of(max_rows) as int)
}

/// The database does what it is asked while the rows are pruned, and counts right.
pub open spec fn prunes(
    t: Seq<Entry>,
    max_rows: i64,
    max_age_days: Option<i64>,
    cutoff: Option<Seq<char>>,
    p: PruneReplies,
) -> bool {
    let by_age = kept_by_age(t, max_age_days, cutoff);
    &&& ledger::retention_of(max_age_days) is Some && cutoff is Some ==> p.aged is Some
        && p.aged->0 == t.len() - by_age.len()
    &&& p.count is Some && p.count->0 == by_age.len()
    &&& by_age.len() > max_rows ==> p.capped is Some && p.capped->0 == by_age.len() - kept(
        t,
        max_rows,
        max_age_days,
        cutoff,
    ).len()
}

/// Pruning leaves the most recent `max_rows` of the rows that are not too old, or all of them where
/// there are no more, and gives the number of the rows that went.
pub proof fn law_pruning_keeps_the_most_recent(
    t: Seq<Entry>,
    now: Instant,
    max_rows: i64,
    max_age_days: Option<i64>,
    cutoff: Option<Seq<char>>,
    answer: Answer,
    p: PruneReplies,
)
    requires
        t.len() <= i64::MAX,
        ledger::cutoff_from(now, max_age_days, cutoff, answer, p),
        prunes(t, max_rows, max_age_days, cutoff, p),
    ensures
        ({
            let left = kept(t, max_rows, max_age_days, cutoff);
            &&& stored(t, ledger::prune_log(max_rows, max_age_days, cutoff, answer, p)) == left
            &&& ledger::pruned(max_rows, max_age_days, p) == Ok::<u64, LedgerError>(
                (t.len() - left.len()) as u64,
            )
        }),
{
    let by_age = kept_by_age(t, max_age_days, cutoff);
    let limited = ledger::retention_of(max_age_days) is Some && cutoff is Some;
    let none = Seq::<Exchange>::empty();
    let first = if limited {
        seq![ledger::old_deleted(cutoff->0, p.aged)]
    } else {
        none
    };
    if limited {
        assert(first =~= none.push(ledger::old_deleted(cutoff->0, p.aged)));
        lemma_stored_push(t, none, ledger::old_deleted(cutoff->0, p.aged));
        lemma_delete_old(t, cutoff->0, p.aged);
    }
    assert(stored(t, first) == by_age);
    let second = first.push(ledger::count_asked(answer));
    lemma_stored_push(t, first, ledger::count_asked(answer));
    if p.count->0 > max_rows {
        let cap = ledger::cap_of(max_rows);
        lemma_stored_push(t, second, ledger::rest_deleted(cap, p.capped));
    }
}

proof fn lemma_delete_old(t: Seq<Entry>, cutoff: Seq<char>, changed: Option<usize>)
    requires
        changed is Some,
    ensures
        done(t, ledger::old_deleted(cutoff, changed)) == young(t, cutoff),
{
}

// ---------------------------------------------------------------------------------------------
// Sums
// ---------------------------------------------------------------------------------------------

/// What is summed up over rows.
pub enum Column {
    Events,
    InputBefore,
    InputAfter,
    Approximate,
    OutputBefore,
    OutputAfter,
    OutputEvents,
}

/// The number, or zero where there is none.
pub open spec fn or_zero(n: Option<i64>) -> int {
    match n {
        Some(i) => i as int,
        None => 0,
    }
}

/// What a row adds to a sum.
pub open spec fn value(e: Entry, c: Column) -> int {
    match c {
        Column::Events => 1,
        Column::InputBefore => e.input_before as int,
        Column::InputAfter => e.input_after as int,
        Column::Approximate => if e.exact {
            0
        } else {
            1
        },
        Column::OutputBefore => or_zero(e.output_before),
        Column::OutputAfter => or_zero(e.output_after),
        Column::OutputEvents => if e.output_after is Some {
            1
        } else {
            0
        },
    }
}

/// The sum over all rows.
pub open spec fn sum(t: Seq<Entry>, c: Column) -> int
    decreases t.len(),
{
    if t.len() == 0 {
        0
    } else {
        sum(t.drop_last(), c) + value(t.last(), c)
    }
}

/// The sum of the sizes over all rows: no sum over some of them, in whatever order, is further from
/// zero.
pub open spec fn weight(t: Seq<Entry>, c: Column) -> int
    decreases t.len(),
{
    if t.len() == 0 {
        0
    } else {
        let v = value(t.last(), c);
        weight(t.drop_last(), c) + if v < 0 {
            -v
        } else {
            v
        }
    }
}

/// No sum over some of the rows runs over.
pub open spec fn summable(t: Seq<Entry>) -> bool {
    forall|c: Column| #[trigger] weight(t, c) <= i64::MAX
}

/// No row counts below zero.
pub open spec fn counts(t: Seq<Entry>) -> bool {
    forall|i: int, c: Column| 0 <= i < t.len() ==> #[trigger] value(t[i], c) >= 0
}

/// The sum over the rows of one group.
pub open spec fn sum_in<K>(t: Seq<Entry>, key: spec_fn(Entry) -> K, k: K, c: Column) -> int
    decreases t.len(),
{
    if t.len() == 0 {
        0
    } else {
        sum_in(t.drop_last(), key, k, c) + if key(t.last()) == k {
            value(t.last(), c)
        } else {
            0
        }
    }
}

/// The sum of numbers.
pub open spec fn total(ns: Seq<int>) -> int
    decreases ns.len(),
{
    if ns.len() == 0 {
        0
    } else {
        total(ns.drop_last()) + ns.last()
    }
}

/// Some row has the key.
pub open spec fn occurs<K>(t: Seq<Entry>, key: spec_fn(Entry) -> K, k: K) -> bool {
    exists|i: int| 0 <= i < t.len() && key(#[trigger] t[i]) == k
}

/// The keys are those of the rows.
pub open spec fn keys_of<K>(t: Seq<Entry>, key: spec_fn(Entry) -> K, keys: Seq<K>) -> bool {
    &&& forall|i: int| 0 <= i < t.len() ==> keys.contains(key(#[trigger] t[i]))
    &&& forall|j: int| 0 <= j < keys.len() ==> occurs(t, key, #[trigger] keys[j])
}

proof fn lemma_total_zero(ns: Seq<int>)
    requires
        forall|i: int| 0 <= i < ns.len() ==> ns[i] == 0,
    ensures
        total(ns) == 0,
    decreases ns.len(),
{
    if ns.len() > 0 {
        lemma_total_zero(ns.drop_last());
    }
}

proof fn lemma_total_update(ns: Seq<int>, j: int, x: int)
    requires
        0 <= j < ns.len(),
    ensures
        total(ns.update(j, x)) == total(ns) - ns[j] + x,
    decreases ns.len(),
{
    let after = ns.update(j, x);
    if j == ns.len() - 1 {
        assert(after.drop_last() =~= ns.drop_last());
    } else {
        lemma_total_update(ns.drop_last(), j, x);
        assert(after.drop_last() =~= ns.drop_last().update(j, x));
    }
}

/// Where every row is in one group, the groups add up to the whole.
proof fn lemma_groups_add_up<K>(
    t: Seq<Entry>,
    key: spec_fn(Entry) -> K,
    keys: Seq<K>,
    c: Column,
    ns: Seq<int>,
)
    requires
        keys.no_duplicates(),
        forall|i: int| 0 <= i < t.len() ==> keys.contains(key(#[trigger] t[i])),
        ns.len() == keys.len(),
        forall|j: int| 0 <= j < ns.len() ==> #[trigger] ns[j] == sum_in(t, key, keys[j], c),
    ensures
        total(ns) == sum(t, c),
    decreases t.len(),
{
    if t.len() == 0 {
        lemma_total_zero(ns);
    } else {
        let most = t.drop_last();
        let e = t.last();
        let before = Seq::new(keys.len(), |j: int| sum_in(most, key, keys[j], c));
        assert forall|i: int| 0 <= i < most.len() implies keys.contains(key(#[trigger] most[i])) by {
            assert(most[i] == t[i]);
        }
        lemma_groups_add_up(most, key, keys, c, before);
        assert(keys.contains(key(t[t.len() - 1])));
        let j = choose|j: int| 0 <= j < keys.len() && keys[j] == key(e);
        lemma_total_update(before, j, before[j] + value(e, c));
        assert(ns =~= before.update(j, before[j] + value(e, c)));
    }
}

/// A group that holds a row counts at least one.
proof fn lemma_group_counts<K>(t: Seq<Entry>, key: spec_fn(Entry) -> K, k: K)
    ensures
        sum_in(t, key, k, Column::Events) >= 0,
        occurs(t, key, k) ==> sum_in(t, key, k, Column::Events) >= 1,
    decreases t.len(),
{
    if t.len() > 0 {
        let most = t.drop_last();
        lemma_group_counts(most, key, k);
        if occurs(t, key, k) {
            let i = choose|i: int| 0 <= i < t.len() && key(#[trigger] t[i]) == k;
            if i < most.len() {
                assert(key(most[i]) == k);
            }
        }
    }
}

/// Where no row counts below zero, the sizes add up to the sum.
proof fn lemma_weight_of_counts(t: Seq<Entry>, c: Column)
    requires
        counts(t),
    ensures
        weight(t, c) == sum(t, c),
    decreases t.len(),
{
    if t.len() > 0 {
        let most = t.drop_last();
        assert forall|i: int, d: Column| 0 <= i < most.len() implies #[trigger] value(most[i], d)
            >= 0 by {
            assert(most[i] == t[i]);
        }
        lemma_weight_of_counts(most, c);
        assert(value(t[t.len() - 1], c) >= 0);
    }
}

// ---------------------------------------------------------------------------------------------
// Reports
// ---------------------------------------------------------------------------------------------

/// A value is the number `n`.
pub open spec fn is_number(c: CellView, n: int) -> bool {
    c is Int && c->Int_0 == n
}

/// The database sums up all rows right, where no sum runs over.
pub open spec fn totals_answered(t: Seq<Entry>, a: Answer) -> bool {
    &&& summable(t) ==> a is Ok
    &&& a matches Ok(rs) ==> {
        &&& rs.len() == 1
        &&& rs[0].len() == 7
        &&& is_number(rs[0][0], sum(t, Column::Events))
        &&& is_number(rs[0][1], sum(t, Column::InputBefore))
        &&& is_number(rs[0][2], sum(t, Column::InputAfter))
        &&& is_number(rs[0][3], sum(t, Column::Approximate))
        &&& is_number(rs[0][4], sum(t, Column::OutputBefore))
        &&& is_number(rs[0][5], sum(t, Column::OutputAfter))
        &&& is_number(rs[0][6], sum(t, Column::OutputEvents))
    }
}

/// The provider and the model of a row.
pub open spec fn model_key() -> spec_fn(Entry) -> (Seq<char>, Option<Seq<char>>) {
    |e: Entry| (e.provider, e.model)
}

/// The bucket of a row, which is that of its time.
pub open spec fn bucket_key(bucket: spec_fn(Seq<char>) -> Seq<char>) -> spec_fn(Entry) -> Seq<char> {
    |e: Entry| bucket(e.ts)
}

/// One provider and model come before another: by the provider, and then by the model, none first.
pub open spec fn model_before(
    a: (Seq<char>, Option<Seq<char>>),
    b: (Seq<char>, Option<Seq<char>>),
) -> bool {
    if a.0 == b.0 {
        match (a.1, b.1) {
            (None, Some(_)) => true,
            (Some(x), Some(y)) => text_before(x, y),
            (_, None) => false,
        }
    } else {
        text_before(a.0, b.0)
    }
}

/// The providers and models are in order, each once.
pub open spec fn models_ascend(keys: Seq<(Seq<char>, Option<Seq<char>>)>) -> bool {
    forall|i: int, j: int| 0 <= i < j < keys.len() ==> model_before(keys[i], keys[j])
}

/// The provider and the model of each row of a report.
pub open spec fn reported_models(v: Seq<ModelRow>) -> Seq<(Seq<char>, Option<Seq<char>>)> {
    v.map_values(|m: ModelRow| (m@.provider, m@.model))
}

/// The columns of a row that sums up a provider and model.
pub open spec fn model_cells(
    t: Seq<Entry>,
    k: (Seq<char>, Option<Seq<char>>),
    c: Seq<CellView>,
) -> bool {
    &&& c.len() == 6
    &&& c[0] == CellView::Text(k.0)
    &&& c[1] == match k.1 {
        Some(m) => CellView::Text(m),
        None => CellView::Null,
    }
    &&& is_number(c[2], sum_in(t, model_key(), k, Column::Events))
    &&& is_number(c[3], sum_in(t, model_key(), k, Column::InputBefore))
    &&& is_number(c[4], sum_in(t, model_key(), k, Column::InputAfter))
    &&& is_number(c[5], sum_in(t, model_key(), k, Column::OutputAfter))
}

/// The rows of an answer sum up the groups with the keys `keys`, in order.
pub open spec fn model_groups(
    t: Seq<Entry>,
    keys: Seq<(Seq<char>, Option<Seq<char>>)>,
    rs: Seq<Seq<CellView>>,
) -> bool {
    &&& keys_of(t, model_key(), keys)
    &&& models_ascend(keys)
    &&& rs.len() == keys.len()
    &&& forall|i: int| 0 <= i < rs.len() ==> model_cells(t, keys[i], #[trigger] rs[i])
}

/// The database sums up each provider and model right, where no sum runs over.
pub open spec fn models_answered(t: Seq<Entry>, a: Answer) -> bool {
    &&& summable(t) ==> a is Ok
    &&& a matches Ok(rs) ==> exists|keys: Seq<(Seq<char>, Option<Seq<char>>)>| #[trigger]
        model_groups(t, keys, rs)
}

/// The texts are in order, each once.
pub open spec fn texts_ascend(keys: Seq<Seq<char>>) -> bool {
    forall|i: int, j: int| 0 <= i < j < keys.len() ==> text_before(keys[i], keys[j])
}

/// The bucket of each row of a report.
pub open spec fn reported_buckets(v: Seq<PeriodRow>) -> Seq<Seq<char>> {
    v.map_values(|p: PeriodRow| p@.bucket)
}

/// The columns of a row that sums up a bucket.
pub open spec fn period_cells(
    t: Seq<Entry>,
    bucket: spec_fn(Seq<char>) -> Seq<char>,
    k: Seq<char>,
    c: Seq<CellView>,
) -> bool {
    &&& c.len() == 6
    &&& c[0] == CellView::Text(k)
    &&& is_number(c[1], sum_in(t, bucket_key(bucket), k, Column::Events))
    &&& is_number(c[2], sum_in(t, bucket_key(bucket), k, Column::InputBefore))
    &&& is_number(c[3], sum_in(t, bucket_key(bucket), k, Column::InputAfter))
    &&& is_number(c[4], sum_in(t, bucket_key(bucket), k, Column::OutputBefore))
    &&& is_number(c[5], sum_in(t, bucket_key(bucket), k, Column::OutputAfter))
}

/// The rows of an answer sum up the buckets `keys`, in order.
pub open spec fn period_groups(
    t: Seq<Entry>,
    bucket: spec_fn(Seq<char>) -> Seq<char>,
    keys: Seq<Seq<char>>,
    rs: Seq<Seq<CellView>>,
) -> bool {
    &&& keys_of(t, bucket_key(bucket), keys)
    &&& texts_ascend(keys)
    &&& rs.len() == keys.len()
    &&& forall|i: int| 0 <= i < rs.len() ==> period_cells(t, bucket, keys[i], #[trigger] rs[i])
}

/// The database sums up each bucket right, where no sum runs over and `bucket` is what it makes of a
/// row's time.
pub open spec fn periods_answered(
    t: Seq<Entry>,
    bucket: spec_fn(Seq<char>) -> Seq<char>,
    a: Answer,
) -> bool {
    &&& summable(t) ==> a is Ok
    &&& a matches Ok(rs) ==> exists|keys: Seq<Seq<char>>| #[trigger]
        period_groups(t, bucket, keys, rs)
}

proof fn lemma_before_is_strict(a: Seq<char>)
    ensures
        !text_before(a, a),
    decreases a.len(),
{
    if a.len() > 0 {
        lemma_before_is_strict(a.drop_first());
    }
}

/// The summary holds the sums over all rows.
pub open spec fn holds_the_sums(s: Summary, t: Seq<Entry>) -> bool {
    &&& s.events == sum(t, Column::Events)
    &&& s.input_before == sum(t, Column::InputBefore)
    &&& s.input_after == sum(t, Column::InputAfter)
    &&& s.output_before == sum(t, Column::OutputBefore)
    &&& s.output_after == sum(t, Column::OutputAfter)
    &&& s.output_events == sum(t, Column::OutputEvents)
    &&& s.any_approximate == (sum(t, Column::Approximate) > 0)
}

/// A summary that was made holds the sums over all rows, and where no row counts below zero, no sum
/// runs over.
proof fn lemma_summary_holds_the_sums(
    t: Seq<Entry>,
    log: Seq<Exchange>,
    summary: Result<Summary, LedgerError>,
    totals: Answer,
    providers: Answer,
    latency: Answer,
)
    requires
        totals_answered(t, totals),
        ledger::summed_up(log, summary, totals, providers, latency),
        summary is Ok,
    ensures
        holds_the_sums(summary->Ok_0, t),
        counts(t) ==> summable(t),
{
    let row = totals->Ok_0[0];
    assert(rows::int_at(row, 0) is Some && rows::int_at(row, 1) is Some && rows::int_at(row, 2) is Some
        && rows::int_at(row, 3) is Some && rows::int_at(row, 4) is Some && rows::int_at(row, 5) is Some
        && rows::int_at(row, 6) is Some);
    if counts(t) {
        assert forall|c: Column| #[trigger] weight(t, c) <= i64::MAX by {
            lemma_weight_of_counts(t, c);
        }
    }
}

/// The columns of a provider and model are where they are looked for.
proof fn lemma_model_placed(t: Seq<Entry>, k: (Seq<char>, Option<Seq<char>>), c: Seq<CellView>)
    requires
        model_cells(t, k, c),
    ensures
        rows::model_in(c) is Some,
        rows::model_in(c)->0.provider == k.0,
        rows::model_in(c)->0.model == k.1,
        rows::model_in(c)->0.events == sum_in(t, model_key(), k, Column::Events),
        rows::model_in(c)->0.input_before == sum_in(t, model_key(), k, Column::InputBefore),
        rows::model_in(c)->0.input_after == sum_in(t, model_key(), k, Column::InputAfter),
        rows::model_in(c)->0.output_after == sum_in(t, model_key(), k, Column::OutputAfter),
{
}

/// The rows of a report by model follow the keys, each of which is there once.
proof fn lemma_models_follow_the_keys(
    t: Seq<Entry>,
    keys: Seq<(Seq<char>, Option<Seq<char>>)>,
    rs: Seq<Seq<CellView>>,
    v: Seq<ModelRow>,
)
    requires
        model_groups(t, keys, rs),
        rows::models_in(rs, v),
    ensures
        v.len() == keys.len(),
        keys.no_duplicates(),
        forall|i: int|
            0 <= i < v.len() ==> {
                &&& (#[trigger] v[i]).events >= 1
                &&& v[i].events == sum_in(t, model_key(), keys[i], Column::Events)
                &&& v[i].input_before == sum_in(t, model_key(), keys[i], Column::InputBefore)
                &&& v[i].input_after == sum_in(t, model_key(), keys[i], Column::InputAfter)
                &&& v[i].output_after == sum_in(t, model_key(), keys[i], Column::OutputAfter)
            },
        reported_models(v) == keys,
{
    let key = model_key();
    assert forall|i: int| 0 <= i < v.len() implies {
        &&& (#[trigger] v[i])@.provider == keys[i].0
        &&& v[i]@.model == keys[i].1
        &&& v[i].events >= 1
        &&& v[i].events == sum_in(t, model_key(), keys[i], Column::Events)
        &&& v[i].input_before == sum_in(t, model_key(), keys[i], Column::InputBefore)
        &&& v[i].input_after == sum_in(t, model_key(), keys[i], Column::InputAfter)
        &&& v[i].output_after == sum_in(t, model_key(), keys[i], Column::OutputAfter)
    } by {
        assert(rows::model_in(rs[i]) == Some(v[i]@));
        lemma_model_placed(t, keys[i], rs[i]);
        lemma_group_counts(t, key, keys[i]);
    }
    assert forall|i: int, j: int| 0 <= i < keys.len() && 0 <= j < keys.len() && i != j implies keys[i]
        != keys[j] by {
        lemma_before_is_strict(keys[i].0);
        if keys[i].1 is Some {
            lemma_before_is_strict(keys[i].1->0);
        }
        if i < j {
            assert(model_before(keys[i], keys[j]));
        } else {
            assert(model_before(keys[j], keys[i]));
        }
    }
    assert(reported_models(v) =~= keys);
}

/// Summing up by model says of each provider and model that some row has, and of no other, what
/// its rows come to: in order, each once, and together what the summary says. Where a database sums up
/// right, it does not fail where no sum over some of the rows runs over; and once the summary has been
/// made, none does unless some row counts below zero.
pub proof fn law_models_add_up_to_the_summary(
    t: Seq<Entry>,
    log: Seq<Exchange>,
    summary: Result<Summary, LedgerError>,
    totals: Answer,
    providers: Answer,
    latency: Answer,
    answer: Answer,
    models: Result<Vec<ModelRow>, LedgerError>,
)
    requires
        totals_answered(t, totals),
        models_answered(t, answer),
        ledger::summed_up(log, summary, totals, providers, latency),
        ledger::models_outcome(answer, models),
        summary is Ok,
    ensures
        summable(t) ==> models is Ok,
        counts(t) ==> summable(t),
        models is Ok ==> {
            let s = summary->Ok_0;
            let v = models->Ok_0@;
            &&& keys_of(t, model_key(), reported_models(v))
            &&& models_ascend(reported_models(v))
            &&& forall|i: int| 0 <= i < v.len() ==> (#[trigger] v[i]).events >= 1
            &&& total(v.map_values(|m: ModelRow| m.events as int)) == s.events
            &&& total(v.map_values(|m: ModelRow| m.input_before as int)) == s.input_before
            &&& total(v.map_values(|m: ModelRow| m.input_after as int)) == s.input_after
            &&& total(v.map_values(|m: ModelRow| m.output_after as int)) == s.output_after
        },
{
    lemma_summary_holds_the_sums(t, log, summary, totals, providers, latency);
    if answer is Ok {
        let rs = answer->Ok_0;
        let keys = choose|keys: Seq<(Seq<char>, Option<Seq<char>>)>| #[trigger]
            model_groups(t, keys, rs);
        assert forall|i: int| 0 <= i < rs.len() implies rows::model_in(#[trigger] rs[i]) is Some by {
            lemma_model_placed(t, keys[i], rs[i]);
        }
        let v = models->Ok_0@;
        lemma_models_follow_the_keys(t, keys, rs, v);
        lemma_groups_add_up(
            t,
            model_key(),
            keys,
            Column::Events,
            v.map_values(|m: ModelRow| m.events as int),
        );
        lemma_groups_add_up(
            t,
            model_key(),
            keys,
            Column::InputBefore,
            v.map_values(|m: ModelRow| m.input_before as int),
        );
        lemma_groups_add_up(
            t,
            model_key(),
            keys,
            Column::InputAfter,
            v.map_values(|m: ModelRow| m.input_after as int),
        );
        lemma_groups_add_up(
            t,
            model_key(),
            keys,
            Column::OutputAfter,
            v.map_values(|m: ModelRow| m.output_after as int),
        );
    }
}

/// The columns of a bucket are where they are looked for.
proof fn lemma_period_placed(
    t: Seq<Entry>,
    bucket: spec_fn(Seq<char>) -> Seq<char>,
    k: Seq<char>,
    c: Seq<CellView>,
)
    requires
        period_cells(t, bucket, k, c),
    ensures
        rows::period_in(c) is Some,
        rows::period_in(c)->0.bucket == k,
        rows::period_in(c)->0.events == sum_in(t, bucket_key(bucket), k, Column::Events),
        rows::period_in(c)->0.input_before == sum_in(t, bucket_key(bucket), k, Column::InputBefore),
        rows::period_in(c)->0.input_after == sum_in(t, bucket_key(bucket), k, Column::InputAfter),
        rows::period_in(c)->0.output_before == sum_in(t, bucket_key(bucket), k, Column::OutputBefore),
        rows::period_in(c)->0.output_after == sum_in(t, bucket_key(bucket), k, Column::OutputAfter),
{
}

/// The rows of a report by period follow the buckets, each of which is there once.
proof fn lemma_periods_follow_the_keys(
    t: Seq<Entry>,
    bucket: spec_fn(Seq<char>) -> Seq<char>,
    keys: Seq<Seq<char>>,
    rs: Seq<Seq<CellView>>,
    v: Seq<PeriodRow>,
)
    requires
        period_groups(t, bucket, keys, rs),
        rows::periods_in(rs, v),
    ensures
        v.len() == keys.len(),
        keys.no_duplicates(),
        forall|i: int|
            0 <= i < v.len() ==> {
                &&& (#[trigger] v[i]).events >= 1
                &&& v[i].events == sum_in(t, bucket_key(bucket), keys[i], Column::Events)
                &&& v[i].input_before == sum_in(t, bucket_key(bucket), keys[i], Column::InputBefore)
                &&& v[i].input_after == sum_in(t, bucket_key(bucket), keys[i], Column::InputAfter)
                &&& v[i].output_before == sum_in(t, bucket_key(bucket), keys[i], Column::OutputBefore)
                &&& v[i].output_after == sum_in(t, bucket_key(bucket), keys[i], Column::OutputAfter)
            },
        reported_buckets(v) == keys,
{
    let key = bucket_key(bucket);
    assert forall|i: int| 0 <= i < v.len() implies {
        &&& (#[trigger] v[i])@.bucket == keys[i]
        &&& v[i].events >= 1
        &&& v[i].events == sum_in(t, bucket_key(bucket), keys[i], Column::Events)
        &&& v[i].input_before == sum_in(t, bucket_key(bucket), keys[i], Column::InputBefore)
        &&& v[i].input_after == sum_in(t, bucket_key(bucket), keys[i], Column::InputAfter)
        &&& v[i].output_before == sum_in(t, bucket_key(bucket), keys[i], Column::OutputBefore)
        &&& v[i].output_after == sum_in(t, bucket_key(bucket), keys[i], Column::OutputAfter)
    } by {
        assert(rows::period_in(rs[i]) == Some(v[i]@));
        lemma_period_placed(t, bucket, keys[i], rs[i]);
        lemma_group_counts(t, key, keys[i]);
    }
    assert forall|i: int, j: int| 0 <= i < keys.len() && 0 <= j < keys.len() && i != j implies keys[i]
        != keys[j] by {
        lemma_before_is_strict(keys[i]);
        if i < j {
            assert(text_before(keys[i], keys[j]));
        } else {
            assert(text_before(keys[j], keys[i]));
        }
    }
    assert(reported_buckets(v) =~= keys);
}

/// Summing up by period says of each bucket that some row is in, and of no other, what its rows come
/// to: the oldest first, each once, and together what the summary says. Where a database sums up
/// right, it does not fail where no sum over some of the rows runs over; and once the summary has been
/// made, none does unless some row counts below zero.
pub proof fn law_periods_add_up_to_the_summary(
    t: Seq<Entry>,
    bucket: spec_fn(Seq<char>) -> Seq<char>,
    log: Seq<Exchange>,
    summary: Result<Summary, LedgerError>,
    totals: Answer,
    providers: Answer,
    latency: Answer,
    answer: Answer,
    periods: Result<Vec<PeriodRow>, LedgerError>,
)
    requires
        totals_answered(t, totals),
        periods_answered(t, bucket, answer),
        ledger::summed_up(log, summary, totals, providers, latency),
        ledger::periods_outcome(answer, periods),
        summary is Ok,
    ensures
        summable(t) ==> periods is Ok,
        counts(t) ==> summable(t),
        periods is Ok ==> {
            let s = summary->Ok_0;
            let v = periods->Ok_0@;
            &&& keys_of(t, bucket_key(bucket), reported_buckets(v))
            &&& texts_ascend(reported_buckets(v))
            &&& forall|i: int| 0 <= i < v.len() ==> (#[trigger] v[i]).events >= 1
            &&& total(v.map_values(|p: PeriodRow| p.events as int)) == s.events
            &&& total(v.map_values(|p: PeriodRow| p.input_before as int)) == s.input_before
            &&& total(v.map_values(|p: PeriodRow| p.input_after as int)) == s.input_after
            &&& total(v.map_values(|p: PeriodRow| p.output_before as int)) == s.output_before
            &&& total(v.map_values(|p: PeriodRow| p.output_after as int)) == s.output_after
        },
{
    let key = bucket_key(bucket);
    lemma_summary_holds_the_sums(t, log, summary, totals, providers, latency);
    if answer is Ok {
        let rs = answer->Ok_0;
        let keys = choose|keys: Seq<Seq<char>>| #[trigger] period_groups(t, bucket, keys, rs);
        assert forall|i: int| 0 <= i < rs.len() implies rows::period_in(#[trigger] rs[i]) is Some by {
            lemma_period_placed(t, bucket, keys[i], rs[i]);
        }
        let v = periods->Ok_0@;
        lemma_periods_follow_the_keys(t, bucket, keys, rs, v);
        lemma_groups_add_up(
            t,
            key,
            keys,
            Column::Events,
            v.map_values(|p: PeriodRow| p.events as int),
        );
        lemma_groups_add_up(
            t,
            key,
            keys,
            Column::InputBefore,
            v.map_values(|p: PeriodRow| p.input_before as int),
        );
        lemma_groups_add_up(
            t,
            key,
            keys,
            Column::InputAfter,
            v.map_values(|p: PeriodRow| p.input_after as int),
        );
        lemma_groups_add_up(
            t,
            key,
            keys,
            Column::OutputBefore,
            v.map_values(|p: PeriodRow| p.output_before as int),
        );
        lemma_groups_add_up(
            t,
            key,
            keys,
            Column::OutputAfter,
            v.map_values(|p: PeriodRow| p.output_after as int),
        );
    }
}

// ---------------------------------------------------------------------------------------------
// The summary
// ---------------------------------------------------------------------------------------------

/// What is summed up over the rows that have a latency.
pub enum Share {
    Whole,
    Upper,
    Lower,
    Count,
}

/// What a latency adds to a sum: the upper or the lower half of its bits, all of it, or one.
pub open spec fn share(n: Option<i64>, part: Share) -> int {
    match n {
        Some(i) => match part {
            Share::Whole => i as int,
            Share::Upper => i as int / 0x1_0000_0000,
            Share::Lower => i as int % 0x1_0000_0000,
            Share::Count => 1,
        },
        None => 0,
    }
}

/// The sum over the rows that have a latency.
pub open spec fn latency_sum(t: Seq<Entry>, part: Share) -> int
    decreases t.len(),
{
    if t.len() == 0 {
        0
    } else {
        latency_sum(t.drop_last(), part) + share(t.last().compress_micros, part)
    }
}

/// The sum of the sizes over the rows that have a latency.
pub open spec fn latency_weight(t: Seq<Entry>, part: Share) -> int
    decreases t.len(),
{
    if t.len() == 0 {
        0
    } else {
        let v = share(t.last().compress_micros, part);
        latency_weight(t.drop_last(), part) + if v < 0 {
            -v
        } else {
            v
        }
    }
}

/// No sum over the halves of some of the latencies runs over.
pub open spec fn latency_summable(t: Seq<Entry>) -> bool {
    &&& latency_weight(t, Share::Upper) <= i64::MAX
    &&& latency_weight(t, Share::Lower) <= i64::MAX
    &&& latency_weight(t, Share::Count) <= i64::MAX
}

/// The database sums up the halves of the latencies right, where no sum runs over.
pub open spec fn latency_answered(t: Seq<Entry>, a: Answer) -> bool {
    &&& latency_summable(t) ==> a is Ok
    &&& a matches Ok(rs) ==> {
        &&& rs.len() == 1
        &&& rs[0].len() == 3
        &&& is_number(rs[0][0], latency_sum(t, Share::Upper))
        &&& is_number(rs[0][1], latency_sum(t, Share::Lower))
        &&& is_number(rs[0][2], latency_sum(t, Share::Count))
    }
}

/// Up to some two billion rows, however long the latencies are, the sums of their halves do not run
/// over.
pub proof fn law_halves_of_latencies_can_be_summed(t: Seq<Entry>)
    requires
        t.len() < 0x8000_0000,
    ensures
        latency_summable(t),
{
    lemma_latency_weights(t);
}

proof fn lemma_latency_weights(t: Seq<Entry>)
    ensures
        latency_weight(t, Share::Upper) <= t.len() * 0x8000_0000,
        latency_weight(t, Share::Lower) <= t.len() * 0x1_0000_0000,
        latency_weight(t, Share::Count) <= t.len(),
    decreases t.len(),
{
    if t.len() > 0 {
        lemma_latency_weights(t.drop_last());
    }
}

/// The provider of a row.
pub open spec fn provider_key() -> spec_fn(Entry) -> Seq<char> {
    |e: Entry| e.provider
}

/// The provider of each row of a report.
pub open spec fn reported_providers(v: Seq<ProviderRow>) -> Seq<Seq<char>> {
    v.map_values(|p: ProviderRow| p@.provider)
}

/// The columns of a row that sums up a provider. The least of its marks is zero where some row was
/// counted without the exact tokenizer, and one otherwise.
pub open spec fn provider_cells(t: Seq<Entry>, k: Seq<char>, c: Seq<CellView>) -> bool {
    &&& c.len() == 8
    &&& c[0] == CellView::Text(k)
    &&& is_number(c[1], sum_in(t, provider_key(), k, Column::Events))
    &&& is_number(c[2], sum_in(t, provider_key(), k, Column::InputBefore))
    &&& is_number(c[3], sum_in(t, provider_key(), k, Column::InputAfter))
    &&& is_number(
        c[4],
        if sum_in(t, provider_key(), k, Column::Approximate) > 0 {
            0
        } else {
            1
        },
    )
    &&& is_number(c[5], sum_in(t, provider_key(), k, Column::OutputBefore))
    &&& is_number(c[6], sum_in(t, provider_key(), k, Column::OutputAfter))
    &&& is_number(c[7], sum_in(t, provider_key(), k, Column::OutputEvents))
}

/// The rows of an answer sum up the providers `keys`, in order.
pub open spec fn provider_groups(
    t: Seq<Entry>,
    keys: Seq<Seq<char>>,
    rs: Seq<Seq<CellView>>,
) -> bool {
    &&& keys_of(t, provider_key(), keys)
    &&& texts_ascend(keys)
    &&& rs.len() == keys.len()
    &&& forall|i: int| 0 <= i < rs.len() ==> provider_cells(t, keys[i], #[trigger] rs[i])
}

/// The database sums up each provider right, where no sum runs over.
pub open spec fn providers_answered(t: Seq<Entry>, a: Answer) -> bool {
    &&& summable(t) ==> a is Ok
    &&& a matches Ok(rs) ==> exists|keys: Seq<Seq<char>>| #[trigger] provider_groups(t, keys, rs)
}

/// A provider's row says what the provider's rows come to.
pub open spec fn sums_up_provider(t: Seq<Entry>, p: ProviderRow) -> bool {
    &&& p.events >= 1
    &&& p.events == sum_in(t, provider_key(), p@.provider, Column::Events)
    &&& p.input_before == sum_in(t, provider_key(), p@.provider, Column::InputBefore)
    &&& p.input_after == sum_in(t, provider_key(), p@.provider, Column::InputAfter)
    &&& p.exact == (sum_in(t, provider_key(), p@.provider, Column::Approximate) <= 0)
    &&& p.output_before == sum_in(t, provider_key(), p@.provider, Column::OutputBefore)
    &&& p.output_after == sum_in(t, provider_key(), p@.provider, Column::OutputAfter)
    &&& p.output_events == sum_in(t, provider_key(), p@.provider, Column::OutputEvents)
}

/// The halves of the latencies add up to the latencies.
proof fn lemma_halves_add_up(t: Seq<Entry>)
    ensures
        latency_sum(t, Share::Whole) == latency_sum(t, Share::Upper) * 0x1_0000_0000 + latency_sum(
            t,
            Share::Lower,
        ),
    decreases t.len(),
{
    if t.len() > 0 {
        lemma_halves_add_up(t.drop_last());
    }
}

/// The columns of a provider can be read.
proof fn lemma_provider_read(t: Seq<Entry>, k: Seq<char>, c: Seq<CellView>)
    requires
        provider_cells(t, k, c),
    ensures
        rows::provider_in(c) is Some,
{
}

/// The columns of a provider are where they are looked for.
proof fn lemma_provider_placed(t: Seq<Entry>, k: Seq<char>, c: Seq<CellView>, p: ProviderRow)
    requires
        provider_cells(t, k, c),
        occurs(t, provider_key(), k),
        rows::provider_in(c) == Some(p@),
    ensures
        p@.provider == k,
        sums_up_provider(t, p),
{
    lemma_group_counts(t, provider_key(), k);
}

/// A summary says what the rows come to: all of them, those of each provider that some row has, in
/// order and each once, and the latencies. Where a database sums up right, it does not fail unless some
/// sum runs over.
pub proof fn law_the_summary_says_what_the_rows_come_to(
    t: Seq<Entry>,
    log: Seq<Exchange>,
    summary: Result<Summary, LedgerError>,
    totals: Answer,
    providers: Answer,
    latency: Answer,
)
    requires
        totals_answered(t, totals),
        providers_answered(t, providers),
        latency_answered(t, latency),
        ledger::summed_up(log, summary, totals, providers, latency),
    ensures
        summable(t) && latency_summable(t) ==> summary is Ok,
        summary is Ok ==> {
            let s = summary->Ok_0;
            let v = s.by_provider@;
            &&& holds_the_sums(s, t)
            &&& keys_of(t, provider_key(), reported_providers(v))
            &&& texts_ascend(reported_providers(v))
            &&& forall|i: int| 0 <= i < v.len() ==> sums_up_provider(t, #[trigger] v[i])
            &&& s.compress_micros == latency_sum(t, Share::Whole)
            &&& s.compress_events == latency_sum(t, Share::Count)
        },
{
    lemma_halves_add_up(t);
    let rs = providers->Ok_0;
    let keys = choose|keys: Seq<Seq<char>>| #[trigger] provider_groups(t, keys, rs);
    if providers is Ok {
        assert forall|i: int| 0 <= i < rs.len() implies rows::provider_in(#[trigger] rs[i]) is Some by {
            lemma_provider_read(t, keys[i], rs[i]);
        }
    }
    if summary is Ok {
        lemma_summary_holds_the_sums(t, log, summary, totals, providers, latency);
        let v = summary->Ok_0.by_provider@;
        assert forall|i: int| 0 <= i < v.len() implies sums_up_provider(t, #[trigger] v[i])
            && v[i]@.provider == keys[i] by {
            assert(rows::provider_in(rs[i]) == Some(v[i]@));
            lemma_provider_placed(t, keys[i], rs[i], v[i]);
        }
        assert(reported_providers(v) =~= keys);
        let row = latency->Ok_0[0];
        assert(rows::int_at(row, 0) is Some && rows::int_at(row, 1) is Some && rows::int_at(row, 2) is Some);
    }
}

} // verus!
