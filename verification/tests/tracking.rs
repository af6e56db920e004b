use llmtrim::tracking::clock::Instant;
use llmtrim::tracking::database::{failed_at, QueryError, Stage};
use llmtrim::tracking::ledger::{
    count, model_rows, period_rows, provider_rows, prune_outcome, retention, summarize,
    LedgerError, PruneReplies, Report, Tracker, DEFAULT_MAX_ROWS,
};
use llmtrim::tracking::rows::{latency_of, totals_of, Totals};
use llmtrim::tracking::sql::{self, Cell};
use llmtrim::tracking::{db_path, NoHome, Period, ProviderRow, Record, Summary};

fn rec(provider: &str, exact: bool, before: i64, after: i64) -> Record {
    Record {
        provider: provider.to_string(),
        model: Some("m".to_string()),
        tokenizer: "t".to_string(),
        exact,
        input_before: before,
        input_after: after,
        output_before: None,
        output_after: None,
        compress_micros: None,
    }
}

fn percent(part: Option<(i64, i64)>) -> f64 {
    match part {
        Some((saved, of)) => saved as f64 / of as f64 * 100.0,
        None => 0.0,
    }
}

#[test]
fn record_and_summarize() {
    let mut t = Tracker::open_in_memory().unwrap();
    t.record(&rec("openai", true, 100, 60)).unwrap();
    t.record(&rec("openai", true, 50, 40)).unwrap();
    t.record(&rec("anthropic", false, 200, 150)).unwrap();

    let s = t.summary().unwrap();
    assert_eq!(s.events, 3);
    assert_eq!(s.input_before, 350);
    assert_eq!(s.input_after, 250);
    assert_eq!(s.saved(), 100);
    assert!((percent(s.saved_fraction()) - 28.57).abs() < 0.1);
    assert!(s.any_approximate, "an anthropic (approx) row exists");
    assert_eq!(s.by_provider.len(), 2);

    let oa = s.by_provider.iter().find(|r| r.provider == "openai").unwrap();
    assert_eq!(oa.events, 2);
    assert!(oa.exact);
    let an = s.by_provider.iter().find(|r| r.provider == "anthropic").unwrap();
    assert!(!an.exact);
}

#[test]
fn empty_ledger_summary_is_zero() {
    let mut t = Tracker::open_in_memory().unwrap();
    let s = t.summary().unwrap();
    assert_eq!(s.events, 0);
    assert_eq!(s.saved(), 0);
    assert_eq!(percent(s.saved_fraction()), 0.0);
    assert!(!s.any_approximate);
    assert_eq!(s.output_before, 0);
    assert_eq!(s.output_after, 0);
    assert_eq!(s.output_events, 0);
}

#[test]
fn output_tokens_round_trip_and_aggregate() {
    let mut t = Tracker::open_in_memory().unwrap();

    // Row 1: has measured output tokens.
    t.record(&Record {
        provider: "openai".to_string(),
        model: Some("gpt-4o".to_string()),
        tokenizer: "tiktoken".to_string(),
        exact: true,
        input_before: 100,
        input_after: 60,
        output_before: None,
        output_after: Some(42),
        compress_micros: Some(300),
    })
    .unwrap();

    // Row 2: also has measured output tokens.
    t.record(&Record {
        provider: "openai".to_string(),
        model: Some("gpt-4o".to_string()),
        tokenizer: "tiktoken".to_string(),
        exact: true,
        input_before: 80,
        input_after: 50,
        output_before: None,
        output_after: Some(17),
        compress_micros: Some(500),
    })
    .unwrap();

    // Row 3: network-free (no output measurement).
    t.record(&rec("openai", true, 50, 30)).unwrap();

    let s = t.summary().unwrap();

    // Three total events.
    assert_eq!(s.events, 3);

    // Only two rows had output_after set.
    assert_eq!(s.output_events, 2);

    // Sum of the two measured output_after values.
    assert_eq!(s.output_after, 59);

    // output_before stays NULL → sums to 0.
    assert_eq!(s.output_before, 0);

    // Mean compression overhead over the two timed rows (the rec() row is NULL → ignored).
    assert_eq!(s.compress_mean().map(|(sum, n)| sum as f64 / n as f64), Some(400.0));

    // Per-provider reflects the same aggregation.
    let oa = s.by_provider.iter().find(|r| r.provider == "openai").unwrap();
    assert_eq!(oa.output_events, 2);
    assert_eq!(oa.output_after, 59);
    assert_eq!(oa.output_before, 0);
}

#[test]
fn prune_caps_to_most_recent_rows() {
    let mut t = Tracker::open_in_memory().unwrap();
    for _ in 0..10 {
        t.record(&rec("openai", true, 10, 5)).unwrap();
    }
    let deleted = t.prune(4, None).unwrap();
    assert_eq!(deleted, 6, "10 rows capped to 4 → 6 deleted");
    assert_eq!(t.summary().unwrap().events, 4);
}

#[test]
fn prune_drops_rows_older_than_max_age() {
    let mut t = Tracker::open_in_memory().unwrap();
    // Three ancient rows (explicit old ts), two fresh.
    for _ in 0..3 {
        t.record_with_ts(&rec("openai", true, 10, 5), "2000-01-01T00:00:00+00:00").unwrap();
    }
    t.record(&rec("openai", true, 10, 5)).unwrap();
    t.record(&rec("openai", true, 10, 5)).unwrap();

    let deleted = t.prune(DEFAULT_MAX_ROWS, Some(30)).unwrap();
    assert_eq!(deleted, 3, "only the three >30d-old rows are dropped");
    assert_eq!(t.summary().unwrap().events, 2);
}

#[test]
fn prune_without_age_keeps_old_rows_within_cap() {
    let mut t = Tracker::open_in_memory().unwrap();
    t.record_with_ts(&rec("openai", true, 10, 5), "2000-01-01T00:00:00+00:00").unwrap();
    // No age policy and under the cap → the ancient row survives.
    let deleted = t.prune(DEFAULT_MAX_ROWS, None).unwrap();
    assert_eq!(deleted, 0);
    assert_eq!(t.summary().unwrap().events, 1);
}

#[test]
fn defaults_prune_by_the_retention() {
    let mut t = Tracker::open_in_memory().unwrap();
    t.record_with_ts(&rec("openai", true, 10, 5), "2000-01-01T00:00:00+00:00").unwrap();
    assert_eq!(t.prune_default(Some(0)), Ok(0));
    assert_eq!(t.prune_default(Some(-3)), Ok(0));
    assert_eq!(t.prune_default(None), Ok(0));
    assert_eq!(t.prune_default(Some(90)), Ok(1));
    assert_eq!(retention(Some(5)), Some(5));
    assert_eq!(retention(Some(0)), None);
    assert_eq!(retention(None), None);
    // No row is that old.
    t.record(&rec("openai", true, 10, 5)).unwrap();
    assert_eq!(t.prune(10, Some(106_751_991_167)), Ok(0));
    assert_eq!(t.prune(DEFAULT_MAX_ROWS, Some(i64::MAX)), Ok(0));
    assert_eq!(t.summary().unwrap().events, 1);
}

#[test]
fn models_are_summed_up_one_by_one() {
    let mut t = Tracker::open_in_memory().unwrap();
    t.record(&rec("b", true, 10, 4)).unwrap();
    t.record(&rec("b", true, 20, 5)).unwrap();
    t.record(&Record { model: None, output_after: Some(7), ..rec("a", true, 1, 1) }).unwrap();
    let rows = t.by_model().unwrap();
    assert_eq!(rows.len(), 2);
    assert_eq!((rows[0].provider.as_str(), rows[0].model.as_deref()), ("a", None));
    assert_eq!((rows[0].events, rows[0].output_after), (1, 7));
    assert_eq!((rows[1].provider.as_str(), rows[1].model.as_deref()), ("b", Some("m")));
    assert_eq!((rows[1].events, rows[1].input_before, rows[1].input_after), (2, 30, 9));
}

#[test]
fn periods_are_summed_up_one_by_one() {
    let mut t = Tracker::open_in_memory().unwrap();
    for ts in ["2024-01-31T10:00:00+00:00", "2024-02-01T10:00:00+00:00", "2024-02-01T11:00:00+00:00"] {
        t.record_with_ts(&rec("a", true, 10, 4), ts).unwrap();
    }
    let buckets = |t: &mut Tracker, p: Period| -> Vec<(String, i64, i64)> {
        t.by_period(p).unwrap().into_iter().map(|r| (r.bucket, r.events, r.input_before)).collect()
    };
    assert_eq!(
        buckets(&mut t, Period::Day),
        vec![("2024-01-31".to_string(), 1, 10), ("2024-02-01".to_string(), 2, 20)]
    );
    assert_eq!(
        buckets(&mut t, Period::Month),
        vec![("2024-01".to_string(), 1, 10), ("2024-02".to_string(), 2, 20)]
    );
    assert_eq!(buckets(&mut t, Period::Week), vec![("2024-W05".to_string(), 3, 30)]);
    assert_eq!(Period::Day.label(), "daily");
    assert_eq!(Period::Week.label(), "weekly");
    assert_eq!(Period::Month.label(), "monthly");
    assert_eq!(Period::Week.sql_bucket(), "strftime('%G-W%V', ts)");
    assert!(sql::by_period(Period::Month).starts_with("SELECT substr(ts, 1, 7) AS bucket"));
}

#[test]
fn a_ledger_that_cannot_be_opened_says_so() {
    let r = Tracker::open_at("/nonexistent/directory/tracking.db", None);
    assert_eq!(r.err(), Some(LedgerError::Open));
}

#[test]
fn a_ledger_on_disk_is_opened_and_pruned() {
    // A temporary database that SQLite keeps for itself.
    let mut t = Tracker::open_at("", Some(30)).unwrap();
    t.record(&rec("openai", true, 10, 5)).unwrap();
    assert_eq!(t.summary().unwrap().events, 1);
}

#[test]
fn a_ledger_is_opened_at_its_path() {
    let name = "file:shared_ledger?mode=memory&cache=shared";
    let mut first = Tracker::open_at(name, None).unwrap();
    first.record(&rec("openai", true, 10, 5)).unwrap();
    let mut second = Tracker::open_at(name, None).unwrap();
    assert_eq!(second.summary().unwrap().events, 1);
    let mut other = Tracker::open_at("file:other_ledger?mode=memory&cache=shared", None).unwrap();
    assert_eq!(other.summary().unwrap().events, 0);
    let mut apart = Tracker::open_in_memory().unwrap();
    assert_eq!(apart.summary().unwrap().events, 0);
}

#[test]
fn instants_are_written_as_text() {
    let y2k = Instant { secs: 946_684_800, nanos: 0 };
    assert_eq!(y2k.to_rfc3339().as_deref(), Some("2000-01-01T00:00:00+00:00"));
    let later = Instant { secs: 946_684_800 + 30 * 86_400, nanos: 0 };
    assert_eq!(later.days_before(30).as_deref(), Some("2000-01-01T00:00:00+00:00"));
    let half = Instant { secs: 0, nanos: 500_000_000 };
    assert_eq!(half.to_rfc3339().as_deref(), Some("1970-01-01T00:00:00.500+00:00"));
    assert_eq!(Instant { secs: i64::MAX, nanos: 0 }.to_rfc3339(), None);
    // Nothing lies that far back.
    assert_eq!(y2k.days_before(i64::MAX), None);
    assert_eq!(y2k.days_before(106_751_991_167), None);
    let now = Instant::now();
    assert!(now.secs > 1_600_000_000);
    assert!(now.to_rfc3339().expect("a text").ends_with("+00:00"));
}

#[test]
fn answers_make_the_summary() {
    let totals = Totals {
        events: 4,
        input_before: 100,
        input_after: 75,
        approximate: 1,
        output_before: 40,
        output_after: 30,
        output_events: 2,
    };
    let provider = |name: &str, exact: bool| ProviderRow {
        provider: name.to_string(),
        events: 2,
        input_before: 50,
        input_after: 30,
        exact,
        output_before: 20,
        output_after: 15,
        output_events: 1,
    };
    let s = summarize(totals, vec![provider("a", false), provider("b", true)], (900, 3));
    assert!(s.any_approximate);
    assert!(!s.by_provider[0].exact && s.by_provider[1].exact);
    assert_eq!(s.by_provider[1].provider, "b");
    assert_eq!(s.saved_fraction(), Some((25, 100)));
    assert_eq!(s.output_saved(), 10);
    assert_eq!(s.output_saved_fraction(), Some((10, 40)));
    assert_eq!(s.compress_mean(), Some((900, 3)));
    assert_eq!(percent(s.saved_fraction()), 25.0);
    let none = Summary::default();
    assert_eq!(none.output_saved_fraction(), None);
    assert_eq!(none.compress_mean(), None);
    // More tokens after than before: a negative saving.
    let worse = Summary { input_before: 10, input_after: 15, ..Summary::default() };
    assert_eq!(worse.saved_fraction(), Some((-5, 10)));
}

#[test]
fn pruning_reports_its_first_failure() {
    let all = PruneReplies { cutoff: true, aged: Some(2), count: Some(14), capped: Some(4) };
    assert_eq!(prune_outcome(10, Some(30), all), Ok(6));
    assert_eq!(prune_outcome(10, None, all), Ok(4));
    assert_eq!(prune_outcome(14, Some(30), all), Ok(2));
    let p = PruneReplies { cutoff: false, aged: None, ..all };
    assert_eq!(prune_outcome(10, Some(30), p), Ok(4));
    let p = PruneReplies { aged: None, ..all };
    assert_eq!(prune_outcome(10, Some(30), p), Err(LedgerError::AgePrune));
    let p = PruneReplies { count: None, ..all };
    assert_eq!(prune_outcome(10, None, p), Err(LedgerError::Count));
    let p = PruneReplies { capped: None, ..all };
    assert_eq!(prune_outcome(10, None, p), Err(LedgerError::CapPrune));
}

#[test]
fn errors_have_texts() {
    let texts = [
        (LedgerError::OpenInMemory, "failed to open in-memory ledger"),
        (LedgerError::Open, "failed to open ledger"),
        (LedgerError::Migrate, "failed to migrate ledger schema"),
        (LedgerError::AgePrune, "failed to age-prune ledger"),
        (LedgerError::Count, "failed to count ledger rows"),
        (LedgerError::CapPrune, "failed to cap-prune ledger"),
        (LedgerError::Record, "failed to record compression"),
        (LedgerError::Summarize, "failed to summarize ledger"),
        (LedgerError::Latency, "failed to average compression latency"),
        (LedgerError::Rows(Report::Provider, Stage::Prepare), "failed to prepare provider summary"),
        (LedgerError::Rows(Report::Model, Stage::Query), "failed to query model summary"),
        (LedgerError::Rows(Report::Period, Stage::Read), "failed to read period summary"),
    ];
    for (e, text) in texts {
        assert_eq!(e.message(), text);
    }
}

#[test]
fn the_ledger_has_its_place() {
    assert_eq!(db_path(Some("/x.db"), Some("/d"), Some("/h"), None).unwrap(), vec!["/x.db"]);
    assert_eq!(
        db_path(None, Some("/d"), Some("/h"), None).unwrap(),
        vec!["/d", "llmtrim", "tracking.db"]
    );
    assert_eq!(
        db_path(None, None, Some("/h"), Some("/u")).unwrap(),
        vec!["/h", ".local/share", "llmtrim", "tracking.db"]
    );
    assert_eq!(
        db_path(None, None, None, Some("/u")).unwrap(),
        vec!["/u", ".local/share", "llmtrim", "tracking.db"]
    );
    let none = db_path(None, None, None, None).unwrap_err();
    assert_eq!(none, NoHome);
    assert_eq!(none.message(), "set HOME (or USERPROFILE), or LLMTRIM_DB_PATH");
}

#[test]
fn failures_have_their_stage() {
    let why = || rusqlite::Error::InvalidQuery;
    assert_eq!(failed_at(QueryError::Prepare(why())), Stage::Prepare);
    assert_eq!(failed_at(QueryError::Query(why())), Stage::Query);
    assert_eq!(failed_at(QueryError::Read(why())), Stage::Read);
}

#[test]
fn a_refused_connection_is_named() {
    let refused = Tracker::over(Err(rusqlite::Error::InvalidQuery), LedgerError::OpenInMemory);
    assert_eq!(refused.err(), Some(LedgerError::OpenInMemory));
    let read_only = rusqlite::Connection::open_in_memory().unwrap();
    read_only.execute_batch("PRAGMA query_only = 1").unwrap();
    let r = Tracker::over(Ok(read_only), LedgerError::Open);
    assert_eq!(r.err(), Some(LedgerError::Migrate));
}

#[test]
fn a_lost_table_fails_every_question() {
    let name = "file:lost_table?mode=memory&cache=shared";
    let other = rusqlite::Connection::open(name).unwrap();
    let mut t = Tracker::open_at(name, None).unwrap();
    t.record(&rec("openai", true, 10, 5)).unwrap();
    other.execute_batch("DROP TABLE compressions").unwrap();
    assert_eq!(t.record(&rec("openai", true, 10, 5)), Err(LedgerError::Record));
    assert_eq!(t.summary().err(), Some(LedgerError::Summarize));
    assert_eq!(t.prune(10, Some(1)), Err(LedgerError::AgePrune));
    assert_eq!(t.prune(10, None), Err(LedgerError::Count));
    assert_eq!(
        t.by_model().err(),
        Some(LedgerError::Rows(Report::Model, Stage::Prepare))
    );
    assert_eq!(
        t.by_period(Period::Week).err(),
        Some(LedgerError::Rows(Report::Period, Stage::Prepare))
    );
}

#[test]
fn gaps_in_the_ids_cost_no_recent_row() {
    let mut t = Tracker::open_in_memory().unwrap();
    let old = "2000-01-01T00:00:00+00:00";
    for ts in ["2900-01-01T00:00:00+00:00", "2900-01-02T00:00:00+00:00", old, old] {
        t.record_with_ts(&rec("openai", true, 10, 5), ts).unwrap();
    }
    t.record_with_ts(&rec("openai", true, 10, 5), "2900-01-03T00:00:00+00:00").unwrap();
    // Two old rows go, and then the oldest of the three that are left.
    assert_eq!(t.prune(2, Some(30)), Ok(3));
    let days: Vec<String> =
        t.by_period(Period::Day).unwrap().into_iter().map(|r| r.bucket).collect();
    assert_eq!(days, vec!["2900-01-02", "2900-01-03"]);
    assert_eq!(t.prune(-1, None), Ok(2));
    assert_eq!(t.summary().unwrap().events, 0);
}

#[test]
fn weeks_are_iso_weeks() {
    let mut t = Tracker::open_in_memory().unwrap();
    t.record_with_ts(&rec("openai", true, 10, 5), "2021-01-01T00:00:00+00:00").unwrap();
    let weeks = t.by_period(Period::Week).unwrap();
    assert_eq!(weeks.len(), 1);
    assert_eq!((weeks[0].bucket.as_str(), weeks[0].events), ("2020-W53", 1));
}

#[test]
fn latency_sums_do_not_run_over() {
    let mut t = Tracker::open_in_memory().unwrap();
    for _ in 0..3 {
        let r = Record { compress_micros: Some(i64::MAX), ..rec("openai", true, 10, 5) };
        t.record(&r).unwrap();
    }
    let r = Record { compress_micros: Some(-5), ..rec("openai", true, 10, 5) };
    t.record(&r).unwrap();
    let s = t.summary().unwrap();
    assert_eq!(s.compress_mean(), Some((3 * i64::MAX as i128 - 5, 4)));
}

#[test]
fn reports_sum_to_the_summary() {
    let mut t = Tracker::open_in_memory().unwrap();
    let rows = [
        ("a", Some("x"), 10, 4, Some(3), "2024-01-01T00:00:00+00:00"),
        ("a", None, 20, 5, None, "2024-01-08T00:00:00+00:00"),
        ("b", Some("x"), 30, 6, Some(1), "2024-02-01T00:00:00+00:00"),
        ("a", Some("x"), 40, 7, None, "2024-02-01T12:00:00+00:00"),
    ];
    for (provider, model, before, after, out, ts) in rows {
        let r = Record {
            model: model.map(|m: &str| m.to_string()),
            output_after: out,
            ..rec(provider, true, before, after)
        };
        t.record_with_ts(&r, ts).unwrap();
    }
    let s = t.summary().unwrap();
    let models = t.by_model().unwrap();
    let keys: Vec<(&str, Option<&str>)> =
        models.iter().map(|m| (m.provider.as_str(), m.model.as_deref())).collect();
    assert_eq!(keys, vec![("a", None), ("a", Some("x")), ("b", Some("x"))]);
    assert_eq!(models.iter().map(|m| m.events).sum::<i64>(), s.events);
    assert_eq!(models.iter().map(|m| m.input_before).sum::<i64>(), s.input_before);
    assert_eq!(models.iter().map(|m| m.output_after).sum::<i64>(), s.output_after);
    for period in [Period::Day, Period::Week, Period::Month] {
        let v = t.by_period(period).unwrap();
        assert!(v.windows(2).all(|w| w[0].bucket < w[1].bucket));
        assert!(v.iter().all(|r| r.events >= 1));
        assert_eq!(v.iter().map(|r| r.events).sum::<i64>(), s.events);
        assert_eq!(v.iter().map(|r| r.input_after).sum::<i64>(), s.input_after);
    }
}

#[test]
fn columns_have_their_places() {
    let int = Cell::Int;
    let text = |s: &str| Cell::Text(s.to_string());
    assert_eq!(count(&Ok(vec![vec![int(7)]])), Some(7));
    assert_eq!(count(&Ok(vec![])), None);
    assert_eq!(count(&Ok(vec![vec![text("7")]])), None);
    assert_eq!(count(&Err(Stage::Query)), None);
    let totals = vec![(1..8).map(int).collect::<Vec<Cell>>()];
    let totals = totals_of(&totals).expect("seven numbers");
    assert_eq!((totals.events, totals.input_before, totals.input_after), (1, 2, 3));
    assert_eq!((totals.approximate, totals.output_before), (4, 5));
    assert_eq!((totals.output_after, totals.output_events), (6, 7));
    assert_eq!(totals_of(&vec![vec![int(1), Cell::Null]]), None);
    assert_eq!(latency_of(&vec![vec![int(2), int(5), int(9)]]), Some((2 * 4294967296 + 5, 9)));
    assert_eq!(latency_of(&vec![vec![Cell::Other, int(5), int(9)]]), None);
    let row = vec![text("p"), int(1), int(2), int(3), int(0), int(5), int(6), int(7)];
    let p = provider_rows(Ok(vec![row])).expect("a provider");
    assert_eq!((p[0].provider.as_str(), p[0].events, p[0].exact), ("p", 1, false));
    assert_eq!((p[0].output_before, p[0].output_after, p[0].output_events), (5, 6, 7));
    let m = model_rows(Ok(vec![vec![text("p"), Cell::Null, int(1), int(2), int(3), int(4)]]))
        .expect("a model");
    assert_eq!((m[0].model.as_deref(), m[0].input_after, m[0].output_after), (None, 3, 4));
    let w = period_rows(Ok(vec![vec![text("w"), int(1), int(2), int(3), int(4), int(5)]]))
        .expect("a period");
    assert_eq!((w[0].bucket.as_str(), w[0].output_before, w[0].output_after), ("w", 4, 5));
    assert_eq!(
        provider_rows(Ok(vec![vec![]])).err(),
        Some(LedgerError::Rows(Report::Provider, Stage::Read))
    );
    assert_eq!(
        model_rows(Err(Stage::Query)).err(),
        Some(LedgerError::Rows(Report::Model, Stage::Query))
    );
    assert_eq!(
        period_rows(Ok(vec![vec![Cell::Null]])).err(),
        Some(LedgerError::Rows(Report::Period, Stage::Read))
    );
}

#[test]
fn fractions_need_no_difference_without_data() {
    let s = Summary { input_before: -2, input_after: i64::MAX, ..Summary::default() };
    assert_eq!(s.saved_fraction(), None);
}
