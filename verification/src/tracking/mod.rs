//! SQLite savings ledger.
//!
//! Every compression leaves one row of metadata; the ledger sums the rows up and prunes the old
//! ones. SQLite keeps the rows and evaluates the statements, through `rusqlite`; this module decides
//! which statement runs with which values, and what its answer means. Recording is best-effort: a
//! ledger failure must never block the user's compressed output.
pub mod clock;
pub mod database;
pub mod laws;
pub mod ledger;
pub mod report_laws;
pub mod rows;
pub mod sql;

use crate::text;
use vstd::prelude::*;

verus! {

// ---------------------------------------------------------------------------------------------
// What is recorded and what is reported
// ---------------------------------------------------------------------------------------------

/// One compression event.
#[derive(Debug, Clone)]
pub struct Record {
    pub provider: String,
    pub model: Option<String>,
    pub tokenizer: String,
    pub exact: bool,
    pub input_before: i64,
    pub input_after: i64,
    pub output_before: Option<i64>,
    pub output_after: Option<i64>,
    /// Microseconds spent compressing this request; `None` for paths that do not measure it.
    pub compress_micros: Option<i64>,
}

/// Per-provider aggregate row.
#[derive(Debug, Clone)]
pub struct ProviderRow {
    pub provider: String,
    pub events: i64,
    pub input_before: i64,
    pub input_after: i64,
    pub exact: bool,
    pub output_before: i64,
    pub output_after: i64,
    pub output_events: i64,
}

/// Per-(provider, model) aggregate row, for pricing savings with a per-model rate.
#[derive(Debug, Clone)]
pub struct ModelRow {
    pub provider: String,
    pub model: Option<String>,
    pub events: i64,
    pub input_before: i64,
    pub input_after: i64,
    pub output_after: i64,
}

/// Time-series bucket granularity for `by_period`.
#[derive(Debug, Clone, Copy, PartialEq, Eq, Structural)]
pub enum Period {
    Day,
    Week,
    Month,
}

/// One time bucket of savings.
#[derive(Debug, Clone)]
pub struct PeriodRow {
    pub bucket: String,
    pub events: i64,
    pub input_before: i64,
    pub input_after: i64,
    pub output_before: i64,
    pub output_after: i64,
}

/// The SQL expression that buckets the rfc3339 `ts` column.
pub open spec fn sql_bucket_view(period: Period) -> Seq<char> {
    match period {
        Period::Day => "substr(ts, 1, 10)"@,
        Period::Month => "substr(ts, 1, 7)"@,
        Period::Week => "strftime('%G-W%V', ts)"@,
    }
}

pub open spec fn label_view(period: Period) -> Seq<char> {
    match period {
        Period::Day => "daily"@,
        Period::Week => "weekly"@,
        Period::Month => "monthly"@,
    }
}

impl Period {
    /// The SQL expression that buckets the rfc3339 `ts` column: the text is sliced for a day or a
    /// month, and only an ISO week needs a date function.
    pub fn sql_bucket(self) -> (r: &'static str)
        ensures
            r@ == sql_bucket_view(self),
    {
        match self {
            Period::Day => "substr(ts, 1, 10)",
            Period::Month => "substr(ts, 1, 7)",
            Period::Week => "strftime('%G-W%V', ts)",
        }
    }

    pub fn label(self) -> (r: &'static str)
        ensures
            r@ == label_view(self),
    {
        match self {
            Period::Day => "daily",
            Period::Week => "weekly",
            Period::Month => "monthly",
        }
    }
}

/// Aggregate savings.
#[derive(Debug, Clone)]
pub struct Summary {
    pub events: i64,
    pub input_before: i64,
    pub input_after: i64,
    pub any_approximate: bool,
    pub by_provider: Vec<ProviderRow>,
    pub output_before: i64,
    pub output_after: i64,
    pub output_events: i64,
    /// Microseconds spent compressing, over all requests that measured it.
    pub compress_micros: i128,
    /// How many requests measured it.
    pub compress_events: i64,
}

/// The part of `before` that was saved, where there was anything to save from.
pub open spec fn fraction_saved(before: i64, after: i64) -> Option<(i64, i64)> {
    if before <= 0 {
        None
    } else {
        Some(((before - after) as i64, before))
    }
}

impl Default for Summary {
    fn default() -> (r: Summary)
        ensures
            r.events == 0,
            r.input_before == 0,
            r.input_after == 0,
            !r.any_approximate,
            r.by_provider@.len() == 0,
            r.output_before == 0,
            r.output_after == 0,
            r.output_events == 0,
            r.compress_micros == 0,
            r.compress_events == 0,
    {
        Summary {
            events: 0,
            input_before: 0,
            input_after: 0,
            any_approximate: false,
            by_provider: Vec::new(),
            output_before: 0,
            output_after: 0,
            output_events: 0,
            compress_micros: 0,
            compress_events: 0,
        }
    }
}

impl Summary {
    /// Input tokens saved.
    pub fn saved(&self) -> (r: i64)
        requires
            i64::MIN <= self.input_before - self.input_after <= i64::MAX,
        ensures
            r == self.input_before - self.input_after,
    {
        self.input_before - self.input_after
    }

    /// Output tokens saved.
    pub fn output_saved(&self) -> (r: i64)
        requires
            i64::MIN <= self.output_before - self.output_after <= i64::MAX,
        ensures
            r == self.output_before - self.output_after,
    {
        self.output_before - self.output_after
    }

    /// Input tokens saved, of how many; `None` where there is no data.
    pub fn saved_fraction(&self) -> (r: Option<(i64, i64)>)
        requires
            self.input_before > 0 ==> self.input_before - self.input_after <= i64::MAX,
        ensures
            r == fraction_saved(self.input_before, self.input_after),
    {
        if self.input_before <= 0 {
            None
        } else {
            Some((self.saved(), self.input_before))
        }
    }

    /// Output tokens saved, of how many; `None` where there is nothing to compare with.
    pub fn output_saved_fraction(&self) -> (r: Option<(i64, i64)>)
        requires
            self.output_before > 0 ==> self.output_before - self.output_after <= i64::MAX,
        ensures
            r == fraction_saved(self.output_before, self.output_after),
    {
        if self.output_before <= 0 {
            None
        } else {
            Some((self.output_saved(), self.output_before))
        }
    }

    /// Microseconds spent compressing, by how many requests; `None` where no request measured it.
    pub fn compress_mean(&self) -> (r: Option<(i128, i64)>)
        ensures
            r == if self.compress_events > 0 {
                Some((self.compress_micros, self.compress_events))
            } else {
                None
            },
    {
        if self.compress_events > 0 {
            Some((self.compress_micros, self.compress_events))
        } else {
            None
        }
    }
}

// ---------------------------------------------------------------------------------------------
// Where the ledger is kept
// ---------------------------------------------------------------------------------------------

/// Neither the ledger's path nor a home directory is known.
#[derive(Debug, Clone, Copy, PartialEq, Eq, Structural)]
pub struct NoHome;

impl NoHome {
    /// The text of this error.
    pub fn message(&self) -> (r: &'static str)
        ensures
            r@ == "set HOME (or USERPROFILE), or LLMTRIM_DB_PATH"@,
    {
        "set HOME (or USERPROFILE), or LLMTRIM_DB_PATH"
    }
}

/// The parts of the ledger's path: the path that is set, else a file under the data directory, else
/// one under the home directory.
pub open spec fn db_path_view(
    explicit: Option<Seq<char>>,
    data_home: Option<Seq<char>>,
    home: Option<Seq<char>>,
    user_profile: Option<Seq<char>>,
) -> Option<Seq<Seq<char>>> {
    if explicit is Some {
        Some(seq![explicit->0])
    } else if data_home is Some {
        Some(seq![data_home->0, "llmtrim"@, "tracking.db"@])
    } else if home is Some {
        Some(seq![home->0, ".local/share"@, "llmtrim"@, "tracking.db"@])
    } else if user_profile is Some {
        Some(seq![user_profile->0, ".local/share"@, "llmtrim"@, "tracking.db"@])
    } else {
        None
    }
}

/// The parts of the ledger's path, to be joined in order, given the environment's `LLMTRIM_DB_PATH`,
/// `XDG_DATA_HOME`, `HOME` and `USERPROFILE`.
pub fn db_path(
    explicit: Option<&str>,
    data_home: Option<&str>,
    home: Option<&str>,
    user_profile: Option<&str>,
) -> (r: Result<Vec<String>, NoHome>)
    ensures
        match r {
            Ok(parts) => db_path_view(text::given(explicit), text::given(data_home), text::given(home), text::given(user_profile))
                == Some(text::texts(parts@)),
            Err(_) => db_path_view(text::given(explicit), text::given(data_home), text::given(home), text::given(user_profile)) is None,
        },
{
    let mut parts: Vec<String> = Vec::new();
    let ghost want = db_path_view(text::given(explicit), text::given(data_home), text::given(home), text::given(user_profile));
    match explicit {
        Some(p) => {
            parts.push(p.to_owned());
            assert(text::texts(parts@) =~= want->0);
            return Ok(parts);
        },
        None => {},
    }
    match data_home {
        Some(d) => {
            parts.push(d.to_owned());
        },
        None => {
            let dir = match home {
                Some(h) => h,
                None => match user_profile {
                    Some(u) => u,
                    None => {
                        return Err(NoHome);
                    },
                },
            };
            parts.push(dir.to_owned());
            parts.push(".local/share".to_owned());
        },
    }
    parts.push("llmtrim".to_owned());
    parts.push("tracking.db".to_owned());
    assert(text::texts(parts@) =~= want->0);
    Ok(parts)
}

} // verus!
