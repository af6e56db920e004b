//! What the rows that a query gives back mean: which column is which.
use crate::tracking::sql;
use crate::tracking::sql::{Cell, CellView};
use crate::tracking::{ModelRow, PeriodRow, ProviderRow};
use vstd::prelude::*;

verus! {

// ---------------------------------------------------------------------------------------------
// Columns
// ---------------------------------------------------------------------------------------------

/// The integer in column `i`, where there is one.
pub open spec fn int_at(row: Seq<CellView>, i: int) -> Option<i64> {
    if 0 <= i < row.len() && row[i] is Int {
        Some(row[i]->Int_0)
    } else {
        None
    }
}

/// The text in column `i`, where there is one.
pub open spec fn text_at(row: Seq<CellView>, i: int) -> Option<Seq<char>> {
    if 0 <= i < row.len() && row[i] is Text {
        Some(row[i]->Text_0)
    } else {
        None
    }
}

/// The text in column `i`, or nothing where the column is empty; `None` where it holds anything else.
pub open spec fn text_or_null_at(row: Seq<CellView>, i: int) -> Option<Option<Seq<char>>> {
    if 0 <= i < row.len() {
        match row[i] {
            CellView::Text(s) => Some(Some(s)),
            CellView::Null => Some(None),
            _ => None,
        }
    } else {
        None
    }
}

/// Every column from `from` up to `to` holds an integer.
pub open spec fn ints(row: Seq<CellView>, from: int, to: int) -> bool {
    forall|i: int| from <= i < to ==> #[trigger] int_at(row, i) is Some
}

fn int_of(row: &Vec<Cell>, i: usize) -> (r: Option<i64>)
    ensures
        r == int_at(sql::cells_view(row@), i as int),
{
    if i < row.len() {
        match &row[i] {
            Cell::Int(n) => Some(*n),
            _ => None,
        }
    } else {
        None
    }
}

fn text_of(row: &Vec<Cell>, i: usize) -> (r: Option<String>)
    ensures
        match r {
            Some(s) => text_at(sql::cells_view(row@), i as int) == Some(s@),
            None => text_at(sql::cells_view(row@), i as int) is None,
        },
{
    if i < row.len() {
        match &row[i] {
            Cell::Text(s) => Some(s.clone()),
            _ => None,
        }
    } else {
        None
    }
}

/// An optional text as characters.
pub open spec fn option_view(s: Option<String>) -> Option<Seq<char>> {
    match s {
        Some(t) => Some(t@),
        None => None,
    }
}

fn text_or_null_of(row: &Vec<Cell>, i: usize) -> (r: Option<Option<String>>)
    ensures
        match r {
            Some(s) => text_or_null_at(sql::cells_view(row@), i as int) == Some(option_view(s)),
            None => text_or_null_at(sql::cells_view(row@), i as int) is None,
        },
{
    if i < row.len() {
        match &row[i] {
            Cell::Text(s) => Some(Some(s.clone())),
            Cell::Null => Some(None),
            _ => None,
        }
    } else {
        None
    }
}

/// The integers of the columns from `from` up to `to`, in order; `None` where one of the columns holds
/// anything else.
fn ints_of(row: &Vec<Cell>, from: usize, to: usize) -> (r: Option<Vec<i64>>)
    requires
        from <= to,
    ensures
        match r {
            Some(v) => v@.len() == to - from && ints(sql::cells_view(row@), from as int, to as int)
                && forall|k: int|
                0 <= k < v@.len() ==> int_at(sql::cells_view(row@), from + k) == Some(
                    #[trigger] v@[k],
                ),
            None => !ints(sql::cells_view(row@), from as int, to as int),
        },
{
    let ghost cells = sql::cells_view(row@);
    let mut v: Vec<i64> = Vec::new();
    let mut i: usize = from;
    while i < to
        invariant
            from <= i <= to,
            cells == sql::cells_view(row@),
            v@.len() == i - from,
            ints(cells, from as int, i as int),
            forall|k: int| 0 <= k < v@.len() ==> int_at(cells, from + k) == Some(#[trigger] v@[k]),
        decreases to - i,
    {
        match int_of(row, i) {
            Some(n) => {
                v.push(n);
            },
            None => {
                assert(int_at(cells, i as int) is None);
                return None;
            },
        }
        i = i + 1;
    }
    Some(v)
}

// ---------------------------------------------------------------------------------------------
// Single rows
// ---------------------------------------------------------------------------------------------

/// The totals of all rows.
#[derive(Debug, Clone, Copy, PartialEq, Eq, Structural)]
pub struct Totals {
    pub events: i64,
    pub input_before: i64,
    pub input_after: i64,
    /// How many rows were counted without the exact tokenizer.
    pub approximate: i64,
    pub output_before: i64,
    pub output_after: i64,
    pub output_events: i64,
}

/// The number that the first row of an answer is.
pub open spec fn count_in(rows: Seq<Seq<CellView>>) -> Option<i64> {
    if rows.len() == 0 {
        None
    } else {
        int_at(rows[0], 0)
    }
}

/// The number that the first row of an answer is.
pub fn count_of(rows: &Vec<Vec<Cell>>) -> (r: Option<i64>)
    ensures
        r == count_in(sql::table_view(rows@)),
{
    if rows.len() == 0 {
        None
    } else {
        assert(sql::table_view(rows@)[0] == sql::cells_view(rows@[0]@));
        int_of(&rows[0], 0)
    }
}

/// The totals that the first row of an answer holds.
pub open spec fn totals_in(rows: Seq<Seq<CellView>>) -> Option<Totals> {
    if rows.len() == 0 || !ints(rows[0], 0, 7) {
        None
    } else {
        let c = rows[0];
        Some(
            Totals {
                events: int_at(c, 0)->0,
                input_before: int_at(c, 1)->0,
                input_after: int_at(c, 2)->0,
                approximate: int_at(c, 3)->0,
                output_before: int_at(c, 4)->0,
                output_after: int_at(c, 5)->0,
                output_events: int_at(c, 6)->0,
            },
        )
    }
}

/// The totals that the first row of an answer holds.
pub fn totals_of(rows: &Vec<Vec<Cell>>) -> (r: Option<Totals>)
    ensures
        r == totals_in(sql::table_view(rows@)),
{
    if rows.len() == 0 {
        return None;
    }
    assert(sql::table_view(rows@)[0] == sql::cells_view(rows@[0]@));
    match ints_of(&rows[0], 0, 7) {
        Some(v) => {
            let ghost c = sql::cells_view(rows@[0]@);
            assert forall|k: int| 0 <= k < 7 implies int_at(c, k) == Some(#[trigger] v@[k]) by {
                assert(int_at(c, 0 + k) == Some(v@[k]));
            }
            Some(
                Totals {
                    events: v[0],
                    input_before: v[1],
                    input_after: v[2],
                    approximate: v[3],
                    output_before: v[4],
                    output_after: v[5],
                    output_events: v[6],
                },
            )
        },
        None => None,
    }
}

/// The latency that the first row of an answer holds: the sum of all, put together from the sums of
/// the upper and the lower halves, and how many there are.
pub open spec fn latency_in(rows: Seq<Seq<CellView>>) -> Option<(int, i64)> {
    if rows.len() == 0 || !ints(rows[0], 0, 3) {
        None
    } else {
        let c = rows[0];
        Some((int_at(c, 0)->0 * 0x1_0000_0000 + int_at(c, 1)->0, int_at(c, 2)->0))
    }
}

/// The latency that the first row of an answer holds.
pub fn latency_of(rows: &Vec<Vec<Cell>>) -> (r: Option<(i128, i64)>)
    ensures
        match r {
            Some(l) => latency_in(sql::table_view(rows@)) == Some((l.0 as int, l.1)),
            None => latency_in(sql::table_view(rows@)) is None,
        },
{
    if rows.len() == 0 {
        return None;
    }
    assert(sql::table_view(rows@)[0] == sql::cells_view(rows@[0]@));
    match ints_of(&rows[0], 0, 3) {
        Some(v) => {
            let ghost c = sql::cells_view(rows@[0]@);
            assert forall|k: int| 0 <= k < 3 implies int_at(c, k) == Some(#[trigger] v@[k]) by {
                assert(int_at(c, 0 + k) == Some(v@[k]));
            }
            let upper: i128 = v[0] as i128 * 0x1_0000_0000;
            let lower: i128 = v[1] as i128;
            let count: i64 = v[2];
            Some((upper + lower, count))
        },
        None => None,
    }
}

// ---------------------------------------------------------------------------------------------
// Lists of rows
// ---------------------------------------------------------------------------------------------

/// A provider's row with its text as a sequence of characters.
pub struct ProviderView {
    pub provider: Seq<char>,
    pub events: i64,
    pub input_before: i64,
    pub input_after: i64,
    pub exact: bool,
    pub output_before: i64,
    pub output_after: i64,
    pub output_events: i64,
}

impl View for ProviderRow {
    type V = ProviderView;

    open spec fn view(&self) -> ProviderView {
        ProviderView {
            provider: self.provider@,
            events: self.events,
            input_before: self.input_before,
            input_after: self.input_after,
            exact: self.exact,
            output_before: self.output_before,
            output_after: self.output_after,
            output_events: self.output_events,
        }
    }
}

/// A model's row with its texts as sequences of characters.
pub struct ModelView {
    pub provider: Seq<char>,
    pub model: Option<Seq<char>>,
    pub events: i64,
    pub input_before: i64,
    pub input_after: i64,
    pub output_after: i64,
}

impl View for ModelRow {
    type V = ModelView;

    open spec fn view(&self) -> ModelView {
        ModelView {
            provider: self.provider@,
            model: option_view(self.model),
            events: self.events,
            input_before: self.input_before,
            input_after: self.input_after,
            output_after: self.output_after,
        }
    }
}

/// A period's row with its text as a sequence of characters.
pub struct PeriodView {
    pub bucket: Seq<char>,
    pub events: i64,
    pub input_before: i64,
    pub input_after: i64,
    pub output_before: i64,
    pub output_after: i64,
}

impl View for PeriodRow {
    type V = PeriodView;

    open spec fn view(&self) -> PeriodView {
        PeriodView {
            bucket: self.bucket@,
            events: self.events,
            input_before: self.input_before,
            input_after: self.input_after,
            output_before: self.output_before,
            output_after: self.output_after,
        }
    }
}

/// The provider that a row sums up. It is exact where none of its rows was counted without the exact
/// tokenizer.
pub open spec fn provider_in(c: Seq<CellView>) -> Option<ProviderView> {
    if text_at(c, 0) is None || !ints(c, 1, 8) {
        None
    } else {
        Some(
            ProviderView {
                provider: text_at(c, 0)->0,
                events: int_at(c, 1)->0,
                input_before: int_at(c, 2)->0,
                input_after: int_at(c, 3)->0,
                exact: int_at(c, 4)->0 != 0,
                output_before: int_at(c, 5)->0,
                output_after: int_at(c, 6)->0,
                output_events: int_at(c, 7)->0,
            },
        )
    }
}

/// The model that a row sums up.
pub open spec fn model_in(c: Seq<CellView>) -> Option<ModelView> {
    if text_at(c, 0) is None || text_or_null_at(c, 1) is None || !ints(c, 2, 6) {
        None
    } else {
        Some(
            ModelView {
                provider: text_at(c, 0)->0,
                model: text_or_null_at(c, 1)->0,
                events: int_at(c, 2)->0,
                input_before: int_at(c, 3)->0,
                input_after: int_at(c, 4)->0,
                output_after: int_at(c, 5)->0,
            },
        )
    }
}

/// The period that a row sums up.
pub open spec fn period_in(c: Seq<CellView>) -> Option<PeriodView> {
    if text_at(c, 0) is None || !ints(c, 1, 6) {
        None
    } else {
        Some(
            PeriodView {
                bucket: text_at(c, 0)->0,
                events: int_at(c, 1)->0,
                input_before: int_at(c, 2)->0,
                input_after: int_at(c, 3)->0,
                output_before: int_at(c, 4)->0,
                output_after: int_at(c, 5)->0,
            },
        )
    }
}

fn provider_of(row: &Vec<Cell>) -> (r: Option<ProviderRow>)
    ensures
        match r {
            Some(p) => provider_in(sql::cells_view(row@)) == Some(p@),
            None => provider_in(sql::cells_view(row@)) is None,
        },
{
    match (text_of(row, 0), ints_of(row, 1, 8)) {
        (Some(provider), Some(v)) => {
            let ghost c = sql::cells_view(row@);
            assert(int_at(c, 1) == Some(v@[0]) && int_at(c, 2) == Some(v@[1]) && int_at(c, 3)
                == Some(v@[2]) && int_at(c, 4) == Some(v@[3]) && int_at(c, 5) == Some(v@[4])
                && int_at(c, 6) == Some(v@[5]) && int_at(c, 7) == Some(v@[6]));
            Some(
                ProviderRow {
                    provider,
                    events: v[0],
                    input_before: v[1],
                    input_after: v[2],
                    exact: v[3] != 0,
                    output_before: v[4],
                    output_after: v[5],
                    output_events: v[6],
                },
            )
        },
        _ => None,
    }
}

fn model_of(row: &Vec<Cell>) -> (r: Option<ModelRow>)
    ensures
        match r {
            Some(m) => model_in(sql::cells_view(row@)) == Some(m@),
            None => model_in(sql::cells_view(row@)) is None,
        },
{
    match (text_of(row, 0), text_or_null_of(row, 1), ints_of(row, 2, 6)) {
        (Some(provider), Some(model), Some(v)) => {
            let ghost c = sql::cells_view(row@);
            assert(int_at(c, 2) == Some(v@[0]) && int_at(c, 3) == Some(v@[1]) && int_at(c, 4)
                == Some(v@[2]) && int_at(c, 5) == Some(v@[3]));
            Some(
                ModelRow {
                    provider,
                    model,
                    events: v[0],
                    input_before: v[1],
                    input_after: v[2],
                    output_after: v[3],
                },
            )
        },
        _ => None,
    }
}

fn period_of(row: &Vec<Cell>) -> (r: Option<PeriodRow>)
    ensures
        match r {
            Some(p) => period_in(sql::cells_view(row@)) == Some(p@),
            None => period_in(sql::cells_view(row@)) is None,
        },
{
    match (text_of(row, 0), ints_of(row, 1, 6)) {
        (Some(bucket), Some(v)) => {
            let ghost c = sql::cells_view(row@);
            assert(int_at(c, 1) == Some(v@[0]) && int_at(c, 2) == Some(v@[1]) && int_at(c, 3)
                == Some(v@[2]) && int_at(c, 4) == Some(v@[3]) && int_at(c, 5) == Some(v@[4]));
            Some(
                PeriodRow {
                    bucket,
                    events: v[0],
                    input_before: v[1],
                    input_after: v[2],
                    output_before: v[3],
                    output_after: v[4],
                },
            )
        },
        _ => None,
    }
}

/// The providers that the rows sum up, one each, in order.
pub open spec fn providers_in(rows: Seq<Seq<CellView>>, v: Seq<ProviderRow>) -> bool {
    v.len() == rows.len() && forall|i: int|
        0 <= i < v.len() ==> provider_in(rows[i]) == Some((#[trigger] v[i])@)
}

/// Some row sums up no provider.
pub open spec fn no_provider_in(rows: Seq<Seq<CellView>>) -> bool {
    exists|i: int| 0 <= i < rows.len() && provider_in(#[trigger] rows[i]) is None
}

/// Where every row sums up a provider, none sums up none.
pub proof fn lemma_all_or_some_provider(rows: Seq<Seq<CellView>>, v: Seq<ProviderRow>)
    requires
        providers_in(rows, v),
    ensures
        !no_provider_in(rows),
{
    if no_provider_in(rows) {
        let i = choose|i: int| 0 <= i < rows.len() && provider_in(#[trigger] rows[i]) is None;
        assert(provider_in(rows[i]) == Some(v[i]@));
    }
}

/// The providers that the rows of an answer sum up; `None` where some row sums up none.
pub fn providers_of(rows: &Vec<Vec<Cell>>) -> (r: Option<Vec<ProviderRow>>)
    ensures
        match r {
            Some(v) => providers_in(sql::table_view(rows@), v@),
            None => no_provider_in(sql::table_view(rows@)),
        },
{
    let ghost all = sql::table_view(rows@);
    let mut out: Vec<ProviderRow> = Vec::new();
    let mut i: usize = 0;
    while i < rows.len()
        invariant
            i <= rows@.len(),
            all == sql::table_view(rows@),
            out@.len() == i,
            forall|j: int| 0 <= j < i ==> provider_in(all[j]) == Some((#[trigger] out@[j])@),
        decreases rows@.len() - i,
    {
        assert(all[i as int] == sql::cells_view(rows@[i as int]@));
        match provider_of(&rows[i]) {
            Some(p) => {
                out.push(p);
            },
            None => {
                assert(provider_in(all[i as int]) is None);
                return None;
            },
        }
        i = i + 1;
    }
    Some(out)
}

/// The models that the rows sum up, one each, in order.
pub open spec fn models_in(rows: Seq<Seq<CellView>>, v: Seq<ModelRow>) -> bool {
    v.len() == rows.len() && forall|i: int|
        0 <= i < v.len() ==> model_in(rows[i]) == Some((#[trigger] v[i])@)
}

/// Some row sums up no model.
pub open spec fn no_model_in(rows: Seq<Seq<CellView>>) -> bool {
    exists|i: int| 0 <= i < rows.len() && model_in(#[trigger] rows[i]) is None
}

/// The models that the rows of an answer sum up; `None` where some row sums up none.
pub fn models_of(rows: &Vec<Vec<Cell>>) -> (r: Option<Vec<ModelRow>>)
    ensures
        match r {
            Some(v) => models_in(sql::table_view(rows@), v@),
            None => no_model_in(sql::table_view(rows@)),
        },
{
    let ghost all = sql::table_view(rows@);
    let mut out: Vec<ModelRow> = Vec::new();
    let mut i: usize = 0;
    while i < rows.len()
        invariant
            i <= rows@.len(),
            all == sql::table_view(rows@),
            out@.len() == i,
            forall|j: int| 0 <= j < i ==> model_in(all[j]) == Some((#[trigger] out@[j])@),
        decreases rows@.len() - i,
    {
        assert(all[i as int] == sql::cells_view(rows@[i as int]@));
        match model_of(&rows[i]) {
            Some(m) => {
                out.push(m);
            },
            None => {
                assert(model_in(all[i as int]) is None);
                return None;
            },
        }
        i = i + 1;
    }
    Some(out)
}

/// The periods that the rows sum up, one each, in order.
pub open spec fn periods_in(rows: Seq<Seq<CellView>>, v: Seq<PeriodRow>) -> bool {
    v.len() == rows.len() && forall|i: int|
        0 <= i < v.len() ==> period_in(rows[i]) == Some((#[trigger] v[i])@)
}

/// Some row sums up no period.
pub open spec fn no_period_in(rows: Seq<Seq<CellView>>) -> bool {
    exists|i: int| 0 <= i < rows.len() && period_in(#[trigger] rows[i]) is None
}

/// The periods that the rows of an answer sum up; `None` where some row sums up none.
pub fn periods_of(rows: &Vec<Vec<Cell>>) -> (r: Option<Vec<PeriodRow>>)
    ensures
        match r {
            Some(v) => periods_in(sql::table_view(rows@), v@),
            None => no_period_in(sql::table_view(rows@)),
        },
{
    let ghost all = sql::table_view(rows@);
    let mut out: Vec<PeriodRow> = Vec::new();
    let mut i: usize = 0;
    while i < rows.len()
        invariant
            i <= rows@.len(),
            all == sql::table_view(rows@),
            out@.len() == i,
            forall|j: int| 0 <= j < i ==> period_in(all[j]) == Some((#[trigger] out@[j])@),
        decreases rows@.len() - i,
    {
        assert(all[i as int] == sql::cells_view(rows@[i as int]@));
        match period_of(&rows[i]) {
            Some(p) => {
                out.push(p);
            },
            None => {
                assert(period_in(all[i as int]) is None);
                return None;
            },
        }
        i = i + 1;
    }
    Some(out)
}

} // verus!
