//! What setting up and uninstalling report.
use vstd::prelude::*;

verus! {

/// How a step went.
#[derive(Debug, Clone, Copy, PartialEq, Eq, Structural)]
pub enum Mark {
    Good,
    Note,
    Warn,
}

/// The system that is set up.
#[derive(Debug, Clone, Copy, PartialEq, Eq, Structural)]
pub enum Platform {
    Unix,
    Windows,
    Other,
}

/// One row of the summary panel: what a step was about, and how it went.
#[derive(Debug, PartialEq)]
pub struct Row {
    pub mark: Mark,
    pub label: String,
    pub text: String,
}

/// A row with its texts as sequences of characters.
pub struct RowView {
    pub mark: Mark,
    pub label: Seq<char>,
    pub text: Seq<char>,
}

impl View for Row {
    type V = RowView;

    open spec fn view(&self) -> RowView {
        RowView { mark: self.mark, label: self.label@, text: self.text@ }
    }
}

/// The views of a list of rows.
pub open spec fn rows_view(v: Seq<Row>) -> Seq<RowView> {
    v.map_values(|r: Row| r@)
}

/// A row.
pub open spec fn row_view(mark: Mark, label: Seq<char>, text: Seq<char>) -> RowView {
    RowView { mark, label, text }
}

/// Appends a row.
pub fn add_row(rows: &mut Vec<Row>, mark: Mark, label: &str, text: &str)
    ensures
        rows_view(final(rows)@) == rows_view(old(rows)@).push(row_view(mark, label@, text@)),
{
    let row = Row { mark, label: label.to_owned(), text: text.to_owned() };
    rows.push(row);
    assert(rows_view(rows@) =~= rows_view(old(rows)@).push(row@));
}

/// One line of what is printed below the panel, and how it is painted.
#[derive(Debug, PartialEq)]
pub enum Line {
    Blank,
    Plain(String),
    Bold(String),
    Warning(String),
    Note(String),
    /// A dim label and a command.
    Hint(String, String),
}

/// A line with its texts as sequences of characters.
pub enum LineView {
    Blank,
    Plain(Seq<char>),
    Bold(Seq<char>),
    Warning(Seq<char>),
    Note(Seq<char>),
    Hint(Seq<char>, Seq<char>),
}

impl View for Line {
    type V = LineView;

    open spec fn view(&self) -> LineView {
        match self {
            Line::Blank => LineView::Blank,
            Line::Plain(s) => LineView::Plain(s@),
            Line::Bold(s) => LineView::Bold(s@),
            Line::Warning(s) => LineView::Warning(s@),
            Line::Note(s) => LineView::Note(s@),
            Line::Hint(a, b) => LineView::Hint(a@, b@),
        }
    }
}

/// The views of a list of lines.
pub open spec fn lines_view(v: Seq<Line>) -> Seq<LineView> {
    v.map_values(|l: Line| l@)
}

/// Appends a line.
pub fn add_line(lines: &mut Vec<Line>, line: Line)
    ensures
        lines_view(final(lines)@) == lines_view(old(lines)@).push(line@),
{
    lines.push(line);
    assert(lines_view(lines@) =~= lines_view(old(lines)@).push(line@));
}

/// Two texts one after the other.
pub fn join2(a: &str, b: &str) -> (r: String)
    ensures
        r@ == a@ + b@,
{
    let mut out = a.to_owned();
    out.append(b);
    out
}

/// Three texts one after another.
pub fn join3(a: &str, b: &str, c: &str) -> (r: String)
    ensures
        r@ == a@ + b@ + c@,
{
    let mut out = a.to_owned();
    out.append(b);
    out.append(c);
    out
}

/// Four texts one after another.
pub fn join4(a: &str, b: &str, c: &str, d: &str) -> (r: String)
    ensures
        r@ == a@ + b@ + c@ + d@,
{
    let mut out = a.to_owned();
    out.append(b);
    out.append(c);
    out.append(d);
    out
}

} // verus!
