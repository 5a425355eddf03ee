//! The records of the two tables that describe a table of cells: the preview
//! of its first rows and the summary of its columns.
//!
//! A record is one line of a table to print, a list of texts. The first text
//! of every record is its label; the first record holds the column names
//! behind an empty label.

use crate::column::{column_nas, missing_count};
use vstd::prelude::*;

verus! {

/// How many rows a preview shows when no limit is given.
pub const DEFAULT_PREVIEW_ROWS: usize = 10;

/// What stands in a summary for a number that a column does not have.
pub open spec fn absent_text() -> Seq<char> {
    "N/A"@
}

/// The character of the decimal digit `d`.
pub open spec fn digit_char(d: nat) -> char
    recommends
        d < 10,
{
    (('0' as u8) + d) as char
}

/// The decimal numeral of `n`, without leading zeros.
pub open spec fn decimal(n: nat) -> Seq<char>
    decreases n,
{
    if n < 10 {
        seq![digit_char(n)]
    } else {
        decimal(n / 10).push(digit_char(n % 10))
    }
}

/// The number that a text of decimal digits denotes.
pub open spec fn numeral_value(text: Seq<char>) -> nat
    decreases text.len(),
{
    if text.len() == 0 {
        0
    } else {
        (numeral_value(text.drop_last()) * 10 + (text.last() as nat - '0' as nat)) as nat
    }
}

/// A decimal numeral is made of digits, denotes its number, and begins with
/// a zero only where it is the numeral of zero.
pub proof fn lemma_decimal_denotes(n: nat)
    ensures
        decimal(n).len() >= 1,
        forall|i: int| 0 <= i < decimal(n).len() ==> '0' <= #[trigger] decimal(n)[i] <= '9',
        numeral_value(decimal(n)) == n,
        decimal(n)[0] == '0' <==> n == 0,
    decreases n,
{
    if n < 10 {
        reveal_with_fuel(numeral_value, 2);
        assert(decimal(n).drop_last() =~= Seq::empty());
    } else {
        lemma_decimal_denotes(n / 10);
        let rest = decimal(n / 10);
        assert(decimal(n).drop_last() =~= rest);
        assert(decimal(n)[0] == rest[0]);
    }
}

/// How a count of missing values is shown: as its numeral, and not at all
/// when nothing is missing.
pub open spec fn missing_text(n: nat) -> Seq<char> {
    if n > 0 {
        decimal(n)
    } else {
        Seq::empty()
    }
}

/// The text of one decimal digit.
fn digit_text(d: usize) -> (text: &'static str)
    requires
        d < 10,
    ensures
        text@ == seq![digit_char(d as nat)],
{
    proof {
        reveal_strlit("0");
        reveal_strlit("1");
        reveal_strlit("2");
        reveal_strlit("3");
        reveal_strlit("4");
        reveal_strlit("5");
        reveal_strlit("6");
        reveal_strlit("7");
        reveal_strlit("8");
        reveal_strlit("9");
    }
    let text = match d {
        0 => "0",
        1 => "1",
        2 => "2",
        3 => "3",
        4 => "4",
        5 => "5",
        6 => "6",
        7 => "7",
        8 => "8",
        _ => "9",
    };
    assert(text@ =~= seq![digit_char(d as nat)]);
    text
}

/// Appends the decimal numeral of `n` to `text`.
fn push_decimal(text: &mut String, n: usize)
    ensures
        final(text)@ == old(text)@ + decimal(n as nat),
    decreases n,
{
    if n >= 10 {
        push_decimal(text, n / 10);
    }
    text.append(digit_text(n % 10));
    proof {
        if n >= 10 {
            assert(old(text)@ + decimal((n / 10) as nat) + seq![digit_char((n % 10) as nat)]
                =~= old(text)@ + decimal(n as nat));
        }
    }
}

/// The decimal numeral of `n`.
pub fn decimal_text(n: usize) -> (text: String)
    ensures
        text@ == decimal(n as nat),
{
    let mut text = String::new();
    push_decimal(&mut text, n);
    assert(Seq::<char>::empty() + decimal(n as nat) =~= decimal(n as nat));
    text
}

/// The text that shows a count of missing values: its numeral, or nothing
/// when the count is zero.
pub fn missing_count_text(n: usize) -> (text: String)
    ensures
        text@ == missing_text(n as nat),
{
    if n > 0 {
        decimal_text(n)
    } else {
        String::new()
    }
}

/// The texts of a column's five-number summary, as the caller rendered them.
#[derive(Clone, Debug)]
pub struct QuartileTexts {
    /// The least member.
    pub min: String,
    /// The first quartile.
    pub q1: String,
    /// The median.
    pub median: String,
    /// The third quartile.
    pub q3: String,
    /// The greatest member.
    pub max: String,
}

/// The texts of the numbers that describe one column, as the caller
/// rendered them.
#[derive(Clone, Debug)]
pub struct ColumnTexts {
    /// The mean.
    pub mean: String,
    /// The standard deviation.
    pub std: String,
    /// The five-number summary; none for a column without numbers.
    pub quartiles: Option<QuartileTexts>,
}

/// The statistics of a summary, in the order of its records.
#[derive(Clone, Copy, Debug, PartialEq, Eq)]
pub enum Statistic {
    /// The number of rows.
    Count,
    /// The number of missing values.
    Missing,
    /// The mean.
    Mean,
    /// The standard deviation.
    Std,
    /// The least member.
    Min,
    /// The first quartile.
    Q1,
    /// The median.
    Median,
    /// The third quartile.
    Q3,
    /// The greatest member.
    Max,
}

impl Statistic {
    /// The label of the record that shows this statistic.
    pub open spec fn label(self) -> Seq<char> {
        match self {
            Statistic::Count => "count"@,
            Statistic::Missing => "NaN"@,
            Statistic::Mean => "mean"@,
            Statistic::Std => "std"@,
            Statistic::Min => "min"@,
            Statistic::Q1 => "q1"@,
            Statistic::Median => "median"@,
            Statistic::Q3 => "q3"@,
            Statistic::Max => "max"@,
        }
    }

    /// Whether the table itself gives this statistic; the others are read
    /// from the texts that the caller rendered.
    pub open spec fn is_counted(self) -> bool {
        self == Statistic::Count || self == Statistic::Missing
    }

    /// How many cells the record of this statistic holds behind its label:
    /// one for every column name where the table gives the statistic, one
    /// for every column whose texts are given where it does not.
    pub open spec fn cells(self, headers: nat, texts: nat) -> nat {
        if self.is_counted() {
            headers
        } else {
            texts
        }
    }

    /// What the record of this statistic shows for column `col`: the number
    /// of rows; the number of missing values, or nothing where none is
    /// missing; the given text; for a member of the five-number summary the
    /// mark of an absent number where the column has no summary.
    pub open spec fn text(
        self,
        rows: Seq<Seq<Seq<char>>>,
        texts: Seq<ColumnTexts>,
        col: int,
    ) -> Seq<char> {
        match self {
            Statistic::Count => decimal(rows.len()),
            Statistic::Missing => missing_text(missing_count(rows, col)),
            Statistic::Mean => texts[col].mean@,
            Statistic::Std => texts[col].std@,
            Statistic::Min => match texts[col].quartiles {
                Some(q) => q.min@,
                None => absent_text(),
            },
            Statistic::Q1 => match texts[col].quartiles {
                Some(q) => q.q1@,
                None => absent_text(),
            },
            Statistic::Median => match texts[col].quartiles {
                Some(q) => q.median@,
                None => absent_text(),
            },
            Statistic::Q3 => match texts[col].quartiles {
                Some(q) => q.q3@,
                None => absent_text(),
            },
            Statistic::Max => match texts[col].quartiles {
                Some(q) => q.max@,
                None => absent_text(),
            },
        }
    }
}

/// The record that holds `cells` behind `label`.
pub open spec fn record(label: Seq<char>, cells: Seq<Seq<char>>) -> Seq<Seq<char>> {
    seq![label] + cells
}

/// The record of the column names: the names behind an empty label.
pub open spec fn header_record(headers: Seq<Seq<char>>) -> Seq<Seq<char>> {
    record(Seq::empty(), headers)
}

/// The record of a summary that shows `statistic` of every column.
pub open spec fn statistic_record(
    statistic: Statistic,
    headers: nat,
    rows: Seq<Seq<Seq<char>>>,
    texts: Seq<ColumnTexts>,
) -> Seq<Seq<char>> {
    record(
        statistic.label(),
        Seq::new(statistic.cells(headers, texts.len()), |col: int| statistic.text(rows, texts, col)),
    )
}

/// How many rows a preview shows: all of them up to `limit`, which is
/// [`DEFAULT_PREVIEW_ROWS`] where none is given.
pub open spec fn shown_rows(rows: nat, limit: Option<usize>) -> nat {
    let most = match limit {
        Some(m) => m as nat,
        None => DEFAULT_PREVIEW_ROWS as nat,
    };
    if rows < most {
        rows
    } else {
        most
    }
}

/// The records of the preview: the column names, then the first rows, each
/// behind its position.
pub open spec fn preview(
    headers: Seq<Seq<char>>,
    rows: Seq<Seq<Seq<char>>>,
    limit: Option<usize>,
) -> Seq<Seq<Seq<char>>> {
    Seq::new(
        shown_rows(rows.len(), limit) + 1,
        |i: int|
            if i == 0 {
                header_record(headers)
            } else {
                record(decimal((i - 1) as nat), rows[i - 1])
            },
    )
}

/// The records of the summary: the column names, then one record for every
/// statistic.
pub open spec fn summary(
    headers: Seq<Seq<char>>,
    rows: Seq<Seq<Seq<char>>>,
    texts: Seq<ColumnTexts>,
) -> Seq<Seq<Seq<char>>> {
    seq![
        header_record(headers),
        statistic_record(Statistic::Count, headers.len(), rows, texts),
        statistic_record(Statistic::Missing, headers.len(), rows, texts),
        statistic_record(Statistic::Mean, headers.len(), rows, texts),
        statistic_record(Statistic::Std, headers.len(), rows, texts),
        statistic_record(Statistic::Min, headers.len(), rows, texts),
        statistic_record(Statistic::Q1, headers.len(), rows, texts),
        statistic_record(Statistic::Median, headers.len(), rows, texts),
        statistic_record(Statistic::Q3, headers.len(), rows, texts),
        statistic_record(Statistic::Max, headers.len(), rows, texts),
    ]
}

/// The record that holds `cells` behind `label`.
fn labelled(label: String, cells: &Vec<String>) -> (out: Vec<String>)
    ensures
        out.deep_view() == record(label@, cells.deep_view()),
{
    let ghost goal = record(label@, cells.deep_view());
    let mut out: Vec<String> = Vec::new();
    out.push(label);
    assert(out.deep_view() =~= goal.take(1));
    let mut i: usize = 0;
    while i < cells.len()
        invariant
            i <= cells.len(),
            goal == record(label@, cells.deep_view()),
            out.deep_view() == goal.take(i + 1),
        decreases cells.len() - i,
    {
        let ghost before = out.deep_view();
        out.push(cells[i].clone());
        proof {
            assert(out.deep_view() =~= before.push(cells[i as int]@));
            assert(goal.take(i + 2) =~= goal.take(i + 1).push(goal[i + 1]));
        }
        i += 1;
    }
    proof {
        assert(goal.take(i + 1) =~= goal);
    }
    out
}

/// The records of the preview of a table: the column names behind an empty
/// label, then the first rows in order, each behind the numeral of its
/// position. It shows at most `max_lines` rows, and at most
/// [`DEFAULT_PREVIEW_ROWS`] where no limit is given.
pub fn preview_records(
    headers: &Vec<String>,
    rows: &[Vec<String>],
    max_lines: Option<usize>,
) -> (records: Vec<Vec<String>>)
    ensures
        records.deep_view() == preview(headers.deep_view(), rows.deep_view(), max_lines),
{
    let most = match max_lines {
        Some(m) => m,
        None => DEFAULT_PREVIEW_ROWS,
    };
    let shown = if rows.len() < most {
        rows.len()
    } else {
        most
    };
    let ghost goal = preview(headers.deep_view(), rows.deep_view(), max_lines);
    let mut records: Vec<Vec<String>> = Vec::new();
    records.push(labelled(String::new(), headers));
    assert(records.deep_view() =~= goal.take(1));
    let mut i: usize = 0;
    while i < shown
        invariant
            i <= shown <= rows@.len(),
            shown == shown_rows(rows@.len(), max_lines),
            goal == preview(headers.deep_view(), rows.deep_view(), max_lines),
            records.deep_view() == goal.take(i + 1),
        decreases shown - i,
    {
        let ghost before = records.deep_view();
        let line = labelled(decimal_text(i), &rows[i]);
        records.push(line);
        proof {
            assert(records.deep_view() =~= before.push(line.deep_view()));
            assert(goal.take(i + 2) =~= goal.take(i + 1).push(goal[i + 1]));
        }
        i += 1;
    }
    proof {
        assert(goal.take(shown + 1) =~= goal);
    }
    records
}

/// The label of the record that shows `statistic`.
fn label_text(statistic: Statistic) -> (label: String)
    ensures
        label@ == statistic.label(),
{
    match statistic {
        Statistic::Count => "count".to_owned(),
        Statistic::Missing => "NaN".to_owned(),
        Statistic::Mean => "mean".to_owned(),
        Statistic::Std => "std".to_owned(),
        Statistic::Min => "min".to_owned(),
        Statistic::Q1 => "q1".to_owned(),
        Statistic::Median => "median".to_owned(),
        Statistic::Q3 => "q3".to_owned(),
        Statistic::Max => "max".to_owned(),
    }
}

/// The text of a member of a five-number summary, or the mark of an absent
/// number where there is no summary. `statistic` is one of the five.
fn member_text(statistic: Statistic, quartiles: &Option<QuartileTexts>) -> (text: String)
    requires
        statistic != Statistic::Count,
        statistic != Statistic::Missing,
        statistic != Statistic::Mean,
        statistic != Statistic::Std,
    ensures
        text@ == match *quartiles {
            Some(q) => match statistic {
                Statistic::Min => q.min@,
                Statistic::Q1 => q.q1@,
                Statistic::Median => q.median@,
                Statistic::Q3 => q.q3@,
                _ => q.max@,
            },
            None => absent_text(),
        },
{
    match quartiles {
        Some(q) => match statistic {
            Statistic::Min => q.min.clone(),
            Statistic::Q1 => q.q1.clone(),
            Statistic::Median => q.median.clone(),
            Statistic::Q3 => q.q3.clone(),
            _ => q.max.clone(),
        },
        None => "N/A".to_owned(),
    }
}

/// What the record of `statistic` shows for column `col`.
fn statistic_text(
    statistic: Statistic,
    rows: &[Vec<String>],
    texts: &Vec<ColumnTexts>,
    col: usize,
) -> (text: String)
    requires
        !statistic.is_counted() ==> col < texts@.len(),
    ensures
        text@ == statistic.text(rows.deep_view(), texts@, col as int),
{
    match statistic {
        Statistic::Count => decimal_text(rows.len()),
        Statistic::Missing => missing_count_text(column_nas(rows, col)),
        Statistic::Mean => texts[col].mean.clone(),
        Statistic::Std => texts[col].std.clone(),
        _ => member_text(statistic, &texts[col].quartiles),
    }
}

/// The record of a summary that shows `statistic` of every column.
fn statistic_cells(
    statistic: Statistic,
    headers: usize,
    rows: &[Vec<String>],
    texts: &Vec<ColumnTexts>,
) -> (out: Vec<String>)
    ensures
        out.deep_view() == statistic_record(statistic, headers as nat, rows.deep_view(), texts@),
{
    let ghost goal = statistic_record(statistic, headers as nat, rows.deep_view(), texts@);
    let cells = match statistic {
        Statistic::Count => headers,
        Statistic::Missing => headers,
        _ => texts.len(),
    };
    let mut out: Vec<String> = Vec::new();
    out.push(label_text(statistic));
    assert(out.deep_view() =~= goal.take(1));
    let mut col: usize = 0;
    while col < cells
        invariant
            col <= cells,
            cells == statistic.cells(headers as nat, texts@.len()),
            goal == statistic_record(statistic, headers as nat, rows.deep_view(), texts@),
            out.deep_view() == goal.take(col + 1),
        decreases cells - col,
    {
        let ghost before = out.deep_view();
        let text = statistic_text(statistic, rows, texts, col);
        out.push(text);
        proof {
            assert(out.deep_view() =~= before.push(text@));
            assert(goal.take(col + 2) =~= goal.take(col + 1).push(goal[col + 1]));
        }
        col += 1;
    }
    proof {
        assert(goal.take(cells + 1) =~= goal);
    }
    out
}

/// The records of the summary of a table, ten in all: the column names
/// behind an empty label; under `count` the number of rows, once for every
/// column name; under `NaN` the number of missing values of every named
/// column, left empty where nothing is missing; under `mean` and `std` the
/// given texts; under `min`, `q1`, `median`, `q3` and `max` the given texts
/// of the five-number summary, and `N/A` for a column that has none.
pub fn summary_records(
    headers: &Vec<String>,
    rows: &[Vec<String>],
    texts: &Vec<ColumnTexts>,
) -> (records: Vec<Vec<String>>)
    ensures
        records.deep_view() == summary(headers.deep_view(), rows.deep_view(), texts@),
{
    let n = headers.len();
    let mut records: Vec<Vec<String>> = Vec::new();
    records.push(labelled(String::new(), headers));
    records.push(statistic_cells(Statistic::Count, n, rows, texts));
    records.push(statistic_cells(Statistic::Missing, n, rows, texts));
    records.push(statistic_cells(Statistic::Mean, n, rows, texts));
    records.push(statistic_cells(Statistic::Std, n, rows, texts));
    records.push(statistic_cells(Statistic::Min, n, rows, texts));
    records.push(statistic_cells(Statistic::Q1, n, rows, texts));
    records.push(statistic_cells(Statistic::Median, n, rows, texts));
    records.push(statistic_cells(Statistic::Q3, n, rows, texts));
    records.push(statistic_cells(Statistic::Max, n, rows, texts));
    proof {
        assert(records.deep_view() =~= summary(headers.deep_view(), rows.deep_view(), texts@));
    }
    records
}

} // verus!
