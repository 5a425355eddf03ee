//! The two tables as text, drawn by the `tabled` crate.
//!
//! The records of a table are laid out by the verified functions of
//! [`crate::report`] and made fit to draw by those of [`crate::visible`];
//! drawing them is left to `tabled`, whose result is named here and not
//! described. `tabled` reads a cell for the sequences that an escape
//! character begins, and fails on some of them: it is handed no cell that
//! holds the character.

use crate::report::{preview, preview_records, summary, summary_records, ColumnTexts};
use crate::visible::{free_of_escapes, holds_escape, visible_cells, visible_records};
use tabled::builder::Builder;
use tabled::settings::merge::Merge;
use tabled::settings::object::Rows;
use tabled::settings::style::LineText;
use tabled::settings::{Color, Style};
use vstd::prelude::*;

verus! {

/// How far from the left edge the title of a table starts on its top border.
pub const TITLE_OFFSET: usize = 2;

/// The text that `tabled` draws for `records` in its modern style, the first
/// record in black on blue, with `title` written on the top border from
/// `offset` on.
pub uninterp spec fn framed_text(
    records: Seq<Seq<Seq<char>>>,
    title: Seq<char>,
    offset: usize,
) -> Seq<char>;

/// The text that `tabled` draws as [`framed_text`] does, after it has merged
/// the neighbours of a record that hold the same text into one cell.
pub uninterp spec fn merged_text(
    records: Seq<Seq<Seq<char>>>,
    title: Seq<char>,
    offset: usize,
) -> Seq<char>;

/// Draws a table with `tabled`: `Builder::from_iter` over the records and
/// `Builder::build`; on the table `Style::modern`, `Color::BG_BLUE |
/// Color::FG_BLACK` for `Rows::first`, and `LineText` with `title` at `offset`
/// on the border above the first row; then `Table::to_string`. Nothing of this
/// is verified. The contract only names the text that comes back, which is a
/// function of the records, the title and the offset. The records handed over
/// are never empty, nor is the first of them, and neither a cell nor the title
/// holds an escape character: without it the parser of escape sequences that
/// `tabled` runs over a cell to measure it stays in its ground state and cuts
/// the cell nowhere.
#[verifier::external_body]
fn draw_framed(records: &Vec<Vec<String>>, title: &str, offset: usize) -> (text: String)
    requires
        records@.len() > 0,
        records@[0]@.len() > 0,
        free_of_escapes(records.deep_view()),
        !holds_escape(title@),
    ensures
        text@ == framed_text(records.deep_view(), title@, offset),
{
    let mut table = Builder::from_iter(records.iter()).build();
    table
        .with(Style::modern())
        .modify(Rows::first(), Color::BG_BLUE | Color::FG_BLACK)
        .with(LineText::new(title, Rows::first()).offset(offset));
    table.to_string()
}

/// Draws a table with `tabled` as [`draw_framed`] does, with
/// `Merge::horizontal` applied right after the style. Nothing of this is
/// verified. The contract only names the text that comes back, which is a
/// function of the records, the title and the offset; what is handed over
/// meets the same conditions as there.
#[verifier::external_body]
fn draw_merged(records: &Vec<Vec<String>>, title: &str, offset: usize) -> (text: String)
    requires
        records@.len() > 0,
        records@[0]@.len() > 0,
        free_of_escapes(records.deep_view()),
        !holds_escape(title@),
    ensures
        text@ == merged_text(records.deep_view(), title@, offset),
{
    let mut table = Builder::from_iter(records.iter()).build();
    table
        .with(Style::modern())
        .with(Merge::horizontal())
        .modify(Rows::first(), Color::BG_BLUE | Color::FG_BLACK)
        .with(LineText::new(title, Rows::first()).offset(offset));
    table.to_string()
}

/// The preview of a table as text: the records of [`preview_records`],
/// every escape character in them replaced by its symbol, drawn under the
/// title `Data`.
pub fn data_table(
    headers: &Vec<String>,
    rows: &[Vec<String>],
    max_lines: Option<usize>,
) -> (text: String)
    ensures
        text@ == framed_text(
            visible_records(preview(headers.deep_view(), rows.deep_view(), max_lines)),
            "Data"@,
            TITLE_OFFSET,
        ),
{
    let records = visible_cells(&preview_records(headers, rows, max_lines));
    proof {
        let drawn = records.deep_view();
        assert(drawn.len() == records@.len());
        assert(drawn[0].len() == records@[0]@.len());
        reveal_strlit("Data");
    }
    draw_framed(&records, "Data", TITLE_OFFSET)
}

/// The summary of a table as text: the records of [`summary_records`],
/// every escape character in them replaced by its symbol, drawn under the
/// title `Stats`, equal neighbours merged.
pub fn stats_table(
    headers: &Vec<String>,
    rows: &[Vec<String>],
    texts: &Vec<ColumnTexts>,
) -> (text: String)
    ensures
        text@ == merged_text(
            visible_records(summary(headers.deep_view(), rows.deep_view(), texts@)),
            "Stats"@,
            TITLE_OFFSET,
        ),
{
    let records = visible_cells(&summary_records(headers, rows, texts));
    proof {
        let drawn = records.deep_view();
        assert(drawn.len() == records@.len());
        assert(drawn[0].len() == records@[0]@.len());
        reveal_strlit("Stats");
    }
    draw_merged(&records, "Stats", TITLE_OFFSET)
}

} // verus!
