//! Counting the rows of a table and classifying the cells of one column.
//!
//! In contracts a table is the sequence of its rows, a row the sequence of its
//! cells, a cell the sequence of its characters. A column is a position in the
//! rows, counted from zero. A row holds a number in a column when it is long
//! enough to hold a cell there and that cell is a floating-point literal; if
//! not, the column's value is missing in that row.

use crate::literal::{is_float_literal, is_numeric_text};
use vstd::prelude::*;

verus! {

/// `row` holds a number in column `col`.
pub open spec fn is_numeric(row: Seq<Seq<char>>, col: int) -> bool {
    0 <= col < row.len() && is_float_literal(row[col])
}

/// The rows in which column `col` is missing.
pub open spec fn missing_in(col: int) -> spec_fn(Seq<Seq<char>>) -> bool {
    |row: Seq<Seq<char>>| !is_numeric(row, col)
}

/// The positions of the rows that hold a number in column `col`.
pub open spec fn numeric_at(rows: Seq<Seq<Seq<char>>>, col: int) -> spec_fn(usize) -> bool {
    |r: usize| 0 <= r < rows.len() && is_numeric(rows[r as int], col)
}

/// The first `n` row positions, in order.
pub open spec fn positions(n: nat) -> Seq<usize> {
    Seq::new(n, |r: int| r as usize)
}

/// How many rows miss a value in column `col`.
pub open spec fn missing_count(rows: Seq<Seq<Seq<char>>>, col: int) -> nat {
    rows.filter(missing_in(col)).len()
}

/// The numeric series of column `col`, as row positions: the rows that hold a
/// number in the column, in row order.
pub open spec fn numeric_rows(rows: Seq<Seq<Seq<char>>>, col: int) -> Seq<usize> {
    positions(rows.len()).filter(numeric_at(rows, col))
}

/// The number of rows of the table, whatever its cells hold.
pub fn column_rows(rows: &[Vec<String>]) -> (n: usize)
    ensures
        n == rows@.len(),
        n == rows.deep_view().len(),
{
    rows.len()
}

/// Whether `row` holds a number in column `col_idx`.
fn holds_number(row: &Vec<String>, col_idx: usize) -> (r: bool)
    ensures
        r == is_numeric(row.deep_view(), col_idx as int),
{
    col_idx < row.len() && is_numeric_text(row[col_idx].as_str())
}

/// The number of rows whose value in column `col_idx` is missing: the row is
/// too short to hold the cell, or the cell is no floating-point literal.
pub fn column_nas(rows: &[Vec<String>], col_idx: usize) -> (n: usize)
    ensures
        n == missing_count(rows.deep_view(), col_idx as int),
        n <= rows@.len(),
{
    let ghost table = rows.deep_view();
    let mut n: usize = 0;
    let mut i: usize = 0;
    proof {
        assert(table.take(0) =~= Seq::empty());
        reveal(Seq::filter);
    }
    while i < rows.len()
        invariant
            table == rows.deep_view(),
            i <= rows@.len(),
            n <= i,
            n == missing_count(table.take(i as int), col_idx as int),
        decreases rows@.len() - i,
    {
        let numeric = holds_number(&rows[i], col_idx);
        proof {
            assert(table.take(i + 1) =~= table.take(i as int).push(table[i as int]));
            table.take(i as int).lemma_filter_push(table[i as int], missing_in(col_idx as int));
        }
        if !numeric {
            n += 1;
        }
        i += 1;
    }
    proof {
        assert(table.take(i as int) =~= table);
    }
    n
}

/// The numeric series of column `col_idx`, as row positions: the positions of
/// the rows that hold a number in the column, in row order.
pub fn column_numeric_rows(rows: &[Vec<String>], col_idx: usize) -> (series: Vec<usize>)
    ensures
        series@ == numeric_rows(rows.deep_view(), col_idx as int),
        series@.len() + missing_count(rows.deep_view(), col_idx as int) == rows@.len(),
        forall|k: int|
            0 <= k < series@.len() ==> (#[trigger] series@[k]) < rows@.len() && col_idx
                < rows@[series@[k] as int]@.len(),
{
    let ghost table = rows.deep_view();
    let ghost keep = numeric_at(table, col_idx as int);
    let mut series: Vec<usize> = Vec::new();
    let mut i: usize = 0;
    proof {
        assert(positions(0) =~= Seq::empty());
        reveal(Seq::filter);
    }
    while i < rows.len()
        invariant
            table == rows.deep_view(),
            keep == numeric_at(table, col_idx as int),
            i <= rows@.len(),
            series@ == positions(i as nat).filter(keep),
        decreases rows@.len() - i,
    {
        proof {
            assert(positions((i + 1) as nat) =~= positions(i as nat).push(i));
            positions(i as nat).lemma_filter_push(i, keep);
        }
        if holds_number(&rows[i], col_idx) {
            series.push(i);
        }
        i += 1;
    }
    proof {
        lemma_every_row_is_classified(table, col_idx as int);
        lemma_numeric_rows_members(table, col_idx as int);
        assert forall|k: int| 0 <= k < series@.len() implies (#[trigger] series@[k]) < rows@.len()
            && col_idx < rows@[series@[k] as int]@.len() by {
            let r = numeric_rows(table, col_idx as int)[k];
            assert(is_numeric(table[r as int], col_idx as int));
        }
    }
    series
}

/// What the first `n` rows contribute to the two classes: each of them is
/// counted once, as missing or as a member of the numeric series.
proof fn lemma_prefix_is_classified(rows: Seq<Seq<Seq<char>>>, col: int, n: nat)
    requires
        n <= rows.len() <= usize::MAX,
    ensures
        rows.take(n as int).filter(missing_in(col)).len() + positions(n).filter(
            numeric_at(rows, col),
        ).len() == n,
    decreases n,
{
    reveal(Seq::filter);
    if n == 0 {
        assert(rows.take(0) =~= Seq::empty());
        assert(positions(0) =~= Seq::empty());
    } else {
        let m = (n - 1) as nat;
        lemma_prefix_is_classified(rows, col, m);
        assert(rows.take(n as int) =~= rows.take(m as int).push(rows[m as int]));
        assert(positions(n) =~= positions(m).push(m as usize));
        rows.take(m as int).lemma_filter_push(rows[m as int], missing_in(col));
        positions(m).lemma_filter_push(m as usize, numeric_at(rows, col));
    }
}

/// Every row is classified exactly once: the rows that miss a value in a
/// column and the rows of its numeric series together are all the rows.
pub proof fn lemma_every_row_is_classified(rows: Seq<Seq<Seq<char>>>, col: int)
    requires
        rows.len() <= usize::MAX,
    ensures
        missing_count(rows, col) + numeric_rows(rows, col).len() == rows.len(),
{
    lemma_prefix_is_classified(rows, col, rows.len());
    assert(rows.take(rows.len() as int) =~= rows);
}

/// A column in which every row holds a number has no missing value.
pub proof fn lemma_all_numeric_none_missing(rows: Seq<Seq<Seq<char>>>, col: int)
    requires
        forall|r: int| 0 <= r < rows.len() ==> is_numeric(#[trigger] rows[r], col),
    ensures
        missing_count(rows, col) == 0,
{
    let missing = rows.filter(missing_in(col));
    if missing.len() > 0 {
        rows.lemma_filter_pred(missing_in(col), 0);
        assert(missing.contains(missing[0]));
        rows.lemma_filter_contains_rev(missing_in(col), missing[0]);
        let r = choose|r: int| 0 <= r < rows.len() && rows[r] == missing[0];
        assert(is_numeric(rows[r], col));
    }
}

/// A column in which no row holds a number misses its value in every row,
/// and its numeric series is empty.
pub proof fn lemma_none_numeric_all_missing(rows: Seq<Seq<Seq<char>>>, col: int)
    requires
        rows.len() <= usize::MAX,
        forall|r: int| 0 <= r < rows.len() ==> !is_numeric(#[trigger] rows[r], col),
    ensures
        missing_count(rows, col) == rows.len(),
        numeric_rows(rows, col).len() == 0,
{
    let series = numeric_rows(rows, col);
    lemma_every_row_is_classified(rows, col);
    if series.len() > 0 {
        positions(rows.len()).lemma_filter_pred(numeric_at(rows, col), 0);
        assert(is_numeric(rows[series[0] as int], col));
    }
}

/// The members of the numeric series: every member is the position of a row
/// that holds a number in the column, every such row is a member, and the
/// members stand in row order.
pub proof fn lemma_numeric_rows_members(rows: Seq<Seq<Seq<char>>>, col: int)
    requires
        rows.len() <= usize::MAX,
    ensures
        forall|k: int|
            0 <= k < numeric_rows(rows, col).len() ==> {
                let r = #[trigger] numeric_rows(rows, col)[k];
                r < rows.len() && is_numeric(rows[r as int], col)
            },
        forall|r: int|
            0 <= r < rows.len() && is_numeric(#[trigger] rows[r], col) ==> numeric_rows(
                rows,
                col,
            ).contains(r as usize),
        forall|j: int, k: int|
            0 <= j < k < numeric_rows(rows, col).len() ==> numeric_rows(rows, col)[j]
                < numeric_rows(rows, col)[k],
{
    let keep = numeric_at(rows, col);
    let all = positions(rows.len());
    let series = numeric_rows(rows, col);
    assert forall|k: int| 0 <= k < series.len() implies {
        let r = #[trigger] series[k];
        r < rows.len() && is_numeric(rows[r as int], col)
    } by {
        all.lemma_filter_pred(keep, k);
    }
    assert forall|r: int| 0 <= r < rows.len() && is_numeric(#[trigger] rows[r], col) implies series.contains(
        r as usize,
    ) by {
        assert(all[r] == r as usize);
        all.lemma_filter_contains(keep, r);
    }
    lemma_prefix_in_order(rows, col, rows.len());
}

/// The numeric rows among the first `n` positions stand in row order, and
/// all lie below `n`.
proof fn lemma_prefix_in_order(rows: Seq<Seq<Seq<char>>>, col: int, n: nat)
    requires
        n <= rows.len() <= usize::MAX,
    ensures
        forall|k: int|
            0 <= k < positions(n).filter(numeric_at(rows, col)).len() ==> (#[trigger] positions(
                n,
            ).filter(numeric_at(rows, col))[k]) < n,
        forall|j: int, k: int|
            0 <= j < k < positions(n).filter(numeric_at(rows, col)).len() ==> positions(n).filter(
                numeric_at(rows, col),
            )[j] < positions(n).filter(numeric_at(rows, col))[k],
    decreases n,
{
    reveal(Seq::filter);
    if n == 0 {
        assert(positions(0) =~= Seq::empty());
    } else {
        let m = (n - 1) as nat;
        lemma_prefix_in_order(rows, col, m);
        assert(positions(n) =~= positions(m).push(m as usize));
        positions(m).lemma_filter_push(m as usize, numeric_at(rows, col));
    }
}

/// The statistics of a column depend on the cells alone: two tables that
/// hold the same cells have the same number of rows, the same number of
/// missing values and the same numeric series in every column. So a
/// statistic taken twice of a table that has not changed is the same both
/// times.
pub proof fn lemma_same_cells_same_statistics(a: &[Vec<String>], b: &[Vec<String>], col: int)
    requires
        a.deep_view() == b.deep_view(),
    ensures
        a@.len() == b@.len(),
        missing_count(a.deep_view(), col) == missing_count(b.deep_view(), col),
        numeric_rows(a.deep_view(), col) == numeric_rows(b.deep_view(), col),
{
    assert(a.deep_view().len() == a@.len());
    assert(b.deep_view().len() == b@.len());
}

} // verus!
