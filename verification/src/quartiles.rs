//! The median and the five-number summary of a numeric series.
//!
//! A series is a list of numbers, each held as the 64 bits of its binary
//! floating-point value; a pattern that denotes no number is no member of it
//! and is passed over. The summary is read off the series put in the order of
//! the values: the least and the greatest number, the median, and the two
//! quartiles by nearest rank, the members at a quarter and at three quarters
//! of the length, rounded down. A series without members has no summary.

use crate::order::{ascending, in_order, lemma_in_order, precedes, sort_series};
use crate::pattern::{denotes_number, is_number};
use vstd::prelude::*;

verus! {

/// The median of a series that has members.
#[derive(Clone, Copy, Debug, PartialEq, Eq)]
pub enum Median {
    /// The series has an odd number of members: the median is the member in
    /// the middle.
    Middle(u64),
    /// The series has an even number of members: the median is the mean of
    /// the two members in the middle, the lesser of which stands first.
    Between(u64, u64),
}

impl Median {
    /// The member in the middle, or the lesser of the two in the middle.
    pub open spec fn low(self) -> u64 {
        match self {
            Median::Middle(m) => m,
            Median::Between(a, _) => a,
        }
    }

    /// The member in the middle, or the greater of the two in the middle.
    pub open spec fn high(self) -> u64 {
        match self {
            Median::Middle(m) => m,
            Median::Between(_, b) => b,
        }
    }
}

/// The five-number summary of a series that has members.
#[derive(Clone, Copy, Debug, PartialEq, Eq)]
pub struct Quartiles {
    /// The least member.
    pub min: u64,
    /// The first quartile.
    pub q1: u64,
    /// The median.
    pub median: Median,
    /// The third quartile.
    pub q3: u64,
    /// The greatest member.
    pub max: u64,
}

/// The median of a series that stands in order and has members.
pub open spec fn median_of(sorted: Seq<u64>) -> Median
    recommends
        sorted.len() > 0,
{
    let n = sorted.len() as int;
    if n % 2 == 0 {
        Median::Between(sorted[n / 2 - 1], sorted[n / 2])
    } else {
        Median::Middle(sorted[n / 2])
    }
}

/// The summary of a series that stands in order and has members.
pub open spec fn quartiles_of(sorted: Seq<u64>) -> Quartiles
    recommends
        sorted.len() > 0,
{
    let n = sorted.len() as int;
    Quartiles {
        min: sorted[0],
        q1: sorted[n / 4],
        median: median_of(sorted),
        q3: sorted[(3 * n) / 4],
        max: sorted[n - 1],
    }
}

/// The patterns that denote a number.
pub open spec fn numbers() -> spec_fn(u64) -> bool {
    |bits: u64| is_number(bits)
}

/// The members of the series that `values` holds: the patterns that denote
/// a number, in their order.
pub open spec fn members(values: Seq<u64>) -> Seq<u64> {
    values.filter(numbers())
}

/// The median of the series that `values` holds, if it has members.
pub open spec fn series_median(values: Seq<u64>) -> Option<Median> {
    if members(values).len() == 0 {
        None
    } else {
        Some(median_of(in_order(members(values))))
    }
}

/// The summary of the series that `values` holds, if it has members.
pub open spec fn series_quartiles(values: Seq<u64>) -> Option<Quartiles> {
    if members(values).len() == 0 {
        None
    } else {
        Some(quartiles_of(in_order(members(values))))
    }
}

/// The members of the series that `values` holds, put in order.
pub fn sorted_members(values: &Vec<u64>) -> (sorted: Vec<u64>)
    ensures
        sorted@ == in_order(members(values@)),
        sorted@.len() == members(values@).len(),
{
    let mut kept: Vec<u64> = Vec::new();
    let mut i: usize = 0;
    proof {
        assert(values@.take(0) =~= Seq::empty());
        reveal(Seq::filter);
    }
    while i < values.len()
        invariant
            i <= values.len(),
            kept@ == members(values@.take(i as int)),
        decreases values.len() - i,
    {
        let bits = values[i];
        proof {
            assert(values@.take(i + 1) =~= values@.take(i as int).push(bits));
            values@.take(i as int).lemma_filter_push(bits, numbers());
        }
        if denotes_number(bits) {
            kept.push(bits);
        }
        i += 1;
    }
    proof {
        assert(values@.take(i as int) =~= values@);
        lemma_in_order(kept@);
    }
    sort_series(&kept)
}

/// The median of a series that already stands in order; none if the series
/// has no members.
pub fn median_of_sorted(sorted: &Vec<u64>) -> (r: Option<Median>)
    ensures
        sorted@.len() == 0 ==> r is None,
        sorted@.len() > 0 ==> r == Some(median_of(sorted@)),
{
    let n = sorted.len();
    if n == 0 {
        None
    } else if n % 2 == 0 {
        Some(Median::Between(sorted[n / 2 - 1], sorted[n / 2]))
    } else {
        Some(Median::Middle(sorted[n / 2]))
    }
}

/// The summary of a series that already stands in order; none if the series
/// has no members.
pub fn quartiles_of_sorted(sorted: &Vec<u64>) -> (r: Option<Quartiles>)
    ensures
        sorted@.len() == 0 ==> r is None,
        sorted@.len() > 0 ==> r == Some(quartiles_of(sorted@)),
{
    let n = sorted.len();
    match median_of_sorted(sorted) {
        None => None,
        Some(median) => {
            let q1_pos = n / 4;
            let q3_pos = (n / 4) * 3 + ((n % 4) * 3) / 4;
            assert(q3_pos == (3 * n) / 4);
            Some(
                Quartiles {
                    min: sorted[0],
                    q1: sorted[q1_pos],
                    median,
                    q3: sorted[q3_pos],
                    max: sorted[n - 1],
                },
            )
        },
    }
}

/// The median of a series: of the series put in order, the member in the
/// middle, or the two in the middle between which it lies. A series without
/// members has none.
pub fn column_median(values: &Vec<u64>) -> (r: Option<Median>)
    ensures
        r == series_median(values@),
        r is None <==> members(values@).len() == 0,
{
    let sorted = sorted_members(values);
    median_of_sorted(&sorted)
}

/// The five-number summary of a series: of the series put in order, the
/// first member, the member at a quarter of the length, the median, the
/// member at three quarters of the length, and the last member. A series
/// without members has none.
pub fn column_quartiles(values: &Vec<u64>) -> (r: Option<Quartiles>)
    ensures
        r == series_quartiles(values@),
        r is None <==> members(values@).len() == 0,
{
    let sorted = sorted_members(values);
    quartiles_of_sorted(&sorted)
}

/// A series of which every pattern denotes a number has a summary exactly
/// when it is not empty; one of which none does has none.
pub proof fn lemma_summary_exists(values: Seq<u64>)
    ensures
        (forall|i: int| 0 <= i < values.len() ==> is_number(#[trigger] values[i])) ==> members(
            values,
        ) == values,
        (forall|i: int| 0 <= i < values.len() ==> !is_number(#[trigger] values[i])) ==> members(
            values,
        ).len() == 0,
        values.len() == 0 ==> series_quartiles(values) is None && series_median(values) is None,
    decreases values.len(),
{
    reveal(Seq::filter);
    if values.len() > 0 {
        let rest = values.drop_last();
        lemma_summary_exists(rest);
        assert(values =~= rest.push(values.last()));
        rest.lemma_filter_push(values.last(), numbers());
        assert forall|i: int| 0 <= i < rest.len() implies rest[i] == values[i] by {}
        if forall|i: int| 0 <= i < values.len() ==> is_number(#[trigger] values[i]) {
            assert(is_number(values[values.len() - 1]));
            assert forall|i: int| 0 <= i < rest.len() implies is_number(#[trigger] rest[i]) by {
                assert(is_number(values[i]));
            }
        }
        if forall|i: int| 0 <= i < values.len() ==> !is_number(#[trigger] values[i]) {
            assert(!is_number(values[values.len() - 1]));
            assert forall|i: int| 0 <= i < rest.len() implies !is_number(#[trigger] rest[i]) by {
                assert(!is_number(values[i]));
            }
        }
    }
}

/// The five numbers of a summary are members of the series and ascend: the
/// least member, the first quartile, the median, the third quartile, the
/// greatest member. No member is less than the least or greater than the
/// greatest.
pub proof fn lemma_summary_ascends(values: Seq<u64>)
    requires
        members(values).len() > 0,
    ensures
        ({
            let q = series_quartiles(values)->0;
            let series = members(values);
            &&& precedes(q.min, q.q1)
            &&& precedes(q.q1, q.median.low())
            &&& precedes(q.median.low(), q.median.high())
            &&& precedes(q.median.high(), q.q3)
            &&& precedes(q.q3, q.max)
            &&& series.contains(q.min) && series.contains(q.q1) && series.contains(q.q3)
                && series.contains(q.max)
            &&& series.contains(q.median.low()) && series.contains(q.median.high())
            &&& forall|i: int| 0 <= i < series.len() ==> precedes(q.min, #[trigger] series[i])
            &&& forall|i: int| 0 <= i < series.len() ==> precedes(#[trigger] series[i], q.max)
        }),
{
    let series = members(values);
    let sorted = in_order(series);
    let n = sorted.len() as int;
    lemma_in_order(series);
    lemma_same_members(sorted, series);
    lemma_same_members(series, sorted);
    assert(ascending(sorted));
    let q = quartiles_of(sorted);
    assert(sorted.contains(sorted[0]));
    assert(sorted.contains(sorted[n / 4]));
    assert(sorted.contains(sorted[(3 * n) / 4]));
    assert(sorted.contains(sorted[n - 1]));
    assert(sorted.contains(sorted[n / 2]));
    assert(sorted.contains(sorted[(n - 1) / 2]));
    assert forall|i: int| 0 <= i < series.len() implies precedes(q.min, #[trigger] series[i])
        && precedes(series[i], q.max) by {
        assert(series.contains(series[i]));
        let k = choose|k: int| 0 <= k < sorted.len() && sorted[k] == series[i];
        assert(precedes(sorted[0], sorted[k]) || k == 0);
        assert(precedes(sorted[k], sorted[n - 1]) || k == n - 1);
    }
}

/// Two series with the same members, counted with their repeats, contain the
/// same numbers.
proof fn lemma_same_members(a: Seq<u64>, b: Seq<u64>)
    requires
        a.to_multiset() == b.to_multiset(),
    ensures
        forall|x: u64| a.contains(x) ==> b.contains(x),
{
    broadcast use vstd::seq_lib::group_to_multiset_ensures;

    assert forall|x: u64| a.contains(x) implies b.contains(x) by {
        assert(a.to_multiset().count(x) > 0);
        assert(b.to_multiset().count(x) > 0);
    }
}

} // verus!
