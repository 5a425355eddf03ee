//! The order of a numeric series.
//!
//! A number of a series is held as the 64 bits of its binary floating-point
//! value: one sign bit, then the exponent and the fraction. The series is
//! ordered by rank: a bit pattern without the sign bit ranks as the integer it
//! is, one with the sign bit ranks below zero, the lower the larger its
//! remaining bits. Negative zero ranks right below positive zero, so that no
//! two patterns share a rank. That the order of the ranks is the order of the
//! values is shown in [`crate::pattern`].

use vstd::multiset::group_multiset_axioms;
use vstd::prelude::*;
use vstd::relations::{sorted_by, total_ordering};
use vstd::seq_lib::{
    group_to_multiset_ensures, lemma_multiset_commutative, lemma_sorted_unique, to_multiset_build,
};

verus! {

/// The sign bit of a bit pattern.
pub const SIGN_BIT: u64 = 0x8000_0000_0000_0000;

/// The place of a bit pattern in the order of the values.
pub open spec fn rank(bits: u64) -> int {
    if bits < SIGN_BIT {
        bits as int
    } else {
        SIGN_BIT - 1 - bits
    }
}

/// `a` does not come behind `b` in the order of the values.
pub open spec fn precedes(a: u64, b: u64) -> bool {
    rank(a) <= rank(b)
}

/// The relation [`precedes`] as a value.
pub open spec fn by_rank() -> spec_fn(u64, u64) -> bool {
    |a: u64, b: u64| precedes(a, b)
}

/// The members of `s` stand in the order of the values.
pub open spec fn ascending(s: Seq<u64>) -> bool {
    forall|i: int, j: int| 0 <= i < j < s.len() ==> precedes(#[trigger] s[i], #[trigger] s[j])
}

/// `t` is the series `s` put in order: it holds the members of `s`, each as
/// often as `s` holds it, and ascends.
pub open spec fn is_ordering_of(t: Seq<u64>, s: Seq<u64>) -> bool {
    ascending(t) && t.to_multiset() == s.to_multiset()
}

/// The series `s` put in the order of the values.
pub open spec fn in_order(s: Seq<u64>) -> Seq<u64> {
    choose|t: Seq<u64>| is_ordering_of(t, s)
}

/// The order of the values is total: any two bit patterns compare, and only
/// equal patterns compare both ways.
pub proof fn lemma_rank_is_total()
    ensures
        total_ordering(by_rank()),
        forall|a: u64, b: u64| rank(a) == rank(b) ==> a == b,
{
}

/// A series that ascends is sorted by the relation of the ranks, and the
/// other way round.
proof fn lemma_ascending_is_sorted(t: Seq<u64>)
    ensures
        ascending(t) <==> sorted_by(t, by_rank()),
{
    if ascending(t) {
        assert forall|i: int, j: int| 0 <= i < j < t.len() implies #[trigger] by_rank()(
            t[i],
            t[j],
        ) by {
            assert(precedes(t[i], t[j]));
        }
    }
    if sorted_by(t, by_rank()) {
        assert forall|i: int, j: int| 0 <= i < j < t.len() implies precedes(
            #[trigger] t[i],
            #[trigger] t[j],
        ) by {
            assert(by_rank()(t[i], t[j]));
        }
    }
}

/// Every series can be put in order, and in one way only.
pub proof fn lemma_in_order(s: Seq<u64>)
    ensures
        is_ordering_of(in_order(s), s),
        in_order(s).len() == s.len(),
        forall|t: Seq<u64>| is_ordering_of(t, s) ==> t == #[trigger] in_order(s),
{
    broadcast use group_to_multiset_ensures;

    lemma_rank_is_total();
    let sorted = s.sort_by(by_rank());
    s.lemma_sort_by_ensures(by_rank());
    lemma_ascending_is_sorted(sorted);
    assert(is_ordering_of(sorted, s));
    assert(in_order(s).to_multiset().len() == in_order(s).len());
    assert(s.to_multiset().len() == s.len());
    assert forall|t: Seq<u64>| is_ordering_of(t, s) implies t == #[trigger] in_order(s) by {
        lemma_ascending_is_sorted(t);
        lemma_ascending_is_sorted(in_order(s));
        lemma_sorted_unique(t, in_order(s), by_rank());
    }
}

/// The rank of `bits`, as a machine integer.
fn rank_of(bits: u64) -> (r: i64)
    ensures
        r == rank(bits),
{
    if bits < SIGN_BIT {
        bits as i64
    } else {
        -((bits - SIGN_BIT) as i64) - 1
    }
}

/// Whether `a` does not come behind `b` in the order of the values.
pub fn comes_first(a: u64, b: u64) -> (r: bool)
    ensures
        r == precedes(a, b),
{
    rank_of(a) <= rank_of(b)
}

/// One ascending series of the members of two ascending series.
fn merge(left: &Vec<u64>, right: &Vec<u64>) -> (out: Vec<u64>)
    requires
        ascending(left@),
        ascending(right@),
    ensures
        ascending(out@),
        out@.to_multiset() == left@.to_multiset().add(right@.to_multiset()),
{
    broadcast use {group_to_multiset_ensures, group_multiset_axioms};

    let mut out: Vec<u64> = Vec::new();
    let mut i: usize = 0;
    let mut j: usize = 0;
    proof {
        assert(left@.take(0) =~= Seq::empty());
        assert(right@.take(0) =~= Seq::empty());
        assert(out@.to_multiset() =~= left@.take(0).to_multiset().add(
            right@.take(0).to_multiset(),
        ));
    }
    while i < left.len() || j < right.len()
        invariant
            i <= left.len(),
            j <= right.len(),
            ascending(left@),
            ascending(right@),
            ascending(out@),
            out@.to_multiset() == left@.take(i as int).to_multiset().add(
                right@.take(j as int).to_multiset(),
            ),
            forall|k: int|
                0 <= k < out.len() && i < left.len() ==> precedes(#[trigger] out@[k], left@[i as int]),
            forall|k: int|
                0 <= k < out.len() && j < right.len() ==> precedes(
                    #[trigger] out@[k],
                    right@[j as int],
                ),
        decreases left.len() - i + right.len() - j,
    {
        let ghost before = out@;
        let from_left = j >= right.len() || (i < left.len() && comes_first(left[i], right[j]));
        if from_left {
            let x = left[i];
            out.push(x);
            proof {
                let taken = left@.take(i as int);
                assert(left@.take(i + 1) =~= taken.push(x));
                assert(out@ == before.push(x));
                to_multiset_build(taken, x);
                to_multiset_build(before, x);
                assert(out@.to_multiset() =~= left@.take(i + 1).to_multiset().add(
                    right@.take(j as int).to_multiset(),
                ));
            }
            i += 1;
        } else {
            let x = right[j];
            out.push(x);
            proof {
                let taken = right@.take(j as int);
                assert(right@.take(j + 1) =~= taken.push(x));
                assert(out@ == before.push(x));
                to_multiset_build(taken, x);
                to_multiset_build(before, x);
                assert(out@.to_multiset() =~= left@.take(i as int).to_multiset().add(
                    right@.take(j + 1).to_multiset(),
                ));
            }
            j += 1;
        }
        proof {
            assert forall|a: int, b: int| 0 <= a < b < out@.len() implies precedes(
                #[trigger] out@[a],
                #[trigger] out@[b],
            ) by {
                if b < before.len() {
                    assert(precedes(before[a], before[b]));
                } else {
                    assert(out@[a] == before[a]);
                }
            }
        }
    }
    proof {
        assert(left@.take(i as int) =~= left@);
        assert(right@.take(j as int) =~= right@);
    }
    out
}

/// The members of `values[lo..hi]`, ascending.
fn sort_range(values: &Vec<u64>, lo: usize, hi: usize) -> (out: Vec<u64>)
    requires
        lo <= hi <= values.len(),
    ensures
        is_ordering_of(out@, values@.subrange(lo as int, hi as int)),
    decreases hi - lo,
{
    broadcast use {group_to_multiset_ensures, group_multiset_axioms};

    let mut out: Vec<u64> = Vec::new();
    if hi - lo == 0 {
        proof {
            assert(values@.subrange(lo as int, hi as int) =~= out@);
        }
        out
    } else if hi - lo == 1 {
        out.push(values[lo]);
        proof {
            assert(values@.subrange(lo as int, hi as int) =~= out@);
        }
        out
    } else {
        let mid = lo + (hi - lo) / 2;
        let left = sort_range(values, lo, mid);
        let right = sort_range(values, mid, hi);
        proof {
            let whole = values@.subrange(lo as int, hi as int);
            let first = values@.subrange(lo as int, mid as int);
            let second = values@.subrange(mid as int, hi as int);
            assert(whole =~= first + second);
            lemma_multiset_commutative(first, second);
        }
        merge(&left, &right)
    }
}

/// The series put in the order of the values.
pub fn sort_series(values: &Vec<u64>) -> (sorted: Vec<u64>)
    ensures
        sorted@ == in_order(values@),
        is_ordering_of(sorted@, values@),
{
    let sorted = sort_range(values, 0, values.len());
    proof {
        assert(values@.subrange(0, values.len() as int) =~= values@);
        lemma_in_order(values@);
    }
    sorted
}

} // verus!
