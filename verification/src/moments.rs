//! What the mean and the standard deviation of a numeric series divide by.
//!
//! The mean of a series is the sum of its members divided by their number,
//! and zero for a series without members. The standard deviation is that of
//! a sample: the root of the sum of the squared distances from the mean,
//! divided by one less than the number of members, and zero for a series of
//! fewer than two. The sums and the root are floating-point arithmetic and
//! the caller's; when a statistic is zero for want of members, and what the
//! sum is divided by when it is not, is decided here.

use vstd::prelude::*;

verus! {

/// What the sum of a series of `count` members is divided by to give the
/// mean: the number of members. None for a series without members, whose
/// mean is zero.
pub fn mean_divisor(count: usize) -> (divisor: Option<usize>)
    ensures
        count == 0 ==> divisor is None,
        count > 0 ==> divisor == Some(count),
{
    if count == 0 {
        None
    } else {
        Some(count)
    }
}

/// What the sum of the squared distances from the mean is divided by to give
/// the variance of a sample of `count` members: one less than the number of
/// members. None for a series of fewer than two members, whose deviation is
/// zero.
pub fn deviation_divisor(count: usize) -> (divisor: Option<usize>)
    ensures
        count < 2 ==> divisor is None,
        count >= 2 ==> divisor == Some((count - 1) as usize),
{
    if count < 2 {
        None
    } else {
        Some(count - 1)
    }
}

} // verus!
