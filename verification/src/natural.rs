//! The natural order of names, in which runs of digits count as numbers.

use vstd::prelude::*;

verus! {

/// How `alphanumeric_sort::compare_str` orders two texts: a negative number
/// when the first comes before the second, 0 when neither comes first, a
/// positive number when the first comes after the second.
pub uninterp spec fn natural_order(a: Seq<char>, b: Seq<char>) -> int;

/// `alphanumeric_sort::compare_str`, with -1, 0 and 1 for less, equal and
/// greater.
#[verifier::external_body]
pub(crate) fn natural_order_of(a: &str, b: &str) -> (r: i8)
    ensures
        r == natural_order(a@, b@),
        -1 <= r <= 1,
{
    match alphanumeric_sort::compare_str(a, b) {
        std::cmp::Ordering::Less => -1,
        std::cmp::Ordering::Equal => 0,
        std::cmp::Ordering::Greater => 1,
    }
}

} // verus!
