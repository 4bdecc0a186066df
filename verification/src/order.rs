//! Counting the scalars that do not exceed a bound.

use vstd::prelude::*;
use vstd::std_specs::cmp::PartialOrdIs;
use vstd::std_specs::cmp::PartialOrdSpec;

verus! {

/// Whether comparing two scalars of type `T` at run time gives what the
/// order of `T` says.
pub open spec fn ordered<T: PartialOrd>() -> bool {
    T::obeys_partial_cmp_spec()
}

/// Whether `a` is at most `b` in the order of `T`.
pub open spec fn at_most<T: PartialOrd>(a: T, b: T) -> bool {
    a.is_le(&b)
}

/// How many of the first `n` entries of `s` are at most `bound`.
pub open spec fn count_within<T: PartialOrd>(s: Seq<T>, bound: T, n: int) -> int
    decreases n,
{
    if n <= 0 {
        0
    } else {
        count_within(s, bound, n - 1) + (if at_most(s[n - 1], bound) {
            1int
        } else {
            0int
        })
    }
}

/// Whether `a` is at most `b`.
pub fn le<T: PartialOrd>(a: &T, b: &T) -> (r: bool)
    ensures
        ordered::<T>() ==> r == at_most(*a, *b),
{
    *a <= *b
}

} // verus!
