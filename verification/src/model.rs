//! The mathematical model: what it means to split a sequence into groups of
//! a fixed size and a shorter rest.

use vstd::prelude::*;

verus! {

/// The full groups of `n` consecutive elements of `s`, in order: group `i`
/// holds the elements of `s` at `i * n`, `i * n + 1`, ..., `i * n + n - 1`.
pub open spec fn chunked<T>(s: Seq<T>, n: nat) -> Seq<Seq<T>>
    recommends
        n > 0,
{
    Seq::new(s.len() / n, |i: int| s.subrange(i * n, i * n + n))
}

/// The last `s.len() % n` elements of `s`: those behind its last full group
/// of `n`.
pub open spec fn leftover<T>(s: Seq<T>, n: nat) -> Seq<T>
    recommends
        n > 0,
{
    s.subrange(s.len() - s.len() % n, s.len() as int)
}

/// The arrays of a chunked view, each as the sequence of its elements.
pub open spec fn groups<T, const N: usize>(chunks: Seq<[T; N]>) -> Seq<Seq<T>> {
    chunks.map_values(|c: [T; N]| c@)
}

} // verus!
