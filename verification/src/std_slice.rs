//! What is taken on trust from the standard library.

use vstd::prelude::*;

verus! {

/// Calls `<[T]>::as_chunks` of the standard library, which is not verified
/// here: the contract takes its documentation at its word. The call splits a
/// slice into a slice of `N`-element arrays, starting at the beginning of the
/// slice, and a remainder. There are `len / N` arrays and `len % N`
/// remaining elements; array `i` holds at place `j` the element of the slice
/// at `i * N + j`, and the remainder holds the elements behind the last
/// array, in their order. The call panics when `N` is zero, so `requires`
/// leaves that out.
#[verifier::external_body]
pub(crate) fn std_as_chunks<T, const N: usize>(slice: &[T]) -> (parts: (&[[T; N]], &[T]))
    requires
        N != 0,
    ensures
        parts.0@.len() == slice@.len() / (N as nat),
        parts.1@.len() == slice@.len() % (N as nat),
        forall|i: int, j: int|
            0 <= i < parts.0@.len() && 0 <= j < N ==> #[trigger] parts.0@[i]@[j] == slice@[i * N
                + j],
        forall|j: int|
            0 <= j < parts.1@.len() ==> #[trigger] parts.1@[j] == slice@[parts.0@.len() * N + j],
{
    slice.as_chunks::<N>()
}

} // verus!
