//! The two splits, and the variants of them that check their input.

use crate::laws::{
    lemma_split_exact, lemma_split_from_places, lemma_split_lengths, lemma_split_round_trip,
    lemma_split_short,
};
use crate::model::{chunked, groups, leftover};
use crate::std_slice::std_as_chunks;
use vstd::prelude::*;

verus! {

/// Why a slice cannot be split.
#[derive(Clone, Copy, Debug, PartialEq, Eq, Structural)]
pub enum SplitError {
    /// The group size is zero.
    ZeroChunkSize,
    /// The length of the slice is no multiple of the group size.
    NotExact,
}

/// Splits the slice into a slice of `N`-element arrays, starting at the
/// beginning of the slice, and a rest with fewer than `N` elements.
///
/// The arrays are the full groups of `N` consecutive elements of the slice,
/// and the rest is what lies behind them: no element is skipped, repeated or
/// moved. Both parts borrow from the storage of `slice`; nothing is copied.
pub fn as_with_rest<T, const N: usize>(slice: &[T]) -> (parts: (&[[T; N]], &[T]))
    requires
        N != 0,
    ensures
        groups(parts.0@) == chunked(slice@, N as nat),
        parts.1@ == leftover(slice@, N as nat),
        parts.0@.len() == slice@.len() / (N as nat),
        parts.1@.len() == slice@.len() % (N as nat),
        parts.1@.len() < N,
        forall|i: int|
            0 <= i < parts.0@.len() ==> (#[trigger] parts.0@[i])@ == slice@.subrange(
                i * N,
                i * N + N,
            ),
        groups(parts.0@).flatten() + parts.1@ == slice@,
        slice@.len() < N ==> parts.0@.len() == 0 && parts.1@ == slice@,
{
    let parts = std_as_chunks::<T, N>(slice);
    proof {
        lemma_split_from_places(slice@, parts.0@, parts.1@);
        lemma_split_lengths(slice@, N as nat);
        lemma_split_round_trip(slice@, N as nat);
        if slice@.len() < N {
            lemma_split_short(slice@, N as nat);
        }
        assert forall|i: int| 0 <= i < parts.0@.len() implies (#[trigger] parts.0@[i])@
            == slice@.subrange(i * N, i * N + N) by {
            assert(groups(parts.0@)[i] == chunked(slice@, N as nat)[i]);
        }
    }
    parts
}

/// Splits the slice into a slice of `N`-element arrays, for a slice whose
/// length is a multiple of `N`, so that no rest remains.
pub fn as_exact<T, const N: usize>(slice: &[T]) -> (chunks: &[[T; N]])
    requires
        N != 0,
        slice@.len() % (N as nat) == 0,
    ensures
        groups(chunks@) == chunked(slice@, N as nat),
        chunks@.len() == slice@.len() / (N as nat),
        forall|i: int|
            0 <= i < chunks@.len() ==> (#[trigger] chunks@[i])@ == slice@.subrange(
                i * N,
                i * N + N,
            ),
        groups(chunks@).flatten() == slice@,
{
    let (chunks, _) = as_with_rest::<T, N>(slice);
    proof {
        lemma_split_exact(slice@, N as nat);
    }
    chunks
}

/// [`as_with_rest`] for callers that cannot promise a group size other than
/// zero: fails exactly when `N` is zero.
pub fn try_as_with_rest<T, const N: usize>(slice: &[T]) -> (found: Result<
    (&[[T; N]], &[T]),
    SplitError,
>)
    ensures
        match found {
            Ok(parts) => {
                &&& N != 0
                &&& groups(parts.0@) == chunked(slice@, N as nat)
                &&& parts.1@ == leftover(slice@, N as nat)
                &&& parts.0@.len() == slice@.len() / (N as nat)
                &&& forall|i: int|
                    0 <= i < parts.0@.len() ==> (#[trigger] parts.0@[i])@ == slice@.subrange(
                        i * N,
                        i * N + N,
                    )
            },
            Err(e) => N == 0 && e == SplitError::ZeroChunkSize,
        },
{
    if N == 0 {
        Err(SplitError::ZeroChunkSize)
    } else {
        Ok(as_with_rest::<T, N>(slice))
    }
}

/// [`as_exact`] for callers that cannot promise that the slice splits
/// exactly: fails when `N` is zero, and otherwise when the length of the
/// slice is no multiple of `N`.
pub fn try_as_exact<T, const N: usize>(slice: &[T]) -> (found: Result<&[[T; N]], SplitError>)
    ensures
        match found {
            Ok(chunks) => {
                &&& N != 0
                &&& slice@.len() % (N as nat) == 0
                &&& groups(chunks@) == chunked(slice@, N as nat)
                &&& chunks@.len() == slice@.len() / (N as nat)
                &&& forall|i: int|
                    0 <= i < chunks@.len() ==> (#[trigger] chunks@[i])@ == slice@.subrange(
                        i * N,
                        i * N + N,
                    )
            },
            Err(SplitError::ZeroChunkSize) => N == 0,
            Err(SplitError::NotExact) => N != 0 && slice@.len() % (N as nat) != 0,
        },
{
    if N == 0 {
        Err(SplitError::ZeroChunkSize)
    } else if slice.len() % N != 0 {
        Err(SplitError::NotExact)
    } else {
        Ok(as_exact::<T, N>(slice))
    }
}

} // verus!
