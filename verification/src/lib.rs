//! Read-only views of a slice as a run of fixed-size groups.
//!
//! A slice of `len` elements is handed back as a slice of `len / N` arrays of
//! `N` elements each, which borrows from the same storage as the slice did,
//! together with the `len % N` elements that fill no array. Nothing is
//! copied and nothing is allocated.
//!
//! [`as_with_rest`] returns both parts, [`as_exact`] is for slices that leave
//! no rest. Both ask for a group size other than zero; [`try_as_with_rest`]
//! and [`try_as_exact`] ask for nothing and report what is wrong instead.
//! What the parts hold is stated over the sequences of [`model`], whose laws
//! are proved in [`laws`].

pub mod laws;
pub mod model;
pub mod split;
mod std_slice;

pub use split::{as_exact, as_with_rest, try_as_exact, try_as_with_rest, SplitError};
