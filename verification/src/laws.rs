//! Laws of the model, proved once for all sequences and group sizes.

use crate::model::{chunked, groups, leftover};
use vstd::arithmetic::div_mod::{lemma_basic_div, lemma_fundamental_div_mod, lemma_small_mod};
use vstd::prelude::*;

verus! {

/// Group `i` of a sequence of length `len` lies within it, if `i < len / n`.
proof fn lemma_group_within(len: int, n: int, i: int)
    requires
        0 < n,
        0 <= len,
        0 <= i < len / n,
    ensures
        0 <= i * n,
        i * n + n <= (len / n) * n <= len,
{
    lemma_fundamental_div_mod(len, n);
    let k = len / n;
    assert(0 <= i * n && i * n + n <= k * n) by (nonlinear_arith)
        requires
            0 <= i < k,
            0 < n,
    ;
}

/// Length law: a sequence of length `len` has `len / n` full groups, each of
/// `n` elements, and `len % n` elements left over, fewer than `n`.
pub proof fn lemma_split_lengths<T>(s: Seq<T>, n: nat)
    requires
        n > 0,
    ensures
        chunked(s, n).len() == s.len() / n,
        forall|i: int| 0 <= i < chunked(s, n).len() ==> (#[trigger] chunked(s, n)[i]).len() == n,
        leftover(s, n).len() == s.len() % n,
        leftover(s, n).len() < n,
        chunked(s, n).len() * n + leftover(s, n).len() == s.len(),
{
    let len = s.len() as int;
    lemma_fundamental_div_mod(len, n as int);
    assert forall|i: int| 0 <= i < chunked(s, n).len() implies (#[trigger] chunked(s, n)[i]).len()
        == n by {
        lemma_group_within(len, n as int, i);
    }
}

/// Flattening groups that all have `n` elements: the lengths add up to
/// `g.len() * n`, and element `j` of group `i` comes out at `i * n + j`.
pub proof fn lemma_flatten_uniform<T>(g: Seq<Seq<T>>, n: nat)
    requires
        forall|i: int| 0 <= i < g.len() ==> (#[trigger] g[i]).len() == n,
    ensures
        g.flatten().len() == g.len() * n,
        forall|i: int, j: int|
            0 <= i < g.len() && 0 <= j < n ==> g.flatten()[i * n + j] == #[trigger] g[i][j],
    decreases g.len(),
{
    if g.len() > 0 {
        let tail = g.drop_first();
        lemma_flatten_uniform(tail, n);
        assert(g.len() * n == n + tail.len() * n) by (nonlinear_arith)
            requires
                g.len() == tail.len() + 1,
        ;
        assert forall|i: int, j: int| 0 <= i < g.len() && 0 <= j < n implies g.flatten()[i * n
            + j] == #[trigger] g[i][j] by {
            if i > 0 {
                // Group `i` is group `i - 1` of the tail, which starts `n` places on.
                assert(0 <= (i - 1) * n + j < tail.len() * n) by (nonlinear_arith)
                    requires
                        0 <= i - 1 < tail.len(),
                        0 <= j < n,
                ;
                assert(i * n + j == n + ((i - 1) * n + j)) by (nonlinear_arith);
                assert(g[i][j] == tail[i - 1][j]);
            }
        }
    }
}

/// Round trip: the full groups of `s`, one after the other, followed by what
/// is left over, are `s` again, element for element.
pub proof fn lemma_split_round_trip<T>(s: Seq<T>, n: nat)
    requires
        n > 0,
    ensures
        chunked(s, n).flatten() + leftover(s, n) == s,
{
    let g = chunked(s, n);
    let flat = g.flatten();
    let joined = flat + leftover(s, n);
    lemma_split_lengths(s, n);
    lemma_flatten_uniform(g, n);
    assert forall|p: int| 0 <= p < s.len() implies joined[p] == s[p] by {
        if p < flat.len() {
            // Place `p` is place `j` of group `i`.
            let i = p / (n as int);
            let j = p % (n as int);
            lemma_fundamental_div_mod(p, n as int);
            assert(p == i * n + j) by (nonlinear_arith)
                requires
                    p == n * i + j,
            ;
            assert(0 <= i < g.len()) by (nonlinear_arith)
                requires
                    p == i * n + j,
                    0 <= j < n,
                    0 <= p < g.len() * n,
            ;
            lemma_group_within(s.len() as int, n as int, i);
            assert(g[i][j] == s[i * n + j]);
        }
    }
    assert(joined =~= s);
}

/// Exactness: where the length of `s` is a multiple of `n`, nothing is left
/// over, and the full groups alone make up `s`.
pub proof fn lemma_split_exact<T>(s: Seq<T>, n: nat)
    requires
        n > 0,
        s.len() % n == 0,
    ensures
        leftover(s, n) == Seq::<T>::empty(),
        chunked(s, n).flatten() == s,
{
    lemma_split_round_trip(s, n);
    assert(leftover(s, n) =~= Seq::<T>::empty());
}

/// Short sequences: one with fewer than `n` elements has no full group, and
/// all of it is left over. An empty one leaves nothing in either part.
pub proof fn lemma_split_short<T>(s: Seq<T>, n: nat)
    requires
        s.len() < n,
    ensures
        chunked(s, n) == Seq::<Seq<T>>::empty(),
        leftover(s, n) == s,
        s.len() == 0 ==> leftover(s, n) == Seq::<T>::empty(),
{
    lemma_basic_div(s.len() as int, n as int);
    lemma_small_mod(s.len(), n);
}

/// From places to groups: arrays and a rest that agree with `s` place by
/// place, array `i` holding at `j` the element at `i * N + j` and the rest
/// the elements behind the last array, are the full groups of `s` and what
/// is left over of it.
pub proof fn lemma_split_from_places<T, const N: usize>(
    s: Seq<T>,
    chunks: Seq<[T; N]>,
    rest: Seq<T>,
)
    requires
        N != 0,
        chunks.len() == s.len() / (N as nat),
        rest.len() == s.len() % (N as nat),
        forall|i: int, j: int|
            0 <= i < chunks.len() && 0 <= j < N ==> #[trigger] chunks[i]@[j] == s[i * N + j],
        forall|j: int| 0 <= j < rest.len() ==> #[trigger] rest[j] == s[chunks.len() * N + j],
    ensures
        groups(chunks) == chunked(s, N as nat),
        rest == leftover(s, N as nat),
{
    let n = N as nat;
    lemma_split_lengths(s, n);
    assert forall|i: int| 0 <= i < chunks.len() implies #[trigger] groups(chunks)[i] == chunked(
        s,
        n,
    )[i] by {
        lemma_group_within(s.len() as int, n as int, i);
        assert(groups(chunks)[i] =~= chunked(s, n)[i]);
    }
    assert(groups(chunks) =~= chunked(s, n));
    assert(rest =~= leftover(s, n));
}

/// Arrays are what they hold: two chunked views with the same groups are the
/// same view.
pub proof fn lemma_groups_injective<T, const N: usize>(a: Seq<[T; N]>, b: Seq<[T; N]>)
    requires
        groups(a) == groups(b),
    ensures
        a == b,
{
    assert(a.len() == groups(a).len() && b.len() == groups(b).len());
    assert forall|i: int| 0 <= i < a.len() implies a[i] == b[i] by {
        assert(a[i]@ == groups(a)[i] && b[i]@ == groups(b)[i]);
        assert(a[i] =~= b[i]);
    }
    assert(a =~= b);
}

/// Exactness of the two splits: where the length of `s` is a multiple of
/// `N`, the arrays of a split with rest are the arrays of the exact split,
/// and the rest is empty.
pub proof fn lemma_exact_agrees_with_rest<T, const N: usize>(
    s: Seq<T>,
    exact: Seq<[T; N]>,
    chunks: Seq<[T; N]>,
    rest: Seq<T>,
)
    requires
        N != 0,
        s.len() % (N as nat) == 0,
        groups(exact) == chunked(s, N as nat),
        groups(chunks) == chunked(s, N as nat),
        rest == leftover(s, N as nat),
    ensures
        exact == chunks,
        rest == Seq::<T>::empty(),
{
    lemma_groups_injective(exact, chunks);
    lemma_split_exact(s, N as nat);
}

} // verus!
