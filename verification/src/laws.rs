//! Laws of the buffer, stated over the sequence model that the
//! operations' contracts use.

use crate::grid::grown_cap;
use vstd::prelude::*;

verus! {

/// Last in, first out: a pop right after a push returns the pushed
/// element and leaves the contents as they were before the push.
pub proof fn lemma_push_then_pop<T>(s: Seq<T>, x: T)
    ensures
        s.push(x).len() > 0,
        s.push(x).last() == x,
        s.push(x).drop_last() == s,
{
    assert(s.push(x).drop_last() =~= s);
}

/// Removing at an index right after inserting there returns the inserted
/// element's position to its value and restores the old contents, every
/// other element keeping its place.
pub proof fn lemma_insert_then_remove<T>(s: Seq<T>, i: int, x: T)
    requires
        0 <= i <= s.len(),
    ensures
        s.insert(i, x)[i] == x,
        s.insert(i, x).len() == s.len() + 1,
        s.insert(i, x).remove(i) == s,
{
    assert(s.insert(i, x).remove(i) =~= s);
}

/// Draining is complete and in order: an iterator that has yielded `k`
/// elements of contents `s` holds `s.skip(k)`, so its next element is
/// `s[k]` itself, and afterwards it holds `s.skip(k + 1)` -- every
/// element comes out exactly once, in its original position.
pub proof fn lemma_drain_step<T>(s: Seq<T>, k: int)
    requires
        0 <= k < s.len(),
    ensures
        s.skip(k).len() == s.len() - k,
        s.skip(k).first() == s[k],
        s.skip(k).drop_first() == s.skip(k + 1),
{
    assert(s.skip(k).drop_first() =~= s.skip(k + 1));
}

/// The capacity an empty buffer reaches after `n` pushes with nothing
/// taken out in between: it steps through `grown_cap` exactly when a
/// push finds the buffer full, mirroring the capacity clause of
/// `GridArray::push`.
pub open spec fn cap_after_pushes(n: nat) -> nat
    decreases n,
{
    if n == 0 {
        0
    } else {
        let c = cap_after_pushes((n - 1) as nat);
        if c == n - 1 {
            grown_cap(c)
        } else {
            c
        }
    }
}

/// Under consecutive pushes the capacity never lags behind the length
/// (`length == n` always fits) and never reaches its double.
pub proof fn lemma_cap_after_pushes_bounds(n: nat)
    ensures
        n <= cap_after_pushes(n),
        n > 0 ==> cap_after_pushes(n) < 2 * n,
    decreases n,
{
    if n > 0 {
        lemma_cap_after_pushes_bounds((n - 1) as nat);
    }
}

/// Once the first element is in, the capacity is an exact power of two:
/// the sequence it steps through is 1, 2, 4, 8, ...
pub proof fn lemma_cap_after_pushes_power_of_two(n: nat)
    requires
        n > 0,
    ensures
        exists|k: nat| cap_after_pushes(n) == vstd::arithmetic::power2::pow2(k),
    decreases n,
{
    if n == 1 {
        vstd::arithmetic::power2::lemma2_to64();
        assert(cap_after_pushes(0) == 0);
        assert(cap_after_pushes(1) == grown_cap(0));
        assert(cap_after_pushes(1) == vstd::arithmetic::power2::pow2(0));
    } else {
        lemma_cap_after_pushes_power_of_two((n - 1) as nat);
        let k = choose|k: nat|
            cap_after_pushes((n - 1) as nat) == vstd::arithmetic::power2::pow2(k);
        if cap_after_pushes((n - 1) as nat) == n - 1 {
            vstd::arithmetic::power2::lemma_pow2_unfold(k + 1);
            assert(cap_after_pushes(n) == vstd::arithmetic::power2::pow2(k + 1));
        } else {
            assert(cap_after_pushes(n) == vstd::arithmetic::power2::pow2(k));
        }
    }
}

} // verus!
