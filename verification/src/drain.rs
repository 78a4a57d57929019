//! The consuming iterator.  It owns the elements handed over by a
//! `GridArray` and yields them in their original order, by value,
//! exactly once; whatever it still holds when it is dropped is cleaned
//! up with it.

use vstd::prelude::*;

verus! {

/// A one-shot traversal over elements taken from a `GridArray`.
///
/// The elements still to be yielded are stored back to front, so that
/// yielding the next one is a constant-time removal from the end.
pub struct IntoIter<T> {
    rev: Vec<T>,
}

impl<T> View for IntoIter<T> {
    type V = Seq<T>;

    closed spec fn view(&self) -> Seq<T> {
        self.rev@.reverse()
    }
}

impl<T> IntoIter<T> {
    /// Wrap a stack of elements; the top of `rev` is yielded first.
    pub(crate) fn from_rev(rev: Vec<T>) -> (r: IntoIter<T>)
        ensures
            r@ == rev@.reverse(),
    {
        IntoIter { rev }
    }

    /// Yield the next element by value, or `None` once exhausted.
    pub fn next(&mut self) -> (r: Option<T>)
        ensures
            old(self)@.len() == 0 ==> r is None && final(self)@ == old(self)@,
            old(self)@.len() > 0 ==> r == Some(old(self)@.first()) && final(self)@ == old(
                self,
            )@.drop_first(),
    {
        let r = self.rev.pop();
        proof {
            let before = old(self).rev@;
            if before.len() > 0 {
                assert(before.reverse().first() == before.last());
                assert(self.rev@.reverse() =~= before.reverse().drop_first());
            } else {
                assert(before.reverse().len() == 0);
            }
        }
        r
    }

    /// Exactly how many elements are left to yield.
    pub fn remaining_count(&self) -> (r: usize)
        ensures
            r == self@.len(),
    {
        self.rev.len()
    }
}

} // verus!
