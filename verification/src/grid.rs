//! The growable buffer itself: length/capacity bookkeeping, element
//! lifecycle, and the operations that shift elements around.

use vstd::layout::size_of;
use vstd::prelude::*;

verus! {

/// The capacity a buffer reaches when it grows: one slot from empty,
/// otherwise exactly double the current slot count.
pub open spec fn grown_cap(cap: nat) -> nat {
    if cap == 0 {
        1
    } else {
        2 * cap
    }
}

/// A backing region of `slots` elements of `T` stays within the largest
/// allocation the platform can address.
pub open spec fn region_fits<T>(slots: nat) -> bool {
    slots * size_of::<T>() <= isize::MAX as nat
}

/// A growable contiguous buffer.  The elements in `data` are the
/// initialized region; `cap` counts the slots reserved for them.
pub struct GridArray<T> {
    data: Vec<T>,
    cap: usize,
}

impl<T> View for GridArray<T> {
    type V = Seq<T>;

    closed spec fn view(&self) -> Seq<T> {
        self.data@
    }
}

impl<T> GridArray<T> {
    /// The number of element slots currently reserved.
    pub closed spec fn spec_capacity(&self) -> nat {
        self.cap as nat
    }

    /// Well-formedness: the initialized region fits in the reserved slots,
    /// the element type has a size, and the reserved region is addressable.
    pub open spec fn wf(&self) -> bool {
        &&& self@.len() <= self.spec_capacity()
        &&& size_of::<T>() != 0
        &&& region_fits::<T>(self.spec_capacity())
    }

    /// An empty buffer: no elements, no reserved slots, no allocation.
    pub fn new() -> (r: GridArray<T>)
        requires
            size_of::<T>() != 0,
        ensures
            r.wf(),
            r@ == Seq::<T>::empty(),
            r.spec_capacity() == 0,
    {
        proof {
            assert(0 * size_of::<T>() == 0) by (nonlinear_arith);
        }
        let data: Vec<T> = Vec::new();
        proof {
            assert(data@ =~= Seq::<T>::empty());
        }
        GridArray { data, cap: 0 }
    }

    /// The number of initialized elements.
    pub fn len(&self) -> (r: usize)
        ensures
            r == self@.len(),
    {
        self.data.len()
    }

    /// The number of reserved slots.
    pub fn capacity(&self) -> (r: usize)
        ensures
            r == self.spec_capacity(),
    {
        self.cap
    }

    /// Reserve the next capacity step: 1 slot from empty, else double.
    fn grow(&mut self)
        requires
            old(self).wf(),
            region_fits::<T>(grown_cap(old(self).spec_capacity())),
        ensures
            final(self).wf(),
            final(self)@ == old(self)@,
            final(self).spec_capacity() == grown_cap(old(self).spec_capacity()),
    {
        let new_cap: usize = if self.cap == 0 {
            1
        } else {
            proof {
                let c = self.spec_capacity();
                let s = size_of::<T>();
                assert(2 * c * s == (2 * c) * s);
                assert(2 * c <= 2 * c * s) by (nonlinear_arith)
                    requires
                        s >= 1,
                        c >= 0,
                ;
            }
            2 * self.cap
        };
        let have: usize = self.data.len();
        self.data.reserve(new_cap - have);
        self.cap = new_cap;
    }

    /// Append an element at the end, growing first when the buffer is full.
    pub fn push(&mut self, elem: T)
        requires
            old(self).wf(),
            old(self)@.len() == old(self).spec_capacity() ==> region_fits::<T>(
                grown_cap(old(self).spec_capacity()),
            ),
        ensures
            final(self).wf(),
            final(self)@ == old(self)@.push(elem),
            final(self).spec_capacity() == (if old(self)@.len() == old(self).spec_capacity() {
                grown_cap(old(self).spec_capacity())
            } else {
                old(self).spec_capacity()
            }),
    {
        if self.data.len() == self.cap {
            self.grow();
        }
        self.data.push(elem);
    }

    /// Insert an element at `index`, shifting the elements at and after
    /// `index` one slot to the right; grows first when the buffer is full.
    pub fn insert(&mut self, index: usize, elem: T)
        requires
            old(self).wf(),
            index <= old(self)@.len(),
            old(self)@.len() == old(self).spec_capacity() ==> region_fits::<T>(
                grown_cap(old(self).spec_capacity()),
            ),
        ensures
            final(self).wf(),
            final(self)@ == old(self)@.insert(index as int, elem),
            final(self).spec_capacity() == (if old(self)@.len() == old(self).spec_capacity() {
                grown_cap(old(self).spec_capacity())
            } else {
                old(self).spec_capacity()
            }),
    {
        if self.data.len() == self.cap {
            self.grow();
        }
        let ghost s = self.data@;
        let ghost cap0 = self.spec_capacity();
        proof {
            assert(s.take(s.len() as int) =~= s);
        }
        // move the tail at [index, len) aside, last element first
        let mut tail: Vec<T> = Vec::new();
        while self.data.len() > index
            invariant
                index <= s.len(),
                s.len() < cap0,
                self.spec_capacity() == cap0,
                self.wf(),
                index <= self.data@.len(),
                self.data@.len() + tail@.len() == s.len(),
                self.data@ == s.take(self.data@.len() as int),
                forall|j: int| 0 <= j < tail@.len() ==> tail@[j] == s[s.len() - 1 - j],
            decreases self.data@.len(),
        {
            let ghost l = self.data@.len() as int;
            let x = self.data.pop().unwrap();
            tail.push(x);
            proof {
                assert(self.data@ =~= s.take(l - 1));
            }
        }
        // put the new element in place, then the tail back after it
        self.data.push(elem);
        while tail.len() > 0
            invariant
                index <= s.len(),
                s.len() < cap0,
                self.spec_capacity() == cap0,
                self.wf(),
                index < self.data@.len(),
                self.data@.len() + tail@.len() == s.len() + 1,
                self.data@ == s.take(index as int).push(elem) + s.subrange(
                    index as int,
                    self.data@.len() - 1,
                ),
                forall|j: int| 0 <= j < tail@.len() ==> tail@[j] == s[s.len() - 1 - j],
            decreases tail@.len(),
        {
            let ghost m = self.data@.len() as int;
            let x = tail.pop().unwrap();
            self.data.push(x);
            proof {
                assert(s.take(index as int).push(elem) + s.subrange(index as int, m) =~= (s.take(
                    index as int,
                ).push(elem) + s.subrange(index as int, m - 1)).push(s[m - 1]));
            }
        }
        proof {
            assert(self@ =~= s.insert(index as int, elem));
        }
    }

    /// Remove and return the element at `index`, shifting the elements
    /// after it one slot to the left.
    pub fn remove(&mut self, index: usize) -> (r: T)
        requires
            old(self).wf(),
            index < old(self)@.len(),
        ensures
            final(self).wf(),
            final(self).spec_capacity() == old(self).spec_capacity(),
            r == old(self)@[index as int],
            final(self)@ == old(self)@.remove(index as int),
    {
        let ghost s = self.data@;
        let ghost cap0 = self.spec_capacity();
        proof {
            assert(s.take(s.len() as int) =~= s);
        }
        // move the tail at (index, len) aside, last element first
        let mut tail: Vec<T> = Vec::new();
        while self.data.len() > index + 1
            invariant
                index < s.len(),
                s.len() <= cap0,
                self.spec_capacity() == cap0,
                self.wf(),
                index < self.data@.len(),
                self.data@.len() + tail@.len() == s.len(),
                self.data@ == s.take(self.data@.len() as int),
                forall|j: int| 0 <= j < tail@.len() ==> tail@[j] == s[s.len() - 1 - j],
            decreases self.data@.len(),
        {
            let ghost l = self.data@.len() as int;
            let x = self.data.pop().unwrap();
            tail.push(x);
            proof {
                assert(self.data@ =~= s.take(l - 1));
            }
        }
        // take the element out, then close the gap with the tail
        let r = self.data.pop().unwrap();
        proof {
            assert(self.data@ =~= s.take(index as int));
            assert(s.take(index as int) + s.subrange(index as int + 1, index as int + 1) =~= s.take(
                index as int,
            ));
        }
        while tail.len() > 0
            invariant
                index < s.len(),
                s.len() <= cap0,
                self.spec_capacity() == cap0,
                self.wf(),
                index <= self.data@.len(),
                self.data@.len() + tail@.len() == s.len() - 1,
                self.data@ == s.take(index as int) + s.subrange(
                    index as int + 1,
                    self.data@.len() as int + 1,
                ),
                forall|j: int| 0 <= j < tail@.len() ==> tail@[j] == s[s.len() - 1 - j],
            decreases tail@.len(),
        {
            let ghost m = self.data@.len() as int;
            let x = tail.pop().unwrap();
            self.data.push(x);
            proof {
                assert(s.take(index as int) + s.subrange(index as int + 1, m + 2) =~= (s.take(
                    index as int,
                ) + s.subrange(index as int + 1, m + 1)).push(s[m + 1]));
            }
        }
        proof {
            assert(self@ =~= s.remove(index as int));
        }
        r
    }

    /// Remove and return the last element; `None` on an empty buffer.
    pub fn pop(&mut self) -> (r: Option<T>)
        requires
            old(self).wf(),
        ensures
            final(self).wf(),
            final(self).spec_capacity() == old(self).spec_capacity(),
            old(self)@.len() == 0 ==> r is None && final(self)@ == old(self)@,
            old(self)@.len() > 0 ==> r == Some(old(self)@.last()) && final(self)@ == old(
                self,
            )@.drop_last(),
    {
        self.data.pop()
    }

    /// Read access to the element at `index`.
    pub fn get(&self, index: usize) -> (r: &T)
        requires
            index < self@.len(),
        ensures
            *r == self@[index as int],
    {
        &self.data[index]
    }

    /// Overwrite the element at `index`; the old element is dropped.
    pub fn set(&mut self, index: usize, value: T)
        requires
            old(self).wf(),
            index < old(self)@.len(),
        ensures
            final(self).wf(),
            final(self).spec_capacity() == old(self).spec_capacity(),
            final(self)@ == old(self)@.update(index as int, value),
    {
        self.data[index] = value;
    }

    /// The initialized region `[0, length)` as a contiguous slice.
    pub fn as_slice(&self) -> (r: &[T])
        ensures
            r@ == self@,
    {
        self.data.as_slice()
    }

    /// Hand the elements over to a consuming iterator.  The buffer is
    /// consumed whole: the iterator alone owns the elements afterwards
    /// and yields them in their original order.
    pub fn into_iter(self) -> (r: crate::drain::IntoIter<T>)
        ensures
            r@ == self@,
    {
        let ghost s = self@;
        let GridArray { data, cap: _ } = self;
        let mut src = data;
        proof {
            assert(src@.take(src@.len() as int) =~= s);
        }
        let mut rev: Vec<T> = Vec::new();
        while src.len() > 0
            invariant
                src@.len() + rev@.len() == s.len(),
                src@ == s.take(src@.len() as int),
                forall|j: int| 0 <= j < rev@.len() ==> rev@[j] == s[s.len() - 1 - j],
            decreases src@.len(),
        {
            let ghost l = src@.len() as int;
            let x = src.pop().unwrap();
            rev.push(x);
            proof {
                assert(src@ =~= s.take(l - 1));
            }
        }
        proof {
            assert(rev@.reverse() =~= s);
        }
        crate::drain::IntoIter::from_rev(rev)
    }

    /// Build a buffer by pushing every element of `elems` in order,
    /// starting from an empty buffer.
    pub fn from_vec(elems: Vec<T>) -> (r: GridArray<T>)
        requires
            size_of::<T>() != 0,
            2 * elems@.len() * size_of::<T>() <= isize::MAX as nat,
        ensures
            r.wf(),
            r@ == elems@,
    {
        let ghost s = elems@;
        let mut src = elems;
        proof {
            assert(src@.take(src@.len() as int) =~= s);
        }
        let mut rev: Vec<T> = Vec::new();
        while src.len() > 0
            invariant
                src@.len() + rev@.len() == s.len(),
                src@ == s.take(src@.len() as int),
                forall|j: int| 0 <= j < rev@.len() ==> rev@[j] == s[s.len() - 1 - j],
            decreases src@.len(),
        {
            let ghost l = src@.len() as int;
            let x = src.pop().unwrap();
            rev.push(x);
            proof {
                assert(src@ =~= s.take(l - 1));
            }
        }
        let mut out: GridArray<T> = GridArray::new();
        while rev.len() > 0
            invariant
                size_of::<T>() != 0,
                2 * s.len() * size_of::<T>() <= isize::MAX as nat,
                out@.len() + rev@.len() == s.len(),
                out@ == s.take(out@.len() as int),
                forall|j: int| 0 <= j < rev@.len() ==> rev@[j] == s[s.len() - 1 - j],
                out.wf(),
                out.spec_capacity() <= 2 * out@.len(),
            decreases rev@.len(),
        {
            let ghost k = out@.len() as int;
            let x = rev.pop().unwrap();
            proof {
                lemma_grown_region_fits::<T>(out.spec_capacity(), out@.len(), s.len());
            }
            out.push(x);
            proof {
                assert(out@ =~= s.take(k + 1));
            }
        }
        proof {
            assert(out@ =~= s);
        }
        out
    }

    /// Combine two buffers of equal length element by element: the result
    /// holds, at each position, an output of `f` on the pair of elements
    /// that stood there.  Both operand buffers are consumed.
    pub fn zip_with<F: Fn(T, T) -> T>(self, other: GridArray<T>, f: F) -> (r: GridArray<T>)
        requires
            self.wf(),
            other.wf(),
            self@.len() == other@.len(),
            forall|i: int| 0 <= i < self@.len() ==> call_requires(f, (self@[i], other@[i])),
            2 * self@.len() * size_of::<T>() <= isize::MAX as nat,
        ensures
            r.wf(),
            r@.len() == self@.len(),
            forall|i: int|
                0 <= i < self@.len() ==> call_ensures(f, (self@[i], other@[i]), #[trigger] r@[i]),
    {
        let ghost a = self@;
        let ghost b = other@;
        let mut it_a = self.into_iter();
        let mut it_b = other.into_iter();
        proof {
            assert(it_a@ =~= a.skip(0));
            assert(it_b@ =~= b.skip(0));
        }
        let mut out: GridArray<T> = GridArray::new();
        while it_a.remaining_count() > 0
            invariant
                size_of::<T>() != 0,
                a.len() == b.len(),
                2 * a.len() * size_of::<T>() <= isize::MAX as nat,
                out@.len() + it_a@.len() == a.len(),
                it_a@ == a.skip(out@.len() as int),
                it_b@ == b.skip(out@.len() as int),
                forall|i: int| 0 <= i < a.len() ==> call_requires(f, (a[i], b[i])),
                forall|i: int|
                    0 <= i < out@.len() ==> call_ensures(f, (a[i], b[i]), #[trigger] out@[i]),
                out.wf(),
                out.spec_capacity() <= 2 * out@.len(),
            decreases it_a@.len(),
        {
            let ghost k = out@.len() as int;
            let x = it_a.next().unwrap();
            let y = it_b.next().unwrap();
            proof {
                assert(x == a[k]);
                assert(y == b[k]);
                assert(it_a@ =~= a.skip(k + 1));
                assert(it_b@ =~= b.skip(k + 1));
                lemma_grown_region_fits::<T>(out.spec_capacity(), out@.len(), a.len());
            }
            out.push(f(x, y));
        }
        out
    }
}

impl GridArray<i64> {
    /// Element-wise addition: a new buffer whose element `i` is
    /// `self[i] + other[i]`.  Both operands must have the same length
    /// and every pairwise sum must fit the element type.
    pub fn add_elementwise(self, other: GridArray<i64>) -> (r: GridArray<i64>)
        requires
            self.wf(),
            other.wf(),
            self@.len() == other@.len(),
            forall|i: int|
                0 <= i < self@.len() ==> i64::MIN <= #[trigger] self@[i] + other@[i] <= i64::MAX,
            self@.len() <= isize::MAX as nat / 16,
        ensures
            r.wf(),
            r@.len() == self@.len(),
            forall|i: int| 0 <= i < self@.len() ==> #[trigger] r@[i] == self@[i] + other@[i],
    {
        let ghost a = self@;
        let ghost b = other@;
        proof {
            broadcast use vstd::layout::layout_of_primitives;

        }
        let sum = |x: i64, y: i64| -> (z: i64)
            requires
                i64::MIN <= x + y <= i64::MAX,
            ensures
                z == x + y,
            { x + y };
        let r = self.zip_with(other, sum);
        proof {
            assert forall|i: int| 0 <= i < a.len() implies #[trigger] r@[i] == a[i] + b[i] by {
                assert(call_ensures(sum, (a[i], b[i]), r@[i]));
            }
        }
        r
    }
}

/// When a buffer has never held more than `total` elements, its next
/// capacity step still fits the largest addressable allocation.
proof fn lemma_grown_region_fits<T>(cap: nat, len: nat, total: nat)
    requires
        size_of::<T>() != 0,
        len < total,
        2 * total * size_of::<T>() <= isize::MAX as nat,
    ensures
        cap == len ==> region_fits::<T>(grown_cap(cap)),
{
    if cap == len {
        assert(grown_cap(cap) <= 2 * total);
        vstd::arithmetic::mul::lemma_mul_inequality(
            grown_cap(cap) as int,
            2 * total as int,
            size_of::<T>() as int,
        );
        assert((2 * total as int) * size_of::<T>() == 2 * total * size_of::<T>());
    }
}

} // verus!
