//! A vector with a fixed capacity `N`.
//!
//! Storage is allocated once; `push` beyond the capacity is rejected and
//! hands the value back instead of growing the buffer.

use vstd::prelude::*;

verus! {

/// A vector holding at most `N` elements.
pub struct Vec<T, const N: usize> {
    buf: std::vec::Vec<T>,
}

impl<T, const N: usize> View for Vec<T, N> {
    type V = Seq<T>;

    closed spec fn view(&self) -> Seq<T> {
        self.buf@
    }
}

impl<T, const N: usize> Vec<T, N> {
    /// The contents never exceed the declared capacity.
    pub closed spec fn wf(&self) -> bool {
        self.buf@.len() <= N
    }

    /// Creates an empty vector.
    pub fn new() -> (r: Self)
        ensures
            r.wf(),
            r@ == Seq::<T>::empty(),
    {
        Vec { buf: std::vec::Vec::new() }
    }

    /// The declared capacity `N`.
    pub fn capacity(&self) -> (r: usize)
        ensures
            r == N,
    {
        N
    }

    /// The number of elements currently held.
    pub fn len(&self) -> (r: usize)
        ensures
            r == self@.len(),
    {
        self.buf.len()
    }

    /// True when no element is held.
    pub fn is_empty(&self) -> (r: bool)
        ensures
            r == (self@.len() == 0),
    {
        self.buf.len() == 0
    }

    /// True when the capacity is exhausted.
    pub fn is_full(&self) -> (r: bool)
        requires
            self.wf(),
        ensures
            r == (self@.len() == N),
    {
        self.buf.len() == N
    }

    /// Appends `value`; a full vector rejects it and hands it back unchanged.
    pub fn push(&mut self, value: T) -> (r: Result<(), T>)
        requires
            old(self).wf(),
        ensures
            final(self).wf(),
            old(self)@.len() < N ==> r == Ok::<(), T>(()) && final(self)@ == old(self)@.push(
                value,
            ),
            old(self)@.len() == N ==> r == Err::<(), T>(value) && final(self)@ == old(self)@,
    {
        if self.buf.len() == N {
            Err(value)
        } else {
            self.buf.push(value);
            Ok(())
        }
    }

    /// Reads the element at `index`, if any.
    pub fn get(&self, index: usize) -> (r: Option<&T>)
        ensures
            index < self@.len() ==> (r matches Some(v) && *v == self@[index as int]),
            index >= self@.len() ==> r is None,
    {
        if index < self.buf.len() {
            Some(&self.buf[index])
        } else {
            None
        }
    }

    /// Mutable access to the element at `index`, if any.
    pub fn get_mut(&mut self, index: usize) -> (r: Option<&mut T>)
        ensures
            final(self).wf() == old(self).wf(),
            index >= old(self)@.len() ==> r is None && *final(self) == *old(self),
            index < old(self)@.len() ==> r is Some && *r.unwrap() == old(self)@[index as int]
                && final(self)@ == old(self)@.update(index as int, *final(r.unwrap())),
    {
        if index < self.buf.len() {
            Some(&mut self.buf[index])
        } else {
            None
        }
    }

    /// The elements as a slice.
    pub fn as_slice(&self) -> (r: &[T])
        ensures
            r@ == self@,
    {
        self.buf.as_slice()
    }

    /// The elements as a mutable slice.
    pub fn as_mut_slice(&mut self) -> (r: &mut [T])
        ensures
            r@ == old(self)@,
            final(r)@ == final(self)@,
    {
        self.buf.as_mut_slice()
    }

    /// Removes the element at `index` in constant time by moving the last
    /// element into its place; the order of the rest is not kept.
    pub fn swap_remove(&mut self, index: usize) -> (r: T)
        requires
            old(self).wf(),
            index < old(self)@.len(),
        ensures
            final(self).wf(),
            r == old(self)@[index as int],
            final(self)@ == old(self)@.update(index as int, old(self)@.last()).drop_last(),
    {
        self.buf.swap_remove(index)
    }

    /// Shortens the vector to `len` elements; a larger `len` leaves it
    /// unchanged.
    pub fn truncate(&mut self, len: usize)
        ensures
            len >= old(self)@.len() ==> final(self)@ == old(self)@,
            len < old(self)@.len() ==> final(self)@ == old(self)@.take(len as int),
    {
        self.buf.truncate(len);
    }

    /// Removes every element.
    pub fn clear(&mut self)
        ensures
            final(self).wf(),
            final(self)@ == Seq::<T>::empty(),
    {
        self.buf.clear();
    }

    /// Removes and returns the last element, or `None` when empty.
    pub fn pop(&mut self) -> (r: Option<T>)
        requires
            old(self).wf(),
        ensures
            final(self).wf(),
            old(self)@.len() == 0 ==> r is None && final(self)@ == old(self)@,
            old(self)@.len() > 0 ==> r == Some(old(self)@.last()) && final(self)@ == old(
                self,
            )@.drop_last(),
    {
        if self.buf.len() == 0 {
            None
        } else {
            self.buf.pop()
        }
    }
}

impl<T, const N: usize> Vec<T, N> {
    /// Law: popping right after a push returns the exact value pushed and
    /// restores the previous contents — `push` appends the value and `pop`
    /// removes the last element (their contracts), and for any contents
    /// these two steps cancel.
    pub proof fn lemma_round_trip(s: Seq<T>, v: T)
        ensures
            s.push(v).last() == v,
            s.push(v).drop_last() == s,
    {
        assert(s.push(v).drop_last() =~= s);
    }

    /// Law: in every reachable state, the flags agree with the length —
    /// at most `N` elements are held, and `is_empty` and `is_full` can
    /// only coincide for a zero-capacity vector.
    pub proof fn lemma_flags_consistent(&self)
        requires
            self.wf(),
        ensures
            self@.len() <= N,
            self@.len() == 0 && self@.len() == N ==> N == 0,
    {
    }
}

impl<T: Clone, const N: usize> Vec<T, N> {
    /// Appends clones of every element of `other`; the combined length
    /// must fit the capacity.
    pub fn extend_from_slice(&mut self, other: &[T])
        requires
            old(self).wf(),
            old(self)@.len() + other@.len() <= N,
        ensures
            final(self).wf(),
            final(self)@.len() == old(self)@.len() + other@.len(),
            forall|i: int| 0 <= i < old(self)@.len() ==> final(self)@[i] == old(self)@[i],
            forall|i: int|
                0 <= i < other@.len() ==> cloned::<T>(
                    other@[i],
                    #[trigger] final(self)@[old(self)@.len() + i],
                ),
    {
        self.buf.extend_from_slice(other);
    }
}

} // verus!
