//! A bounded history of the last `N` records.
//!
//! Records are appended until the buffer is full; afterwards each new
//! record overwrites the oldest one in place.  The stored order is the raw
//! buffer order, not rotated: reading the records gives them slot by slot.

use vstd::prelude::*;
use vstd::std_specs::cmp::PartialEqSpec;

verus! {

/// The last up-to-`N` records.
pub struct History<T, const N: usize> {
    last: usize,
    logs: Vec<T>,
}

impl<T, const N: usize> View for History<T, N> {
    type V = Seq<T>;

    /// The records in raw buffer order.
    closed spec fn view(&self) -> Seq<T> {
        self.logs@
    }
}

impl<T, const N: usize> History<T, N> {
    /// The slot the next record is written to.
    pub closed spec fn cursor(&self) -> int {
        self.last as int
    }

    /// The records fill the buffer front to back, and the write cursor
    /// trails the newest record.
    pub closed spec fn wf(&self) -> bool {
        &&& self.logs@.len() <= N
        &&& self.logs@.len() < N ==> self.last == self.logs@.len()
        &&& self.logs@.len() == N && N >= 1 ==> self.last < N
    }

    /// Creates an empty history.
    pub fn new() -> (r: Self)
        ensures
            r.wf(),
            r@ == Seq::<T>::empty(),
            r.cursor() == 0,
    {
        History { last: 0, logs: Vec::new() }
    }

    /// The number of records currently held.
    pub fn len(&self) -> (r: usize)
        ensures
            r == self@.len(),
    {
        self.logs.len()
    }

    /// The records as a slice, in raw buffer order.
    pub fn as_slice(&self) -> (r: &[T])
        ensures
            r@ == self@,
    {
        self.logs.as_slice()
    }

    /// Adds a record.  While the buffer still has room the record is
    /// appended; afterwards it overwrites the slot at the cursor, the
    /// oldest record, and the cursor wraps around the buffer.
    pub fn insert(&mut self, value: T)
        requires
            old(self).wf(),
            1 <= N,
        ensures
            final(self).wf(),
            old(self)@.len() < N ==> final(self)@ == old(self)@.push(value),
            old(self)@.len() == N ==> final(self)@ == old(self)@.update(old(self).cursor(), value),
            final(self).cursor() == if old(self).cursor() + 1 == N {
                0int
            } else {
                old(self).cursor() + 1
            },
    {
        let last = self.last;
        if self.logs.len() < N {
            self.logs.push(value);
        } else {
            self.logs[last] = value;
        }
        if last == N - 1 {
            self.last = 0;
        } else {
            self.last = last + 1;
        }
    }
}

impl<T: PartialEq, const N: usize> History<T, N> {
    /// True when some held record equals `value`.
    pub fn contains(&self, value: &T) -> (r: bool)
        requires
            T::obeys_eq_spec(),
        ensures
            r == (exists|i: int| 0 <= i < self@.len() && self@[i].eq_spec(value)),
    {
        let mut i: usize = 0;
        let len = self.logs.len();
        while i < len
            invariant
                len == self@.len(),
                i <= len,
                T::obeys_eq_spec(),
                forall|j: int| 0 <= j < i ==> !self@[j].eq_spec(value),
            decreases len - i,
        {
            if self.logs[i] == *value {
                return true;
            }
            i = i + 1;
        }
        false
    }
}

} // verus!
