//! A fixed-capacity set over an unsorted vector.
//!
//! Membership scans front to back; removal swaps the last element into the
//! hole.

use crate::vec::Vec;
use vstd::prelude::*;
use vstd::std_specs::cmp::PartialEqSpec;

verus! {

/// A set holding at most `N` elements.
pub struct LinearSet<T, const N: usize> {
    vec: Vec<T, N>,
}

impl<T, const N: usize> View for LinearSet<T, N> {
    type V = Seq<T>;

    /// The elements in storage order.
    closed spec fn view(&self) -> Seq<T> {
        self.vec@
    }
}

impl<T, const N: usize> LinearSet<T, N> {
    /// The elements never exceed the declared capacity.
    pub closed spec fn wf(&self) -> bool {
        self.vec.wf()
    }

    /// Creates an empty set.
    pub fn new() -> (r: Self)
        ensures
            r.wf(),
            r@ == Seq::<T>::empty(),
    {
        LinearSet { vec: Vec::new() }
    }

    /// The declared capacity `N`.
    pub fn capacity(&self) -> (r: usize)
        ensures
            r == N,
    {
        N
    }

    /// The number of elements currently held.
    pub fn len(&self) -> (r: usize)
        ensures
            r == self@.len(),
    {
        self.vec.len()
    }

    /// True when no element is held.
    pub fn is_empty(&self) -> (r: bool)
        ensures
            r == (self@.len() == 0),
    {
        self.vec.is_empty()
    }
}

impl<T: PartialEq, const N: usize> LinearSet<T, N> {
    /// Some element of `s` equals `value`.
    pub open spec fn spec_has(s: Seq<T>, value: &T) -> bool {
        exists|i: int| 0 <= i < s.len() && s[i].eq_spec(value)
    }

    /// `i` is the first position of `s` whose element equals `value`.
    pub open spec fn spec_first(s: Seq<T>, value: &T, i: int) -> bool {
        &&& 0 <= i < s.len()
        &&& s[i].eq_spec(value)
        &&& forall|j: int| 0 <= j < i ==> !s[j].eq_spec(value)
    }

    /// The position of the first element equal to `value`, if any.
    pub fn get_index(&self, value: &T) -> (r: Option<usize>)
        requires
            T::obeys_eq_spec(),
        ensures
            r matches Some(i) ==> Self::spec_first(self@, value, i as int),
            Self::spec_has(self@, value) ==> r is Some,
            !Self::spec_has(self@, value) ==> r is None,
    {
        let s = self.vec.as_slice();
        let mut i: usize = 0;
        let len = s.len();
        while i < len
            invariant
                T::obeys_eq_spec(),
                s@ == self@,
                len == self@.len(),
                i <= len,
                forall|j: int| 0 <= j < i ==> !self@[j].eq_spec(value),
            decreases len - i,
        {
            if s[i] == *value {
                return Some(i);
            }
            i = i + 1;
        }
        None
    }

    /// The stored element equal to `value`, if any.
    pub fn get(&self, value: &T) -> (r: Option<&T>)
        requires
            T::obeys_eq_spec(),
        ensures
            r matches Some(v) ==> (exists|i: int|
                #[trigger] Self::spec_first(self@, value, i) && *v == self@[i]),
            Self::spec_has(self@, value) ==> r is Some,
            !Self::spec_has(self@, value) ==> r is None,
    {
        match self.get_index(value) {
            Some(i) => {
                match self.vec.get(i) {
                    Some(v) => {
                        proof {
                            assert(Self::spec_first(self@, value, i as int));
                        }
                        Some(v)
                    },
                    None => unreached(),
                }
            },
            None => None,
        }
    }

    /// True when some element equals `value`.
    pub fn contains(&self, value: &T) -> (r: bool)
        requires
            T::obeys_eq_spec(),
        ensures
            r == Self::spec_has(self@, value),
    {
        self.get_index(value).is_some()
    }

    /// Adds `value` unless an equal element is already held (`Ok(false)`),
    /// appending it at the back (`Ok(true)`); a full set rejects the value
    /// and hands it back.
    pub fn insert(&mut self, value: T) -> (r: Result<bool, T>)
        requires
            old(self).wf(),
            T::obeys_eq_spec(),
        ensures
            final(self).wf(),
            Self::spec_has(old(self)@, &value) ==> r == Ok::<bool, T>(false) && final(self)@
                == old(self)@,
            !Self::spec_has(old(self)@, &value) && old(self)@.len() < N ==> r == Ok::<bool, T>(
                true,
            ) && final(self)@ == old(self)@.push(value),
            !Self::spec_has(old(self)@, &value) && old(self)@.len() == N ==> r == Err::<bool, T>(
                value,
            ) && final(self)@ == old(self)@,
    {
        match self.get_index(&value) {
            Some(_) => Ok(false),
            None => {
                match self.vec.push(value) {
                    Ok(()) => Ok(true),
                    Err(v) => Err(v),
                }
            },
        }
    }

    /// Removes the first element equal to `value`, reporting whether one
    /// was held; the last element is swapped into the hole.
    pub fn remove(&mut self, value: &T) -> (r: bool)
        requires
            old(self).wf(),
            T::obeys_eq_spec(),
        ensures
            final(self).wf(),
            r == Self::spec_has(old(self)@, value),
            !Self::spec_has(old(self)@, value) ==> *final(self) == *old(self),
            Self::spec_has(old(self)@, value) ==> (exists|i: int|
                #[trigger] Self::spec_first(old(self)@, value, i) && final(self)@ == old(
                    self,
                )@.update(i, old(self)@.last()).drop_last()),
    {
        match self.get_index(value) {
            Some(i) => {
                proof {
                    assert(Self::spec_first(old(self)@, value, i as int));
                }
                let _ = self.vec.swap_remove(i);
                true
            },
            None => false,
        }
    }
}

} // verus!
