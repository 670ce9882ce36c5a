//! A fixed-capacity map over an unsorted vector of pairs.
//!
//! Lookups scan front to back and act on the first pair whose key matches;
//! removal swaps the last pair into the hole.

use crate::vec::Vec;
use vstd::prelude::*;
use vstd::std_specs::cmp::PartialEqSpec;

verus! {

/// A map holding at most `N` key/value pairs.
pub struct LinearMap<K, V, const N: usize> {
    vec: Vec<(K, V), N>,
}

impl<K, V, const N: usize> View for LinearMap<K, V, N> {
    type V = Seq<(K, V)>;

    /// The pairs in storage order.
    closed spec fn view(&self) -> Seq<(K, V)> {
        self.vec@
    }
}

impl<K, V, const N: usize> LinearMap<K, V, N> {
    /// The pairs never exceed the declared capacity.
    pub closed spec fn wf(&self) -> bool {
        self.vec.wf()
    }

    /// Creates an empty map.
    pub fn new() -> (r: Self)
        ensures
            r.wf(),
            r@ == Seq::<(K, V)>::empty(),
    {
        LinearMap { vec: Vec::new() }
    }

    /// The declared capacity `N`.
    pub fn capacity(&self) -> (r: usize)
        ensures
            r == N,
    {
        N
    }

    /// The number of pairs currently held.
    pub fn len(&self) -> (r: usize)
        ensures
            r == self@.len(),
    {
        self.vec.len()
    }

    /// True when no pair is held.
    pub fn is_empty(&self) -> (r: bool)
        ensures
            r == (self@.len() == 0),
    {
        self.vec.is_empty()
    }
}

impl<K: PartialEq, V, const N: usize> LinearMap<K, V, N> {
    /// Some pair of `s` has a key equal to `key`.
    pub open spec fn spec_has_key(s: Seq<(K, V)>, key: &K) -> bool {
        exists|i: int| 0 <= i < s.len() && s[i].0.eq_spec(key)
    }

    /// `i` is the first position of `s` whose key equals `key`.
    pub open spec fn spec_first_key(s: Seq<(K, V)>, key: &K, i: int) -> bool {
        &&& 0 <= i < s.len()
        &&& s[i].0.eq_spec(key)
        &&& forall|j: int| 0 <= j < i ==> !s[j].0.eq_spec(key)
    }

    /// The position of the first pair whose key equals `key`, if any.
    pub fn get_index(&self, key: &K) -> (r: Option<usize>)
        requires
            K::obeys_eq_spec(),
        ensures
            r matches Some(i) ==> Self::spec_first_key(self@, key, i as int),
            Self::spec_has_key(self@, key) ==> r is Some,
            !Self::spec_has_key(self@, key) ==> r is None,
    {
        let s = self.vec.as_slice();
        let mut i: usize = 0;
        let len = s.len();
        while i < len
            invariant
                K::obeys_eq_spec(),
                s@ == self@,
                len == self@.len(),
                i <= len,
                forall|j: int| 0 <= j < i ==> !self@[j].0.eq_spec(key),
            decreases len - i,
        {
            if s[i].0 == *key {
                return Some(i);
            }
            i = i + 1;
        }
        None
    }

    /// The value of the first pair whose key equals `key`, if any.
    pub fn get(&self, key: &K) -> (r: Option<&V>)
        requires
            K::obeys_eq_spec(),
        ensures
            r matches Some(v) ==> (exists|i: int|
                #[trigger] Self::spec_first_key(self@, key, i) && *v == self@[i].1),
            Self::spec_has_key(self@, key) ==> r is Some,
            !Self::spec_has_key(self@, key) ==> r is None,
    {
        match self.get_index(key) {
            Some(i) => {
                match self.vec.get(i) {
                    Some(pair) => {
                        proof {
                            assert(Self::spec_first_key(self@, key, i as int));
                        }
                        Some(&pair.1)
                    },
                    None => unreached(),
                }
            },
            None => None,
        }
    }

    /// Mutable access to the value of the first pair whose key equals
    /// `key`, if any.
    pub fn get_mut(&mut self, key: &K) -> (r: Option<&mut V>)
        requires
            K::obeys_eq_spec(),
        ensures
            final(self).wf() == old(self).wf(),
            !Self::spec_has_key(old(self)@, key) ==> r is None && *final(self) == *old(self),
            Self::spec_has_key(old(self)@, key) ==> r is Some && (exists|i: int|
                #[trigger] Self::spec_first_key(old(self)@, key, i) && *r.unwrap() == old(
                    self,
                )@[i].1 && final(self)@ == old(self)@.update(
                    i,
                    (old(self)@[i].0, *final(r.unwrap())),
                )),
    {
        match self.get_index(key) {
            Some(i) => {
                proof {
                    assert(Self::spec_first_key(old(self)@, key, i as int));
                }
                match self.vec.get_mut(i) {
                    Some(pair) => Some(&mut pair.1),
                    None => unreached(),
                }
            },
            None => None,
        }
    }

    /// True when some pair's key equals `key`.
    pub fn contains_key(&self, key: &K) -> (r: bool)
        requires
            K::obeys_eq_spec(),
        ensures
            r == Self::spec_has_key(self@, key),
    {
        self.get_index(key).is_some()
    }

    /// Binds `key` to `value`.  An existing pair with an equal key keeps
    /// its key and has only its value replaced (the old value is returned);
    /// otherwise the pair is appended, unless the map is full, in which
    /// case the pair is rejected and handed back.
    pub fn insert(&mut self, key: K, value: V) -> (r: Result<Option<V>, (K, V)>)
        requires
            old(self).wf(),
            K::obeys_eq_spec(),
        ensures
            final(self).wf(),
            Self::spec_has_key(old(self)@, &key) ==> (exists|i: int|
                #[trigger] Self::spec_first_key(old(self)@, &key, i) && r == Ok::<
                    Option<V>,
                    (K, V),
                >(Some(old(self)@[i].1)) && final(self)@ == old(self)@.update(
                    i,
                    (old(self)@[i].0, value),
                )),
            !Self::spec_has_key(old(self)@, &key) && old(self)@.len() < N ==> r == Ok::<
                Option<V>,
                (K, V),
            >(None) && final(self)@ == old(self)@.push((key, value)),
            !Self::spec_has_key(old(self)@, &key) && old(self)@.len() == N ==> r == Err::<
                Option<V>,
                (K, V),
            >((key, value)) && final(self)@ == old(self)@,
    {
        match self.get_index(&key) {
            Some(i) => {
                proof {
                    assert(Self::spec_first_key(old(self)@, &key, i as int));
                }
                match self.vec.get_mut(i) {
                    Some(pair) => {
                        let mut value = value;
                        core::mem::swap(&mut pair.1, &mut value);
                        Ok(Some(value))
                    },
                    None => unreached(),
                }
            },
            None => {
                match self.vec.push((key, value)) {
                    Ok(()) => Ok(None),
                    Err(pair) => Err(pair),
                }
            },
        }
    }

    /// Removes the first pair whose key equals `key` and returns its
    /// value; the last pair is swapped into the hole.
    pub fn remove(&mut self, key: &K) -> (r: Option<V>)
        requires
            old(self).wf(),
            K::obeys_eq_spec(),
        ensures
            final(self).wf(),
            !Self::spec_has_key(old(self)@, key) ==> r is None && *final(self) == *old(self),
            Self::spec_has_key(old(self)@, key) ==> (exists|i: int|
                #[trigger] Self::spec_first_key(old(self)@, key, i) && r == Some(old(self)@[i].1)
                    && final(self)@ == old(self)@.update(i, old(self)@.last()).drop_last()),
    {
        match self.get_index(key) {
            Some(i) => {
                proof {
                    assert(Self::spec_first_key(old(self)@, key, i as int));
                }
                let rm = self.vec.swap_remove(i);
                Some(rm.1)
            },
            None => None,
        }
    }
}

} // verus!
