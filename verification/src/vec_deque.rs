//! A fixed-capacity double-ended queue.
//!
//! A circular buffer over `N` cells whose cursors are plain slot indices in
//! `[0, N)`; a separate flag tells a full queue from an empty one, so all
//! `N` slots are usable.

use crate::arith::{lemma_mod_pred, lemma_mod_shift, lemma_mod_succ, lemma_window_residues};
use vstd::arithmetic::div_mod::{
    lemma_add_mod_noop, lemma_fundamental_div_mod_converse_mod,
    lemma_mod_division_less_than_divisor, lemma_mod_multiples_vanish, lemma_mod_twice,
};
use vstd::prelude::*;

verus! {

/// A double-ended queue holding at most `N` elements.
pub struct VecDeque<T, const N: usize> {
    buf: Vec<Option<T>>,
    /// Slot index one past the back element.
    end: usize,
    /// Slot index of the front element.
    start: usize,
    /// Distinguishes a full queue from an empty one when the cursors meet.
    is_full: bool,
    /// The front cursor as an unbounded integer (may run below zero after
    /// repeated front insertions).
    gstart: Ghost<int>,
    /// The back cursor as an unbounded integer.
    gend: Ghost<int>,
}

impl<T, const N: usize> View for VecDeque<T, N> {
    type V = Seq<T>;

    /// The elements, front first.
    closed spec fn view(&self) -> Seq<T> {
        Seq::new(
            (self.gend@ - self.gstart@) as nat,
            |j: int| self.buf@[Self::pos_idx(self.gstart@ + j)]->0,
        )
    }
}

impl<T, const N: usize> VecDeque<T, N> {
    /// The slot a cursor position maps to.
    closed spec fn pos_idx(p: int) -> int {
        p % (N as int)
    }

    /// The queue invariant: the cells between the cursors hold the
    /// elements, all others are empty, and the flag marks exactly the full
    /// state.
    pub closed spec fn wf(&self) -> bool {
        &&& 1 <= N
        &&& (N as int) <= usize::MAX as int / 2
        &&& self.buf@.len() == N
        &&& self.gstart@ <= self.gend@ <= self.gstart@ + (N as int)
        &&& self.start == self.gstart@ % (N as int)
        &&& self.end == self.gend@ % (N as int)
        &&& self.is_full <==> (self.gend@ - self.gstart@ == N as int)
        &&& forall|p: int|
            self.gstart@ <= p < self.gend@ ==> self.buf@[#[trigger] Self::pos_idx(p)] is Some
        &&& forall|p: int|
            self.gend@ <= p < self.gstart@ + (N as int) ==> self.buf@[#[trigger] Self::pos_idx(
                p,
            )] is None
    }

    /// A well-formed queue never holds more than `N` elements.
    pub proof fn lemma_len_bound(&self)
        requires
            self.wf(),
        ensures
            self@.len() <= N,
    {
    }

    /// Law: popping the back right after pushing the back returns the
    /// exact value pushed and restores the previous contents, and the same
    /// holds at the front — the push/pop contracts at either end cancel.
    pub proof fn lemma_round_trip(s: Seq<T>, v: T)
        ensures
            s.push(v).last() == v,
            s.push(v).drop_last() == s,
            (Seq::empty().push(v) + s).first() == v,
            (Seq::empty().push(v) + s).drop_first() == s,
    {
        assert(s.push(v).drop_last() =~= s);
        assert((Seq::empty().push(v) + s).drop_first() =~= s);
    }

    /// Law: in every reachable state the three size observers agree — the
    /// length never exceeds the capacity, and `is_empty` and `is_full`
    /// coincide only for a zero-length queue of zero capacity, which this
    /// queue (capacity at least one) never is.
    pub proof fn lemma_flags_consistent(&self)
        requires
            self.wf(),
        ensures
            self@.len() <= N,
            !(self@.len() == 0 && self@.len() == N),
    {
    }

    /// Creates an empty queue.
    pub fn new() -> (r: Self)
        requires
            1 <= N,
            (N as int) <= usize::MAX as int / 2,
        ensures
            r.wf(),
            r@ == Seq::<T>::empty(),
    {
        let mut buf: Vec<Option<T>> = Vec::new();
        let mut i: usize = 0;
        while i < N
            invariant
                i <= N,
                buf@.len() == i,
                forall|k: int| 0 <= k < i ==> buf@[k] is None,
            decreases N - i,
        {
            buf.push(None);
            i = i + 1;
        }
        let r = VecDeque {
            buf,
            end: 0,
            start: 0,
            is_full: false,
            gstart: Ghost(0int),
            gend: Ghost(0int),
        };
        proof {
            lemma_mod_division_less_than_divisor(0int, N as int);
            lemma_fundamental_div_mod_converse_mod(0int, N as int, 0int, 0int);
            assert forall|p: int| 0 <= p < N as int implies r.buf@[#[trigger] Self::pos_idx(
                p,
            )] is None by {
                lemma_fundamental_div_mod_converse_mod(p, N as int, 0int, p);
            }
            assert(r@ =~= Seq::<T>::empty());
        }
        r
    }

    /// The declared capacity `N`.
    pub fn capacity(&self) -> (r: usize)
        ensures
            r == N,
    {
        N
    }

    /// The number of elements currently held.
    pub fn len(&self) -> (r: usize)
        requires
            self.wf(),
        ensures
            r == self@.len(),
    {
        proof {
            if !self.is_full {
                lemma_mod_shift(self.gstart@, self.gend@ - self.gstart@, N as int);
                lemma_mod_division_less_than_divisor(self.gstart@, N as int);
                lemma_mod_division_less_than_divisor(self.gend@, N as int);
            }
        }
        let start = self.start;
        let end = self.end;
        if self.is_full() {
            self.capacity()
        } else if end >= start {
            end - start
        } else {
            self.capacity() - start + end
        }
    }

    /// True when no element is held.
    pub fn is_empty(&self) -> (r: bool)
        requires
            self.wf(),
        ensures
            r == (self@.len() == 0),
    {
        proof {
            if self.gstart@ < self.gend@ < self.gstart@ + (N as int) {
                lemma_window_residues(self.gstart@, self.gend@, N as int);
            }
        }
        self.start == self.end && !self.is_full
    }

    /// True when the capacity is exhausted.
    pub fn is_full(&self) -> (r: bool)
        requires
            self.wf(),
        ensures
            r == (self@.len() == N),
    {
        self.is_full
    }

    /// The slot index `addend` positions past `idx`.
    fn wrap_add(&self, idx: usize, addend: usize) -> (r: usize)
        requires
            1 <= N,
            (N as int) <= usize::MAX as int / 2,
            idx < N,
            addend <= N,
        ensures
            r == (idx + addend) % (N as int),
    {
        proof {
            if idx + addend < N {
                lemma_fundamental_div_mod_converse_mod(idx + addend, N as int, 0int, idx + addend);
            } else {
                lemma_fundamental_div_mod_converse_mod(
                    idx + addend,
                    N as int,
                    1int,
                    idx + addend - (N as int),
                );
            }
        }
        let index = idx + addend;
        if index >= self.capacity() {
            index - self.capacity()
        } else {
            index
        }
    }

    /// The slot index `subtrahend` positions before `idx`.
    fn wrap_sub(&self, idx: usize, subtrahend: usize) -> (r: usize)
        requires
            1 <= N,
            (N as int) <= usize::MAX as int / 2,
            idx < N,
            subtrahend <= N,
        ensures
            r == (idx - subtrahend) % (N as int),
    {
        proof {
            if idx >= subtrahend {
                lemma_fundamental_div_mod_converse_mod(
                    idx - subtrahend,
                    N as int,
                    0int,
                    idx - subtrahend,
                );
            } else {
                lemma_fundamental_div_mod_converse_mod(
                    idx - subtrahend,
                    N as int,
                    -1int,
                    idx - subtrahend + (N as int),
                );
            }
        }
        if idx >= subtrahend {
            idx - subtrahend
        } else {
            idx + (self.capacity() - subtrahend)
        }
    }

    /// Reads the element `index` positions behind the front, if any.
    pub fn get(&self, index: usize) -> (r: Option<&T>)
        requires
            self.wf(),
        ensures
            index < self@.len() ==> (r matches Some(v) && *v == self@[index as int]),
            index >= self@.len() ==> r is None,
    {
        if index < self.len() {
            proof {
                lemma_add_mod_noop(self.gstart@, index as int, N as int);
                lemma_mod_division_less_than_divisor(self.gstart@, N as int);
                lemma_fundamental_div_mod_converse_mod(index as int, N as int, 0int, index as int);
            }
            let idx = self.wrap_add(self.start, index);
            proof {
                assert(idx as int == Self::pos_idx(self.gstart@ + index as int));
                assert(self.buf@[idx as int] is Some);
            }
            match self.buf[idx].as_ref() {
                Some(v) => Some(v),
                None => unreached(),
            }
        } else {
            None
        }
    }

    /// Mutable access to the element `index` positions behind the front,
    /// if any.
    pub fn get_mut(&mut self, index: usize) -> (r: Option<&mut T>)
        requires
            old(self).wf(),
        ensures
            final(self).wf(),
            index >= old(self)@.len() ==> r is None && *final(self) == *old(self),
            index < old(self)@.len() ==> r is Some && *r.unwrap() == old(self)@[index as int]
                && final(self)@ =~= old(self)@.update(index as int, *final(r.unwrap())),
    {
        let len = self.len();
        if index < len {
            proof {
                lemma_add_mod_noop(self.gstart@, index as int, N as int);
                lemma_mod_division_less_than_divisor(self.gstart@, N as int);
                lemma_fundamental_div_mod_converse_mod(index as int, N as int, 0int, index as int);
                assert forall|j: int|
                    0 <= j < old(self)@.len() && j != index implies #[trigger] Self::pos_idx(
                    self.gstart@ + j) != Self::pos_idx(self.gstart@ + index as int) by {
                    if j < index {
                        lemma_window_residues(
                            self.gstart@ + j,
                            self.gstart@ + index as int,
                            N as int,
                        );
                    } else {
                        lemma_window_residues(
                            self.gstart@ + index as int,
                            self.gstart@ + j,
                            N as int,
                        );
                    }
                }
            }
            let idx = self.wrap_add(self.start, index);
            proof {
                assert(idx as int == Self::pos_idx(self.gstart@ + index as int));
                assert(self.buf@[idx as int] is Some);
            }
            match self.buf[idx].as_mut() {
                Some(v) => Some(v),
                None => unreached(),
            }
        } else {
            None
        }
    }

    /// Drops every element and resets both cursors.
    pub fn clear(&mut self)
        requires
            old(self).wf(),
        ensures
            final(self).wf(),
            final(self)@ == Seq::<T>::empty(),
    {
        let mut i: usize = 0;
        while i < N
            invariant
                i <= N,
                self.buf@.len() == N,
                forall|k: int| 0 <= k < i ==> self.buf@[k] is None,
                1 <= N,
                (N as int) <= usize::MAX as int / 2,
            decreases N - i,
        {
            self.buf[i] = None;
            i = i + 1;
        }
        self.end = 0;
        self.start = 0;
        self.is_full = false;
        proof {
            self.gstart@ = 0;
            self.gend@ = 0;
            lemma_mod_division_less_than_divisor(0int, N as int);
            lemma_fundamental_div_mod_converse_mod(0int, N as int, 0int, 0int);
            assert forall|p: int| 0 <= p < N as int implies self.buf@[#[trigger] Self::pos_idx(
                p,
            )] is None by {
                lemma_fundamental_div_mod_converse_mod(p, N as int, 0int, p);
            }
            assert(self@ =~= Seq::<T>::empty());
        }
    }

    /// Removes and returns the front element, or `None` when empty.
    pub fn pop_front(&mut self) -> (r: Option<T>)
        requires
            old(self).wf(),
        ensures
            final(self).wf(),
            old(self)@.len() == 0 ==> r is None && final(self)@ == old(self)@,
            old(self)@.len() > 0 ==> r == Some(old(self)@.first()) && final(self)@ == old(
                self,
            )@.drop_first(),
    {
        let ghost old_self = *self;
        if self.is_empty() {
            return None;
        }
        proof {
            lemma_mod_division_less_than_divisor(self.gstart@, N as int);
        }
        let start = self.start;
        self.start = self.wrap_add(start, 1);
        if self.is_full {
            self.is_full = false;
        }
        let ret = self.buf[start].take();
        proof {
            let n = N as int;
            let s = self.gstart@;
            self.gstart@ = s + 1;
            lemma_mod_succ(s, n);
            lemma_mod_succ(s % n, n);
            lemma_mod_twice(s, n);
            assert(self.start == (s + 1) % n);
            assert forall|p: int|
                s < p < s + n implies #[trigger] Self::pos_idx(p) != Self::pos_idx(s) by {
                lemma_window_residues(s, p, n);
            }
            lemma_mod_multiples_vanish(1, s, n);
            assert(Self::pos_idx(s + n) == Self::pos_idx(s));
            assert(self@ =~= old_self@.drop_first());
        }
        ret
    }

    /// Removes and returns the back element, or `None` when empty.
    pub fn pop_back(&mut self) -> (r: Option<T>)
        requires
            old(self).wf(),
        ensures
            final(self).wf(),
            old(self)@.len() == 0 ==> r is None && final(self)@ == old(self)@,
            old(self)@.len() > 0 ==> r == Some(old(self)@.last()) && final(self)@ == old(
                self,
            )@.drop_last(),
    {
        let ghost old_self = *self;
        if self.is_empty() {
            return None;
        }
        proof {
            lemma_mod_division_less_than_divisor(self.gend@, N as int);
            lemma_mod_pred(self.gend@, N as int);
        }
        self.end = self.wrap_sub(self.end, 1);
        let end = self.end;
        if self.is_full {
            self.is_full = false;
        }
        let ret = self.buf[end].take();
        proof {
            let n = N as int;
            let e = self.gend@;
            self.gend@ = e - 1;
            lemma_mod_pred(e, n);
            lemma_mod_pred(e % n, n);
            lemma_mod_twice(e, n);
            assert(self.end == (e - 1) % n);
            assert forall|p: int|
                e - n <= p < e - 1 implies #[trigger] Self::pos_idx(p) != Self::pos_idx(e - 1) by {
                lemma_window_residues(p, e - 1, n);
            }
            lemma_mod_multiples_vanish(-1, e - 1 + n, n);
            assert(Self::pos_idx(e - 1 + n) == Self::pos_idx(e - 1));
            assert(self@ =~= old_self@.drop_last());
        }
        ret
    }

    /// Inserts `value` at the front; a full queue rejects it and hands it
    /// back unchanged.
    pub fn push_front(&mut self, value: T) -> (r: Result<(), T>)
        requires
            old(self).wf(),
        ensures
            final(self).wf(),
            old(self)@.len() < N ==> r == Ok::<(), T>(()) && final(self)@ == Seq::<T>::empty(
            ).push(value) + old(self)@,
            old(self)@.len() == N ==> r == Err::<(), T>(value) && final(self)@ == old(self)@,
    {
        let ghost old_self = *self;
        if self.is_full() {
            return Err(value);
        }
        let len = self.len();
        if len == self.capacity() - 1 {
            self.is_full = true;
        }
        proof {
            lemma_mod_division_less_than_divisor(self.gstart@, N as int);
            lemma_mod_pred(self.gstart@, N as int);
        }
        self.start = self.wrap_sub(self.start, 1);
        let start = self.start;
        self.buf[start] = Some(value);
        proof {
            let n = N as int;
            let s = self.gstart@;
            self.gstart@ = s - 1;
            lemma_mod_pred(s, n);
            lemma_mod_pred(s % n, n);
            lemma_mod_twice(s, n);
            assert(self.start == (s - 1) % n);
            assert forall|p: int|
                s - 1 < p < s - 1 + n implies #[trigger] Self::pos_idx(p) != Self::pos_idx(
                s - 1) by {
                lemma_window_residues(s - 1, p, n);
            }
            assert(self@ =~= Seq::<T>::empty().push(value) + old_self@);
        }
        Ok(())
    }

    /// Appends `value` at the back; a full queue rejects it and hands it
    /// back unchanged.
    pub fn push_back(&mut self, value: T) -> (r: Result<(), T>)
        requires
            old(self).wf(),
        ensures
            final(self).wf(),
            old(self)@.len() < N ==> r == Ok::<(), T>(()) && final(self)@ == old(self)@.push(
                value,
            ),
            old(self)@.len() == N ==> r == Err::<(), T>(value) && final(self)@ == old(self)@,
    {
        let ghost old_self = *self;
        if self.is_full() {
            return Err(value);
        }
        let len = self.len();
        if len == self.capacity() - 1 {
            self.is_full = true;
        }
        proof {
            lemma_mod_division_less_than_divisor(self.gend@, N as int);
        }
        let end = self.end;
        self.buf[end] = Some(value);
        self.end = self.wrap_add(end, 1);
        proof {
            let n = N as int;
            let s = self.gstart@;
            let e = self.gend@;
            self.gend@ = e + 1;
            lemma_mod_succ(e, n);
            lemma_mod_succ(e % n, n);
            lemma_mod_twice(e, n);
            assert(self.end == (e + 1) % n);
            assert forall|p: int|
                s <= p < e implies #[trigger] Self::pos_idx(p) != Self::pos_idx(e) by {
                lemma_window_residues(p, e, n);
            }
            assert forall|p: int|
                e < p < s + n implies #[trigger] Self::pos_idx(p) != Self::pos_idx(e) by {
                lemma_window_residues(e, p, n);
            }
            assert(self@ =~= old_self@.push(value));
        }
        Ok(())
    }
}

} // verus!
