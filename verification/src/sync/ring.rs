//! The generation-tagged circular queue.
//!
//! Each of the `N` slots carries a control word ([`MemoryOp`]): a lifecycle
//! tag plus the generation ("lap") the slot is currently in.  A producer may
//! write a slot only when the word reads `Uninitialized` at the producer's
//! own lap, a consumer may read it only when it reads `Written` at the
//! consumer's lap, and finishing a read advances the slot to the next lap.
//! The cursors wrap at the largest multiple of `N * GROUP_COUNT` that fits
//! in `usize`, so slot index and generation stay exact across the wrap.
//!
//! The verified invariant ties every slot's control word to the cursors:
//! positions between `start` and `end` hold published values at their own
//! lap, all other positions are free and already tagged for the lap that
//! will next write them.

use crate::arith::{lemma_mod_shift, lemma_window_residues, lemma_wrap_group, lemma_wrap_residue};
use crate::sync::common::{MemoryGroup, MemoryOp, MemoryState, GROUP_COUNT};
use vstd::arithmetic::div_mod::{
    lemma_add_mod_noop, lemma_fundamental_div_mod_converse, lemma_fundamental_div_mod_converse_mod,
    lemma_hoist_over_denominator, lemma_mod_division_less_than_divisor,
    lemma_mod_multiples_vanish,
};
use vstd::prelude::*;

verus! {

/// A multi-producer/multi-consumer circular queue of capacity `N`.
pub struct AtomicRing<T, const N: usize> {
    buf: Vec<Option<T>>,
    ops: Vec<MemoryOp>,
    /// Wrapped cursor of the first occupied position.
    start: usize,
    /// Wrapped cursor of the next free position.
    end: usize,
    /// The start cursor before wrapping, as an unbounded integer.
    gstart: Ghost<int>,
    /// The end cursor before wrapping, as an unbounded integer.
    gend: Ghost<int>,
}

impl<T, const N: usize> View for AtomicRing<T, N> {
    type V = Seq<T>;

    /// The queued values, front first.
    closed spec fn view(&self) -> Seq<T> {
        Seq::new(
            (self.gend@ - self.gstart@) as nat,
            |j: int| self.buf@[Self::pos_idx(self.gstart@ + j)]->0,
        )
    }
}

impl<T, const N: usize> AtomicRing<T, N> {
    /// The cursor wrap point.
    pub open spec fn spec_wrap_max() -> int {
        MemoryGroup::spec_max_idx(N as int)
    }

    /// The slot a cursor position maps to.
    closed spec fn pos_idx(p: int) -> int {
        p % (N as int)
    }

    /// The generation a cursor position belongs to.
    closed spec fn pos_group(p: int) -> int {
        (p / (N as int)) % (GROUP_COUNT as int)
    }

    /// A position in the occupied window: published value, `Written` at its
    /// own lap.
    closed spec fn occupied_slot_ok(self, p: int) -> bool {
        &&& self.buf@[Self::pos_idx(p)] is Some
        &&& self.ops@[Self::pos_idx(p)].spec_state() == MemoryState::Written
        &&& self.ops@[Self::pos_idx(p)].spec_group().spec_group() == Self::pos_group(p)
    }

    /// A position in the free window: empty, already tagged for the lap
    /// that will next write it.
    closed spec fn free_slot_ok(self, p: int) -> bool {
        &&& self.buf@[Self::pos_idx(p)] is None
        &&& self.ops@[Self::pos_idx(p)].spec_state() == MemoryState::Uninitialized
        &&& self.ops@[Self::pos_idx(p)].spec_group().spec_group() == Self::pos_group(p)
    }

    /// The queue invariant.
    pub closed spec fn wf(&self) -> bool {
        let m = Self::spec_wrap_max();
        &&& 1 <= N
        &&& (N as int) * (GROUP_COUNT as int) <= usize::MAX as int
        &&& self.buf@.len() == N
        &&& self.ops@.len() == N
        &&& 0 <= self.gstart@
        &&& self.gstart@ <= self.gend@ <= self.gstart@ + (N as int)
        &&& self.start == self.gstart@ % m
        &&& self.end == self.gend@ % m
        &&& forall|p: int|
            self.gstart@ <= p < self.gend@ ==> #[trigger] self.occupied_slot_ok(p)
        &&& forall|p: int|
            self.gend@ <= p < self.gstart@ + (N as int) ==> #[trigger] self.free_slot_ok(p)
    }

    /// The wrap point is positive, a multiple of `N * GROUP_COUNT`, and at
    /// least one full cycle.
    proof fn lemma_wrap_max()
        requires
            1 <= N,
            (N as int) * (GROUP_COUNT as int) <= usize::MAX as int,
        ensures
            Self::spec_wrap_max() % (N as int) == 0,
            Self::spec_wrap_max() % ((N as int) * (GROUP_COUNT as int)) == 0,
            (N as int) * (GROUP_COUNT as int) <= Self::spec_wrap_max() <= usize::MAX as int,
            (N as int) < Self::spec_wrap_max(),
    {
        MemoryGroup::lemma_max_idx(N as int);
        assert((N as int) < (N as int) * (GROUP_COUNT as int)) by (nonlinear_arith)
            requires
                1 <= (N as int),
        ;
    }

    /// A well-formed queue never holds more than `N` values.
    pub proof fn lemma_len_bound(&self)
        requires
            self.wf(),
        ensures
            self@.len() <= N,
    {
    }

    /// Law: a successful `push` adds exactly one occurrence of the pushed
    /// value to the queued multiset and touches nothing else.  Together
    /// with [`Self::lemma_pop_removes_one`] and the contracts of `push`
    /// and `pop`, the multiset of values popped from a queue equals the
    /// multiset pushed into it: no value is delivered twice and none is
    /// lost.
    pub proof fn lemma_push_adds_one(s: Seq<T>, v: T)
        ensures
            s.push(v).to_multiset() == s.to_multiset().insert(v),
    {
        s.to_multiset_ensures();
    }

    /// Law: a successful `pop` removes exactly one occurrence of the
    /// returned value — which the queue did hold — from the queued
    /// multiset and touches nothing else.
    pub proof fn lemma_pop_removes_one(s: Seq<T>)
        requires
            s.len() > 0,
        ensures
            s.to_multiset().count(s.first()) >= 1,
            s.drop_first().to_multiset() == s.to_multiset().remove(s.first()),
    {
        s.to_multiset_ensures();
        assert(s.remove(0) =~= s.drop_first());
        assert(s.contains(s.first()));
    }

    /// Creates an empty queue, every slot tagged for generation zero.
    pub fn new() -> (r: Self)
        requires
            1 <= N,
            (N as int) * (GROUP_COUNT as int) <= usize::MAX as int,
        ensures
            r.wf(),
            r@ == Seq::<T>::empty(),
    {
        let mut buf: Vec<Option<T>> = Vec::new();
        let mut ops: Vec<MemoryOp> = Vec::new();
        let mut i: usize = 0;
        while i < N
            invariant
                i <= N,
                buf@.len() == i,
                ops@.len() == i,
                forall|k: int| 0 <= k < i ==> buf@[k] is None,
                forall|k: int|
                    0 <= k < i ==> (#[trigger] ops@[k]).spec_state() == MemoryState::Uninitialized
                        && ops@[k].spec_group().spec_group() == 0,
            decreases N - i,
        {
            buf.push(None);
            ops.push(MemoryOp::new(MemoryGroup::new(), MemoryState::Uninitialized));
            i = i + 1;
        }
        let r = AtomicRing {
            buf,
            ops,
            start: 0,
            end: 0,
            gstart: Ghost(0int),
            gend: Ghost(0int),
        };
        proof {
            Self::lemma_wrap_max();
            let m = Self::spec_wrap_max();
            lemma_mod_division_less_than_divisor(0int, m);
            lemma_fundamental_div_mod_converse_mod(0int, m, 0int, 0int);
            assert forall|p: int| 0 <= p < N as int implies #[trigger] r.free_slot_ok(p) by {
                lemma_fundamental_div_mod_converse(p, N as int, 0int, p);
                lemma_fundamental_div_mod_converse_mod(0int, GROUP_COUNT as int, 0int, 0int);
            }
            assert(r@ =~= Seq::<T>::empty());
        }
        r
    }

    /// The declared capacity `N`.
    pub fn capacity(&self) -> (r: usize)
        ensures
            r == N,
    {
        N
    }

    /// The cursor wrap point.
    fn wrap_max(&self) -> (r: usize)
        requires
            1 <= N,
        ensures
            r == Self::spec_wrap_max(),
    {
        MemoryGroup::max_idx(N)
    }

    /// The distance from `start` to `end` along the wrapped cursor cycle.
    fn wrap_len(&self, start: usize, end: usize) -> (r: usize)
        requires
            self.wf(),
            start == self.start,
            end == self.end,
        ensures
            r == self@.len(),
    {
        proof {
            Self::lemma_wrap_max();
            lemma_mod_shift(self.gstart@, self.gend@ - self.gstart@, Self::spec_wrap_max());
            lemma_mod_division_less_than_divisor(self.gstart@, Self::spec_wrap_max());
            lemma_mod_division_less_than_divisor(self.gend@, Self::spec_wrap_max());
        }
        if end >= start {
            end - start
        } else {
            self.wrap_max() - start + end
        }
    }

    /// The number of queued values.
    pub fn len(&self) -> (r: usize)
        requires
            self.wf(),
        ensures
            r == self@.len(),
    {
        let start = self.start;
        let end = self.end;
        self.wrap_len(start, end)
    }

    /// True when nothing is queued.
    pub fn is_empty(&self) -> (r: bool)
        requires
            self.wf(),
        ensures
            r == (self@.len() == 0),
    {
        self.len() == 0
    }

    /// True when all `N` slots are occupied.
    pub fn is_full(&self) -> (r: bool)
        requires
            self.wf(),
        ensures
            r == (self@.len() == N),
    {
        self.len() == self.capacity()
    }

    /// The slot index of a wrapped cursor value.
    fn index(&self, idx: usize) -> (r: usize)
        requires
            1 <= N,
        ensures
            r == idx as int % (N as int),
    {
        idx % N
    }

    /// The wrapped cursor value one position further.
    fn next_idx(&self, old_idx: usize) -> (r: usize)
        requires
            1 <= N,
            (N as int) * (GROUP_COUNT as int) <= usize::MAX as int,
            old_idx < Self::spec_wrap_max(),
        ensures
            r == (old_idx + 1) % Self::spec_wrap_max(),
    {
        proof {
            Self::lemma_wrap_max();
            let m = Self::spec_wrap_max();
            if old_idx + 1 < m {
                lemma_fundamental_div_mod_converse_mod(old_idx + 1, m, 0int, old_idx + 1);
            } else {
                lemma_fundamental_div_mod_converse_mod(old_idx + 1, m, 1int, 0int);
            }
        }
        if old_idx == self.wrap_max() - 1 {
            0
        } else {
            old_idx + 1
        }
    }

    /// Appends `value` at the `end` cursor; a full queue rejects it and
    /// hands it back unchanged.
    pub fn push(&mut self, value: T) -> (r: Result<(), T>)
        requires
            old(self).wf(),
        ensures
            final(self).wf(),
            old(self)@.len() < N ==> r == Ok::<(), T>(()) && final(self)@ == old(self)@.push(
                value,
            ),
            old(self)@.len() == N ==> r == Err::<(), T>(value) && final(self)@ == old(self)@,
    {
        let ghost old_self = *self;
        let start = self.start;
        let end = self.end;
        let len = self.wrap_len(start, end);
        if len == self.capacity() {
            return Err(value);
        }
        proof {
            Self::lemma_wrap_max();
            let m = Self::spec_wrap_max();
            let n = N as int;
            let g = GROUP_COUNT as int;
            lemma_mod_division_less_than_divisor(self.gend@, m);
            lemma_wrap_residue(self.gend@, n, m);
            lemma_wrap_group(self.gend@, n, g, m);
            // the slot at the end position is inside the free window
            assert(self.free_slot_ok(self.gend@));
            lemma_mod_division_less_than_divisor(self.gend@, n);
        }
        let group = MemoryGroup::from_idx(end, N);
        let index = self.index(end);
        proof {
            assert(index as int == Self::pos_idx(self.gend@));
            MemoryGroup::lemma_eq(group, self.ops@[index as int].spec_group());
        }
        let op = self.ops[index];
        // claim the slot: its control word must read free at this lap
        if !(op.group() == group && op.state() == MemoryState::Uninitialized) {
            // unreachable under exclusive access: the invariant pins the word
            return Err(value);
        }
        // Empty(g) -> Writing(g)
        self.ops[index] = op.next();
        // the storage write happens strictly between claim and commit
        self.buf[index] = Some(value);
        // Writing(g) -> Full(g): publish
        self.ops[index] = MemoryOp::new(group, MemoryState::Written);
        // advance the shared end cursor
        let new_end = self.next_idx(end);
        self.end = new_end;
        proof {
            let m = Self::spec_wrap_max();
            let n = N as int;
            let s = self.gstart@;
            let e = self.gend@;
            self.gend@ = e + 1;
            lemma_mod_shift(e, 1, m);
            lemma_mod_division_less_than_divisor(e, m);
            if e % m + 1 < m {
                lemma_fundamental_div_mod_converse_mod(e % m + 1, m, 0int, e % m + 1);
            } else {
                lemma_fundamental_div_mod_converse_mod(e % m + 1, m, 1int, 0int);
            }
            assert(self.end == (e + 1) % m);
            assert forall|p: int| s <= p < e implies Self::pos_idx(p) != Self::pos_idx(e) by {
                lemma_window_residues(p, e, n);
            }
            assert forall|p: int|
                e < p < s + n implies Self::pos_idx(p) != Self::pos_idx(e) by {
                lemma_window_residues(e, p, n);
            }
            assert forall|p: int| s <= p < e + 1 implies #[trigger] self.occupied_slot_ok(p) by {
                if p < e {
                    assert(old_self.occupied_slot_ok(p));
                }
            }
            assert forall|p: int| e + 1 <= p < s + n implies #[trigger] self.free_slot_ok(p) by {
                assert(old_self.free_slot_ok(p));
            }
            assert forall|j: int|
                0 <= j < e + 1 - s implies self@[j] == old_self@.push(value)[j] by {
                if j < e - s {
                    assert(old_self.occupied_slot_ok(s + j));
                }
            }
            assert(self@ =~= old_self@.push(value));
        }
        Ok(())
    }

    /// Removes and returns the value at the `start` cursor, or `None` when
    /// the queue is empty.
    pub fn pop(&mut self) -> (r: Option<T>)
        requires
            old(self).wf(),
        ensures
            final(self).wf(),
            old(self)@.len() == 0 ==> r is None && final(self)@ == old(self)@,
            old(self)@.len() > 0 ==> r == Some(old(self)@.first()) && final(self)@ == old(
                self,
            )@.drop_first(),
    {
        let ghost old_self = *self;
        let end = self.end;
        let start = self.start;
        let len = self.wrap_len(start, end);
        if len == 0 {
            return None;
        }
        proof {
            Self::lemma_wrap_max();
            let m = Self::spec_wrap_max();
            let n = N as int;
            let g = GROUP_COUNT as int;
            lemma_mod_division_less_than_divisor(self.gstart@, m);
            lemma_wrap_residue(self.gstart@, n, m);
            lemma_wrap_group(self.gstart@, n, g, m);
            // the slot at the start position is inside the occupied window
            assert(self.occupied_slot_ok(self.gstart@));
            lemma_mod_division_less_than_divisor(self.gstart@, n);
        }
        let group = MemoryGroup::from_idx(start, N);
        let index = self.index(start);
        proof {
            assert(index as int == Self::pos_idx(self.gstart@));
            MemoryGroup::lemma_eq(group, self.ops@[index as int].spec_group());
        }
        let op = self.ops[index];
        // claim the slot: its control word must read published at this lap
        if !(op.group() == group && op.state() == MemoryState::Written) {
            // unreachable under exclusive access: the invariant pins the word
            return None;
        }
        // Full(g) -> Reading(g)
        self.ops[index] = op.next();
        // advance the shared start cursor
        let new_start = self.next_idx(start);
        self.start = new_start;
        // read the value out, strictly between claim and release
        let ret = self.buf[index].take();
        // Reading(g) -> Empty(g + 1): the slot enters its next lap
        self.ops[index] = MemoryOp::new(group.next(), MemoryState::Uninitialized);
        proof {
            let m = Self::spec_wrap_max();
            let n = N as int;
            let g = GROUP_COUNT as int;
            let s = self.gstart@;
            let e = self.gend@;
            self.gstart@ = s + 1;
            lemma_mod_shift(s, 1, m);
            lemma_mod_division_less_than_divisor(s, m);
            if s % m + 1 < m {
                lemma_fundamental_div_mod_converse_mod(s % m + 1, m, 0int, s % m + 1);
            } else {
                lemma_fundamental_div_mod_converse_mod(s % m + 1, m, 1int, 0int);
            }
            assert(self.start == (s + 1) % m);
            assert forall|p: int| s < p < s + n implies Self::pos_idx(p) != Self::pos_idx(s) by {
                lemma_window_residues(s, p, n);
            }
            // the slot just released carries the same index as position s
            // but belongs to the next lap
            lemma_mod_multiples_vanish(1, s, n);
            assert(Self::pos_idx(s + n) == Self::pos_idx(s));
            lemma_hoist_over_denominator(s, 1, n as nat);
            assert((s + n) / n == s / n + 1);
            lemma_add_mod_noop(s / n, 1, g);
            lemma_mod_division_less_than_divisor(1, g);
            lemma_fundamental_div_mod_converse_mod(1, g, 0int, 1);
            assert(Self::pos_group(s + n) == (Self::pos_group(s) + 1) % g);
            assert forall|p: int| s + 1 <= p < e implies #[trigger] self.occupied_slot_ok(p) by {
                assert(old_self.occupied_slot_ok(p));
            }
            assert forall|p: int| e <= p < s + 1 + n implies #[trigger] self.free_slot_ok(p) by {
                if p < s + n {
                    assert(old_self.free_slot_ok(p));
                }
            }
            assert forall|j: int|
                0 <= j < e - s - 1 implies self@[j] == old_self@.drop_first()[j] by {
                assert(old_self.occupied_slot_ok(s + 1 + j));
            }
            assert(self@ =~= old_self@.drop_first());
        }
        ret
    }

    /// Drops every queued value and resets the cursors and all generation
    /// tags to their initial state.  Callers must hold exclusive access;
    /// this is not one of the queue's concurrent operations.
    pub fn clear(&mut self)
        requires
            old(self).wf(),
        ensures
            final(self).wf(),
            final(self)@ == Seq::<T>::empty(),
    {
        let mut i: usize = 0;
        while i < N
            invariant
                1 <= N,
                (N as int) * (GROUP_COUNT as int) <= usize::MAX as int,
                i <= N,
                self.buf@.len() == N,
                self.ops@.len() == N,
                forall|k: int| 0 <= k < i ==> self.buf@[k] is None,
                forall|k: int|
                    0 <= k < i ==> (#[trigger] self.ops@[k]).spec_state()
                        == MemoryState::Uninitialized && self.ops@[k].spec_group().spec_group()
                        == 0,
            decreases N - i,
        {
            self.buf[i] = None;
            self.ops[i] = MemoryOp::new(MemoryGroup::new(), MemoryState::Uninitialized);
            i = i + 1;
        }
        self.start = 0;
        self.end = 0;
        proof {
            self.gstart@ = 0;
            self.gend@ = 0;
            Self::lemma_wrap_max();
            let m = Self::spec_wrap_max();
            lemma_mod_division_less_than_divisor(0int, m);
            lemma_fundamental_div_mod_converse_mod(0int, m, 0int, 0int);
            assert forall|p: int| 0 <= p < N as int implies #[trigger] self.free_slot_ok(p) by {
                lemma_fundamental_div_mod_converse(p, N as int, 0int, p);
                lemma_fundamental_div_mod_converse_mod(0int, GROUP_COUNT as int, 0int, 0int);
            }
            assert(self@ =~= Seq::<T>::empty());
        }
    }
}

} // verus!
