//! A single-producer/single-consumer channel.
//!
//! The cheaper sibling of the generation-tagged ring: because at most one
//! [`Sender`] and one [`Receiver`] are ever outstanding, no per-slot
//! control word is needed — only one side ever moves each cursor.  All `N`
//! declared slots are usable; the cursors wrap at the largest multiple of
//! `N` that fits in `usize`, so the slot index stays exact across the wrap.

use crate::arith::{lemma_mod_shift, lemma_window_residues, lemma_wrap_residue};
use vstd::arithmetic::div_mod::{
    lemma_fundamental_div_mod, lemma_fundamental_div_mod_converse_mod,
    lemma_mod_division_less_than_divisor,
};
use vstd::prelude::*;

verus! {

/// The producer handle; at most one is outstanding per channel.  Only
/// [`Spsc::take_sender`] creates one.
pub struct Sender {
    _role: (),
}

/// The consumer handle; at most one is outstanding per channel.  Only
/// [`Spsc::take_recver`] creates one.
pub struct Receiver {
    _role: (),
}

/// A single-producer/single-consumer channel of capacity `N`.
pub struct Spsc<T, const N: usize> {
    buf: Vec<Option<T>>,
    /// Wrapped cursor of the first occupied position.
    start: usize,
    /// Wrapped cursor of the next free position.
    end: usize,
    /// Whether the producer handle is still available.
    has_sender: bool,
    /// Whether the consumer handle is still available.
    has_receiver: bool,
    /// The start cursor before wrapping, as an unbounded integer.
    gstart: Ghost<int>,
    /// The end cursor before wrapping, as an unbounded integer.
    gend: Ghost<int>,
}

impl<T, const N: usize> View for Spsc<T, N> {
    type V = Seq<T>;

    /// The queued values, front first.
    closed spec fn view(&self) -> Seq<T> {
        Seq::new(
            (self.gend@ - self.gstart@) as nat,
                |j: int| self.buf@[Self::pos_idx(self.gstart@ + j)]->0,
        )
    }
}

impl<T, const N: usize> Spsc<T, N> {
    /// The cursor wrap point: the largest multiple of `N` in `usize`.
    pub open spec fn spec_wrap_max() -> int {
        usize::MAX as int / (N as int) * (N as int)
    }

    /// The slot a cursor position maps to.
    closed spec fn pos_idx(p: int) -> int {
        p % (N as int)
    }

    /// Whether the producer handle is available.
    pub closed spec fn sender_free(&self) -> bool {
        self.has_sender
    }

    /// Whether the consumer handle is available.
    pub closed spec fn recver_free(&self) -> bool {
        self.has_receiver
    }

    /// The channel invariant: the buffer cells between the cursors hold the
    /// queued values, all others are empty.
    pub closed spec fn wf(&self) -> bool {
        let m = Self::spec_wrap_max();
        &&& 1 <= N
        &&& (N as int) <= usize::MAX as int / 2
        &&& self.buf@.len() == N
        &&& 0 <= self.gstart@
        &&& self.gstart@ <= self.gend@ <= self.gstart@ + (N as int)
        &&& self.start == self.gstart@ % m
        &&& self.end == self.gend@ % m
        &&& forall|p: int|
            self.gstart@ <= p < self.gend@ ==> self.buf@[#[trigger] Self::pos_idx(p)] is Some
        &&& forall|p: int|
            self.gend@ <= p < self.gstart@ + (N as int) ==> self.buf@[#[trigger] Self::pos_idx(
                p,
            )] is None
    }

    /// A well-formed channel never holds more than `N` values.
    pub proof fn lemma_len_bound(&self)
        requires
            self.wf(),
        ensures
            self@.len() <= N,
    {
    }

    /// The wrap point is a positive multiple of `N`, above `N`, within
    /// `usize`.
    proof fn lemma_wrap_max()
        requires
            1 <= N,
            (N as int) <= usize::MAX as int / 2,
        ensures
            Self::spec_wrap_max() % (N as int) == 0,
            2 * (N as int) <= Self::spec_wrap_max() <= usize::MAX as int,
    {
        let m = usize::MAX as int;
        let n = N as int;
        let q = m / n;
        lemma_fundamental_div_mod(m, n);
        lemma_mod_division_less_than_divisor(m, n);
        if q < 2 {
            assert(m < 2 * n) by (nonlinear_arith)
                requires
                    m == n * q + m % n,
                    m % n < n,
                    q <= 1,
                    0 < n,
            ;
            lemma_fundamental_div_mod(m, 2);
            lemma_mod_division_less_than_divisor(m, 2);
            assert(false);
        }
        assert(q * n == n * q) by (nonlinear_arith);
        lemma_fundamental_div_mod_converse_mod(q * n, n, q, 0);
        assert(2 * n <= n * q) by (nonlinear_arith)
            requires
                2 <= q,
                1 <= n,
        ;
    }

    /// Creates an empty channel with both handles available.
    pub fn new() -> (r: Self)
        requires
            1 <= N,
            (N as int) <= usize::MAX as int / 2,
        ensures
            r.wf(),
            r@ == Seq::<T>::empty(),
            r.sender_free(),
            r.recver_free(),
    {
        let mut buf: Vec<Option<T>> = Vec::new();
        let mut i: usize = 0;
        while i < N
            invariant
                i <= N,
                buf@.len() == i,
                forall|k: int| 0 <= k < i ==> buf@[k] is None,
            decreases N - i,
        {
            buf.push(None);
            i = i + 1;
        }
        let r = Spsc {
            buf,
            start: 0,
            end: 0,
            has_sender: true,
            has_receiver: true,
            gstart: Ghost(0int),
            gend: Ghost(0int),
        };
        proof {
            Self::lemma_wrap_max();
            let m = Self::spec_wrap_max();
            lemma_mod_division_less_than_divisor(0int, m);
            lemma_fundamental_div_mod_converse_mod(0int, m, 0int, 0int);
            assert forall|p: int| 0 <= p < N as int implies r.buf@[#[trigger] Self::pos_idx(
                p,
            )] is None by {
                lemma_fundamental_div_mod_converse_mod(p, N as int, 0int, p);
            }
            assert(r@ =~= Seq::<T>::empty());
        }
        r
    }

    /// Claims the producer handle; `None` when it is already outstanding.
    pub fn take_sender(&mut self) -> (r: Option<Sender>)
        requires
            old(self).wf(),
        ensures
            final(self).wf(),
            final(self)@ == old(self)@,
            final(self).recver_free() == old(self).recver_free(),
            old(self).sender_free() ==> r is Some && !final(self).sender_free(),
            !old(self).sender_free() ==> r is None && !final(self).sender_free(),
    {
        if self.has_sender {
            self.has_sender = false;
            Some(Sender { _role: () })
        } else {
            None
        }
    }

    /// Gives the producer handle back, making the role available again.
    pub fn free_sender(&mut self, sender: Sender)
        requires
            old(self).wf(),
        ensures
            final(self).wf(),
            final(self)@ == old(self)@,
            final(self).sender_free(),
            final(self).recver_free() == old(self).recver_free(),
    {
        let _ = sender;
        self.has_sender = true;
    }

    /// Claims the consumer handle; `None` when it is already outstanding.
    pub fn take_recver(&mut self) -> (r: Option<Receiver>)
        requires
            old(self).wf(),
        ensures
            final(self).wf(),
            final(self)@ == old(self)@,
            final(self).sender_free() == old(self).sender_free(),
            old(self).recver_free() ==> r is Some && !final(self).recver_free(),
            !old(self).recver_free() ==> r is None && !final(self).recver_free(),
    {
        if self.has_receiver {
            self.has_receiver = false;
            Some(Receiver { _role: () })
        } else {
            None
        }
    }

    /// Gives the consumer handle back, making the role available again.
    pub fn free_recver(&mut self, receiver: Receiver)
        requires
            old(self).wf(),
        ensures
            final(self).wf(),
            final(self)@ == old(self)@,
            final(self).recver_free(),
            final(self).sender_free() == old(self).sender_free(),
    {
        let _ = receiver;
        self.has_receiver = true;
    }

    /// The declared capacity `N`; all `N` slots are usable.
    pub fn capacity(&self) -> (r: usize)
        ensures
            r == N,
    {
        N
    }

    /// The cursor wrap point.
    fn wrap_max(&self) -> (r: usize)
        requires
            1 <= N,
        ensures
            r == Self::spec_wrap_max(),
    {
        proof {
            lemma_fundamental_div_mod(usize::MAX as int, N as int);
            lemma_mod_division_less_than_divisor(usize::MAX as int, N as int);
            assert((usize::MAX as int / (N as int)) * (N as int) <= usize::MAX as int)
                by (nonlinear_arith)
                requires
                    usize::MAX as int == (N as int) * (usize::MAX as int / (N as int)) + (
                    usize::MAX as int) % (N as int),
                    0 <= (usize::MAX as int) % (N as int),
            ;
        }
        usize::MAX / N * N
    }

    /// The distance from `start` to `end` along the wrapped cursor cycle.
    fn wrap_len(&self, start: usize, end: usize) -> (r: usize)
        requires
            self.wf(),
            start == self.start,
            end == self.end,
        ensures
            r == self@.len(),
    {
        proof {
            Self::lemma_wrap_max();
            lemma_mod_shift(self.gstart@, self.gend@ - self.gstart@, Self::spec_wrap_max());
            lemma_mod_division_less_than_divisor(self.gstart@, Self::spec_wrap_max());
            lemma_mod_division_less_than_divisor(self.gend@, Self::spec_wrap_max());
        }
        if end >= start {
            end - start
        } else {
            self.wrap_max() - start + end
        }
    }

    /// The number of queued values.
    pub fn len(&self) -> (r: usize)
        requires
            self.wf(),
        ensures
            r == self@.len(),
    {
        let start = self.start;
        let end = self.end;
        self.wrap_len(start, end)
    }

    /// True when nothing is queued.
    pub fn is_empty(&self) -> (r: bool)
        requires
            self.wf(),
        ensures
            r == (self@.len() == 0),
    {
        self.len() == 0
    }

    /// True when all `N` slots are occupied.
    pub fn is_full(&self) -> (r: bool)
        requires
            self.wf(),
        ensures
            r == (self@.len() == N),
    {
        self.len() == self.capacity()
    }

    /// The slot index of a wrapped cursor value.
    fn index(&self, idx: usize) -> (r: usize)
        requires
            1 <= N,
        ensures
            r == idx as int % (N as int),
    {
        idx % N
    }

    /// The wrapped cursor value one position further.
    fn next_idx(&self, old_idx: usize) -> (r: usize)
        requires
            1 <= N,
            (N as int) <= usize::MAX as int / 2,
            old_idx < Self::spec_wrap_max(),
        ensures
            r == (old_idx + 1) % Self::spec_wrap_max(),
    {
        proof {
            Self::lemma_wrap_max();
            let m = Self::spec_wrap_max();
            if old_idx + 1 < m {
                lemma_fundamental_div_mod_converse_mod(old_idx + 1, m, 0int, old_idx + 1);
            } else {
                lemma_fundamental_div_mod_converse_mod(old_idx + 1, m, 1int, 0int);
            }
        }
        if old_idx == self.wrap_max() - 1 {
            0
        } else {
            old_idx + 1
        }
    }

    /// Appends `value` at the `end` cursor; a full channel rejects it and
    /// hands it back unchanged.  Only the producer side calls this.
    fn push(&mut self, value: T) -> (r: Result<(), T>)
        requires
            old(self).wf(),
        ensures
            final(self).wf(),
            final(self).sender_free() == old(self).sender_free(),
            final(self).recver_free() == old(self).recver_free(),
            old(self)@.len() < N ==> r == Ok::<(), T>(()) && final(self)@ == old(self)@.push(
                value,
            ),
            old(self)@.len() == N ==> r == Err::<(), T>(value) && final(self)@ == old(self)@,
    {
        let ghost old_self = *self;
        let start = self.start;
        let end = self.end;
        let len = self.wrap_len(start, end);
        if len == self.capacity() {
            return Err(value);
        }
        proof {
            Self::lemma_wrap_max();
            let m = Self::spec_wrap_max();
            let n = N as int;
            lemma_mod_division_less_than_divisor(self.gend@, m);
            lemma_wrap_residue(self.gend@, n, m);
            lemma_mod_division_less_than_divisor(self.gend@, n);
        }
        let index = self.index(end);
        self.buf[index] = Some(value);
        let new_end = self.next_idx(end);
        self.end = new_end;
        proof {
            let m = Self::spec_wrap_max();
            let n = N as int;
            let s = self.gstart@;
            let e = self.gend@;
            self.gend@ = e + 1;
            lemma_mod_shift(e, 1, m);
            lemma_mod_division_less_than_divisor(e, m);
            if e % m + 1 < m {
                lemma_fundamental_div_mod_converse_mod(e % m + 1, m, 0int, e % m + 1);
            } else {
                lemma_fundamental_div_mod_converse_mod(e % m + 1, m, 1int, 0int);
            }
            assert(self.end == (e + 1) % m);
            assert forall|p: int|
                s <= p < e implies #[trigger] Self::pos_idx(p) != Self::pos_idx(e) by {
                lemma_window_residues(p, e, n);
            }
            assert forall|p: int|
                e < p < s + n implies #[trigger] Self::pos_idx(p) != Self::pos_idx(e) by {
                lemma_window_residues(e, p, n);
            }
            assert(self@ =~= old_self@.push(value));
        }
        Ok(())
    }

    /// Removes and returns the value at the `start` cursor, or `None` when
    /// the channel is empty.  Only the consumer side calls this.
    fn pop(&mut self) -> (r: Option<T>)
        requires
            old(self).wf(),
        ensures
            final(self).wf(),
            final(self).sender_free() == old(self).sender_free(),
            final(self).recver_free() == old(self).recver_free(),
            old(self)@.len() == 0 ==> r is None && final(self)@ == old(self)@,
            old(self)@.len() > 0 ==> r == Some(old(self)@.first()) && final(self)@ == old(
                self,
            )@.drop_first(),
    {
        let ghost old_self = *self;
        let end = self.end;
        let start = self.start;
        let len = self.wrap_len(start, end);
        if len == 0 {
            return None;
        }
        proof {
            Self::lemma_wrap_max();
            let m = Self::spec_wrap_max();
            let n = N as int;
            lemma_mod_division_less_than_divisor(self.gstart@, m);
            lemma_wrap_residue(self.gstart@, n, m);
            lemma_mod_division_less_than_divisor(self.gstart@, n);
        }
        let index = self.index(start);
        let new_start = self.next_idx(start);
        self.start = new_start;
        let ret = self.buf[index].take();
        proof {
            let m = Self::spec_wrap_max();
            let n = N as int;
            let s = self.gstart@;
            let e = self.gend@;
            self.gstart@ = s + 1;
            lemma_mod_shift(s, 1, m);
            lemma_mod_division_less_than_divisor(s, m);
            if s % m + 1 < m {
                lemma_fundamental_div_mod_converse_mod(s % m + 1, m, 0int, s % m + 1);
            } else {
                lemma_fundamental_div_mod_converse_mod(s % m + 1, m, 1int, 0int);
            }
            assert(self.start == (s + 1) % m);
            assert forall|p: int|
                s < p < s + n implies #[trigger] Self::pos_idx(p) != Self::pos_idx(s) by {
                lemma_window_residues(s, p, n);
            }
            lemma_mod_multiples_vanish_one(s, n);
            assert(Self::pos_idx(s + n) == Self::pos_idx(s));
            assert(self@ =~= old_self@.drop_first());
        }
        ret
    }

    /// Drops every queued value and resets both cursors.  Callers must
    /// hold exclusive access; this is not a concurrent operation.
    pub fn clear(&mut self)
        requires
            old(self).wf(),
        ensures
            final(self).wf(),
            final(self)@ == Seq::<T>::empty(),
            final(self).sender_free() == old(self).sender_free(),
            final(self).recver_free() == old(self).recver_free(),
    {
        let mut i: usize = 0;
        while i < N
            invariant
                i <= N,
                self.buf@.len() == N,
                forall|k: int| 0 <= k < i ==> self.buf@[k] is None,
                self.has_sender == old(self).has_sender,
                self.has_receiver == old(self).has_receiver,
                1 <= N,
                (N as int) <= usize::MAX as int / 2,
            decreases N - i,
        {
            self.buf[i] = None;
            i = i + 1;
        }
        self.start = 0;
        self.end = 0;
        proof {
            self.gstart@ = 0;
            self.gend@ = 0;
            Self::lemma_wrap_max();
            let m = Self::spec_wrap_max();
            lemma_mod_division_less_than_divisor(0int, m);
            lemma_fundamental_div_mod_converse_mod(0int, m, 0int, 0int);
            assert forall|p: int| 0 <= p < N as int implies self.buf@[#[trigger] Self::pos_idx(
                p,
            )] is None by {
                lemma_fundamental_div_mod_converse_mod(p, N as int, 0int, p);
            }
            assert(self@ =~= Seq::<T>::empty());
        }
    }
}

/// What the one receiver obtains by draining a channel whose queued
/// values are `s`: each `try_recv` returns the current front value and
/// leaves the rest, so the drain yields the fronts in order.
pub open spec fn drained<T>(s: Seq<T>) -> Seq<T>
    decreases s.len(),
{
    if s.len() == 0 {
        Seq::empty()
    } else {
        Seq::empty().push(s.first()) + drained(s.drop_first())
    }
}

/// Law: draining a channel returns exactly the queued sequence, in order,
/// with no duplication and no loss.  Since `send` appends to the view and
/// `try_recv` takes the front (their contracts), a sequence of values sent
/// by the one sender is received by the one receiver in the same order.
pub proof fn lemma_fifo<T>(s: Seq<T>)
    ensures
        drained(s) == s,
    decreases s.len(),
{
    if s.len() == 0 {
        assert(drained(s) =~= s);
    } else {
        lemma_fifo(s.drop_first());
        assert(drained(s) =~= s);
    }
}

/// `(s + n) % n == s % n` for one full lap.
proof fn lemma_mod_multiples_vanish_one(s: int, n: int)
    requires
        0 < n,
        0 <= s,
    ensures
        (s + n) % n == s % n,
{
    vstd::arithmetic::div_mod::lemma_mod_multiples_vanish(1, s, n);
}

impl Sender {
    /// Sends `value`; a full channel rejects it and hands it back.
    pub fn send<T, const N: usize>(&self, spsc: &mut Spsc<T, N>, value: T) -> (r: Result<(), T>)
        requires
            old(spsc).wf(),
        ensures
            final(spsc).wf(),
            final(spsc).sender_free() == old(spsc).sender_free(),
            final(spsc).recver_free() == old(spsc).recver_free(),
            old(spsc)@.len() < N ==> r == Ok::<(), T>(()) && final(spsc)@ == old(spsc)@.push(
                value,
            ),
            old(spsc)@.len() == N ==> r == Err::<(), T>(value) && final(spsc)@ == old(spsc)@,
    {
        spsc.push(value)
    }
}

impl Receiver {
    /// Receives the oldest queued value, or `None` when the channel is
    /// empty.
    pub fn try_recv<T, const N: usize>(&self, spsc: &mut Spsc<T, N>) -> (r: Option<T>)
        requires
            old(spsc).wf(),
        ensures
            final(spsc).wf(),
            final(spsc).sender_free() == old(spsc).sender_free(),
            final(spsc).recver_free() == old(spsc).recver_free(),
            old(spsc)@.len() == 0 ==> r is None && final(spsc)@ == old(spsc)@,
            old(spsc)@.len() > 0 ==> r == Some(old(spsc)@.first()) && final(spsc)@ == old(
                spsc,
            )@.drop_first(),
    {
        spsc.pop()
    }
}

} // verus!
