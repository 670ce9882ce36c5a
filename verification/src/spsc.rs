//! A single-producer/single-consumer channel that keeps one slot back.
//!
//! This variant stores its cursors as plain slot indices in `[0, N)` and
//! distinguishes empty from full by reserving one physical slot: of the `N`
//! declared slots, `N - 1` are usable.  Handle issuance works as in
//! [`crate::sync::Spsc`]: at most one [`Sender`] and one [`Receiver`] are
//! outstanding at a time.

use crate::arith::{lemma_mod_shift, lemma_window_residues};
use vstd::arithmetic::div_mod::{
    lemma_fundamental_div_mod_converse_mod, lemma_mod_division_less_than_divisor,
    lemma_mod_multiples_vanish,
};
use vstd::prelude::*;

verus! {

/// The producer handle; at most one is outstanding per channel.  Only
/// [`Spsc::take_sender`] creates one.
pub struct Sender {
    _role: (),
}

/// The consumer handle; at most one is outstanding per channel.  Only
/// [`Spsc::take_recver`] creates one.
pub struct Receiver {
    _role: (),
}

/// A single-producer/single-consumer channel with `N - 1` usable slots.
pub struct Spsc<T, const N: usize> {
    buf: Vec<Option<T>>,
    /// Slot index one past the most recently sent value.
    head: usize,
    /// Slot index of the next value to receive.
    tail: usize,
    /// Whether the producer handle is still available.
    has_sender: bool,
    /// Whether the consumer handle is still available.
    has_receiver: bool,
    /// The head cursor before wrapping, as an unbounded integer.
    ghead: Ghost<int>,
    /// The tail cursor before wrapping, as an unbounded integer.
    gtail: Ghost<int>,
}

impl<T, const N: usize> View for Spsc<T, N> {
    type V = Seq<T>;

    /// The queued values, front first.
    closed spec fn view(&self) -> Seq<T> {
        Seq::new(
            (self.ghead@ - self.gtail@) as nat,
            |j: int| self.buf@[Self::pos_idx(self.gtail@ + j)]->0,
        )
    }
}

impl<T, const N: usize> Spsc<T, N> {
    /// The slot a cursor position maps to.
    closed spec fn pos_idx(p: int) -> int {
        p % (N as int)
    }

    /// Whether the producer handle is available.
    pub closed spec fn sender_free(&self) -> bool {
        self.has_sender
    }

    /// Whether the consumer handle is available.
    pub closed spec fn recver_free(&self) -> bool {
        self.has_receiver
    }

    /// The channel invariant: at most `N - 1` values are queued, the cells
    /// between the cursors hold them, all others are empty.
    pub closed spec fn wf(&self) -> bool {
        &&& 1 <= N
        &&& (N as int) <= usize::MAX as int / 2
        &&& self.buf@.len() == N
        &&& 0 <= self.gtail@
        &&& self.gtail@ <= self.ghead@ <= self.gtail@ + (N as int) - 1
        &&& self.tail == self.gtail@ % (N as int)
        &&& self.head == self.ghead@ % (N as int)
        &&& forall|p: int|
            self.gtail@ <= p < self.ghead@ ==> self.buf@[#[trigger] Self::pos_idx(p)] is Some
        &&& forall|p: int|
            self.ghead@ <= p < self.gtail@ + (N as int) ==> self.buf@[#[trigger] Self::pos_idx(
                p,
            )] is None
    }

    /// A well-formed channel never holds more than `N - 1` values.
    pub proof fn lemma_len_bound(&self)
        requires
            self.wf(),
        ensures
            self@.len() <= (N as int) - 1,
    {
    }

    /// Creates an empty channel with both handles available.
    pub fn new() -> (r: Self)
        requires
            1 <= N,
            (N as int) <= usize::MAX as int / 2,
        ensures
            r.wf(),
            r@ == Seq::<T>::empty(),
            r.sender_free(),
            r.recver_free(),
    {
        let mut buf: Vec<Option<T>> = Vec::new();
        let mut i: usize = 0;
        while i < N
            invariant
                i <= N,
                buf@.len() == i,
                forall|k: int| 0 <= k < i ==> buf@[k] is None,
            decreases N - i,
        {
            buf.push(None);
            i = i + 1;
        }
        let r = Spsc {
            buf,
            head: 0,
            tail: 0,
            has_sender: true,
            has_receiver: true,
            ghead: Ghost(0int),
            gtail: Ghost(0int),
        };
        proof {
            lemma_mod_division_less_than_divisor(0int, N as int);
            lemma_fundamental_div_mod_converse_mod(0int, N as int, 0int, 0int);
            assert forall|p: int| 0 <= p < N as int implies r.buf@[#[trigger] Self::pos_idx(
                p,
            )] is None by {
                lemma_fundamental_div_mod_converse_mod(p, N as int, 0int, p);
            }
            assert(r@ =~= Seq::<T>::empty());
        }
        r
    }

    /// Claims the producer handle; `None` when it is already outstanding.
    pub fn take_sender(&mut self) -> (r: Option<Sender>)
        requires
            old(self).wf(),
        ensures
            final(self).wf(),
            final(self)@ == old(self)@,
            final(self).recver_free() == old(self).recver_free(),
            old(self).sender_free() ==> r is Some && !final(self).sender_free(),
            !old(self).sender_free() ==> r is None && !final(self).sender_free(),
    {
        if self.has_sender {
            self.has_sender = false;
            Some(Sender { _role: () })
        } else {
            None
        }
    }

    /// Gives the producer handle back, making the role available again.
    pub fn free_sender(&mut self, sender: Sender)
        requires
            old(self).wf(),
        ensures
            final(self).wf(),
            final(self)@ == old(self)@,
            final(self).sender_free(),
            final(self).recver_free() == old(self).recver_free(),
    {
        let _ = sender;
        self.has_sender = true;
    }

    /// Claims the consumer handle; `None` when it is already outstanding.
    pub fn take_recver(&mut self) -> (r: Option<Receiver>)
        requires
            old(self).wf(),
        ensures
            final(self).wf(),
            final(self)@ == old(self)@,
            final(self).sender_free() == old(self).sender_free(),
            old(self).recver_free() ==> r is Some && !final(self).recver_free(),
            !old(self).recver_free() ==> r is None && !final(self).recver_free(),
    {
        if self.has_receiver {
            self.has_receiver = false;
            Some(Receiver { _role: () })
        } else {
            None
        }
    }

    /// Gives the consumer handle back, making the role available again.
    pub fn free_recver(&mut self, receiver: Receiver)
        requires
            old(self).wf(),
        ensures
            final(self).wf(),
            final(self)@ == old(self)@,
            final(self).recver_free(),
            final(self).sender_free() == old(self).sender_free(),
    {
        let _ = receiver;
        self.has_receiver = true;
    }

    /// The number of physical slots.
    fn cap(&self) -> (r: usize)
        ensures
            r == N,
    {
        N
    }

    /// The usable capacity: one slot is kept back to tell empty from full.
    pub fn capacity(&self) -> (r: usize)
        requires
            1 <= N,
        ensures
            r == (N as int) - 1,
    {
        self.cap() - 1
    }

    /// The number of queued values.
    fn len(&self) -> (r: usize)
        requires
            self.wf(),
        ensures
            r == self@.len(),
    {
        let tail = self.tail;
        let head = self.head;
        proof {
            lemma_mod_shift(self.gtail@, self.ghead@ - self.gtail@, N as int);
            lemma_mod_division_less_than_divisor(self.gtail@, N as int);
            lemma_mod_division_less_than_divisor(self.ghead@, N as int);
        }
        if head >= tail {
            head - tail
        } else {
            self.cap() - tail + head
        }
    }

    /// True when nothing is queued.
    fn is_empty(&self) -> (r: bool)
        requires
            self.wf(),
        ensures
            r == (self@.len() == 0),
    {
        self.len() == 0
    }

    /// True when all usable slots are occupied.
    fn is_full(&self) -> (r: bool)
        requires
            self.wf(),
        ensures
            r == (self@.len() == (N as int) - 1),
    {
        self.cap() - self.len() == 1
    }

    /// The slot index `addend` positions past `idx`.
    fn wrap_add(&self, idx: usize, addend: usize) -> (r: usize)
        requires
            1 <= N,
            (N as int) <= usize::MAX as int / 2,
            idx < N,
            addend < N,
        ensures
            r == (idx + addend) % (N as int),
    {
        proof {
            if idx + addend < N {
                lemma_fundamental_div_mod_converse_mod(idx + addend, N as int, 0int, idx + addend);
            } else {
                lemma_fundamental_div_mod_converse_mod(
                    idx + addend,
                    N as int,
                    1int,
                    idx + addend - (N as int),
                );
            }
        }
        let index = idx + addend;
        if index >= self.cap() {
            index - self.cap()
        } else {
            index
        }
    }

    /// Appends `value` at the `head` cursor; a full channel rejects it and
    /// hands it back unchanged.  Only the producer side calls this.
    fn push(&mut self, value: T) -> (r: Result<(), T>)
        requires
            old(self).wf(),
        ensures
            final(self).wf(),
            final(self).sender_free() == old(self).sender_free(),
            final(self).recver_free() == old(self).recver_free(),
            old(self)@.len() < (N as int) - 1 ==> r == Ok::<(), T>(()) && final(self)@ == old(
                self,
            )@.push(value),
            old(self)@.len() == (N as int) - 1 ==> r == Err::<(), T>(value) && final(self)@ == old(
                self,
            )@,
    {
        let ghost old_self = *self;
        if self.is_full() {
            return Err(value);
        }
        proof {
            lemma_mod_division_less_than_divisor(self.ghead@, N as int);
        }
        let head = self.head;
        let new_head = self.wrap_add(head, 1);
        self.head = new_head;
        self.buf[head] = Some(value);
        proof {
            let n = N as int;
            let t = self.gtail@;
            let h = self.ghead@;
            self.ghead@ = h + 1;
            lemma_mod_shift(h, 1, n);
            lemma_mod_division_less_than_divisor(h, n);
            if h % n + 1 < n {
                lemma_fundamental_div_mod_converse_mod(h % n + 1, n, 0int, h % n + 1);
            } else {
                lemma_fundamental_div_mod_converse_mod(h % n + 1, n, 1int, 0int);
            }
            assert(self.head == (h + 1) % n);
            assert forall|p: int|
                t <= p < h implies #[trigger] Self::pos_idx(p) != Self::pos_idx(h) by {
                lemma_window_residues(p, h, n);
            }
            assert forall|p: int|
                h < p < t + n implies #[trigger] Self::pos_idx(p) != Self::pos_idx(h) by {
                lemma_window_residues(h, p, n);
            }
            assert(self@ =~= old_self@.push(value));
        }
        Ok(())
    }

    /// Removes and returns the value at the `tail` cursor, or `None` when
    /// the channel is empty.  Only the consumer side calls this.
    fn pop(&mut self) -> (r: Option<T>)
        requires
            old(self).wf(),
        ensures
            final(self).wf(),
            final(self).sender_free() == old(self).sender_free(),
            final(self).recver_free() == old(self).recver_free(),
            old(self)@.len() == 0 ==> r is None && final(self)@ == old(self)@,
            old(self)@.len() > 0 ==> r == Some(old(self)@.first()) && final(self)@ == old(
                self,
            )@.drop_first(),
    {
        let ghost old_self = *self;
        if self.is_empty() {
            return None;
        }
        proof {
            lemma_mod_division_less_than_divisor(self.gtail@, N as int);
        }
        let tail = self.tail;
        let new_tail = self.wrap_add(tail, 1);
        self.tail = new_tail;
        let ret = self.buf[tail].take();
        proof {
            let n = N as int;
            let t = self.gtail@;
            self.gtail@ = t + 1;
            lemma_mod_shift(t, 1, n);
            lemma_mod_division_less_than_divisor(t, n);
            if t % n + 1 < n {
                lemma_fundamental_div_mod_converse_mod(t % n + 1, n, 0int, t % n + 1);
            } else {
                lemma_fundamental_div_mod_converse_mod(t % n + 1, n, 1int, 0int);
            }
            assert(self.tail == (t + 1) % n);
            assert forall|p: int|
                t < p < t + n implies #[trigger] Self::pos_idx(p) != Self::pos_idx(t) by {
                lemma_window_residues(t, p, n);
            }
            lemma_mod_multiples_vanish(1, t, n);
            assert(Self::pos_idx(t + n) == Self::pos_idx(t));
            assert(self@ =~= old_self@.drop_first());
        }
        ret
    }
}

impl Sender {
    /// Sends `value`; a full channel rejects it and hands it back.
    pub fn send<T, const N: usize>(&self, spsc: &mut Spsc<T, N>, value: T) -> (r: Result<(), T>)
        requires
            old(spsc).wf(),
        ensures
            final(spsc).wf(),
            final(spsc).sender_free() == old(spsc).sender_free(),
            final(spsc).recver_free() == old(spsc).recver_free(),
            old(spsc)@.len() < (N as int) - 1 ==> r == Ok::<(), T>(()) && final(spsc)@ == old(
                spsc,
            )@.push(value),
            old(spsc)@.len() == (N as int) - 1 ==> r == Err::<(), T>(value) && final(spsc)@ == old(
                spsc,
            )@,
    {
        spsc.push(value)
    }
}

impl Receiver {
    /// Receives the oldest queued value; an empty channel reports failure.
    pub fn try_recv<T, const N: usize>(&self, spsc: &mut Spsc<T, N>) -> (r: Result<T, ()>)
        requires
            old(spsc).wf(),
        ensures
            final(spsc).wf(),
            final(spsc).sender_free() == old(spsc).sender_free(),
            final(spsc).recver_free() == old(spsc).recver_free(),
            old(spsc)@.len() == 0 ==> r == Err::<T, ()>(()) && final(spsc)@ == old(spsc)@,
            old(spsc)@.len() > 0 ==> r == Ok::<T, ()>(old(spsc)@.first()) && final(spsc)@ == old(
                spsc,
            )@.drop_first(),
    {
        match spsc.pop() {
            Some(t) => Ok(t),
            None => Err(()),
        }
    }
}

} // verus!
