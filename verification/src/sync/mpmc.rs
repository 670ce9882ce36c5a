//! A multi-producer/multi-consumer channel over the generation-tagged ring.
//!
//! Any number of [`Sender`] and [`Receiver`] role markers may be issued;
//! they carry no state of their own and simply name the side a caller acts
//! on.

use crate::sync::common::GROUP_COUNT;
use crate::sync::ring::AtomicRing;
use vstd::prelude::*;

verus! {

/// Marks a caller as a producer of one channel.
pub struct Sender;

/// Marks a caller as a consumer of one channel.
pub struct Receiver;

/// A channel of capacity `N`.
pub struct Mpmc<T, const N: usize> {
    ring: AtomicRing<T, N>,
}

impl<T, const N: usize> View for Mpmc<T, N> {
    type V = Seq<T>;

    /// The queued values, front first.
    closed spec fn view(&self) -> Seq<T> {
        self.ring@
    }
}

impl<T, const N: usize> Mpmc<T, N> {
    /// The underlying ring is well formed.
    pub closed spec fn wf(&self) -> bool {
        self.ring.wf()
    }

    /// Creates an empty channel.
    pub fn new() -> (r: Self)
        requires
            1 <= N,
            (N as int) * (GROUP_COUNT as int) <= usize::MAX as int,
        ensures
            r.wf(),
            r@ == Seq::<T>::empty(),
    {
        Mpmc { ring: AtomicRing::new() }
    }

    /// Issues a producer marker.  Any number may be outstanding.
    pub fn sender(&self) -> Sender {
        Sender
    }

    /// Issues a consumer marker.  Any number may be outstanding.
    pub fn recver(&self) -> Receiver {
        Receiver
    }

    /// The declared capacity `N`.
    pub fn capacity(&self) -> (r: usize)
        ensures
            r == N,
    {
        self.ring.capacity()
    }

    /// The number of queued values.
    pub fn len(&self) -> (r: usize)
        requires
            self.wf(),
        ensures
            r == self@.len(),
    {
        self.ring.len()
    }

    /// True when nothing is queued.
    pub fn is_empty(&self) -> (r: bool)
        requires
            self.wf(),
        ensures
            r == (self@.len() == 0),
    {
        self.ring.is_empty()
    }

    /// True when all `N` slots are occupied.
    pub fn is_full(&self) -> (r: bool)
        requires
            self.wf(),
        ensures
            r == (self@.len() == N),
    {
        self.ring.is_full()
    }

    /// Appends `value`; a full channel rejects it and hands it back
    /// unchanged.
    pub fn push(&mut self, value: T) -> (r: Result<(), T>)
        requires
            old(self).wf(),
        ensures
            final(self).wf(),
            old(self)@.len() < N ==> r == Ok::<(), T>(()) && final(self)@ == old(self)@.push(
                value,
            ),
            old(self)@.len() == N ==> r == Err::<(), T>(value) && final(self)@ == old(self)@,
    {
        self.ring.push(value)
    }

    /// Drops every queued value and resets the channel.  Callers must
    /// hold exclusive access.
    pub fn clear(&mut self)
        requires
            old(self).wf(),
        ensures
            final(self).wf(),
            final(self)@ == Seq::<T>::empty(),
    {
        self.ring.clear()
    }

    /// Removes and returns the front value, or `None` when empty.
    pub fn pop(&mut self) -> (r: Option<T>)
        requires
            old(self).wf(),
        ensures
            final(self).wf(),
            old(self)@.len() == 0 ==> r is None && final(self)@ == old(self)@,
            old(self)@.len() > 0 ==> r == Some(old(self)@.first()) && final(self)@ == old(self)@.drop_first(),
    {
        self.ring.pop()
    }
}

impl Sender {
    /// Sends `value` into the channel this marker produces for.
    pub fn send<T, const N: usize>(&self, mpmc: &mut Mpmc<T, N>, value: T) -> (r: Result<(), T>)
        requires
            old(mpmc).wf(),
        ensures
            final(mpmc).wf(),
            old(mpmc)@.len() < N ==> r == Ok::<(), T>(()) && final(mpmc)@ == old(mpmc)@.push(
                value,
            ),
            old(mpmc)@.len() == N ==> r == Err::<(), T>(value) && final(mpmc)@ == old(mpmc)@,
    {
        mpmc.push(value)
    }
}

impl Receiver {
    /// Receives the front value of the channel this marker consumes from.
    pub fn try_recv<T, const N: usize>(&self, mpmc: &mut Mpmc<T, N>) -> (r: Option<T>)
        requires
            old(mpmc).wf(),
        ensures
            final(mpmc).wf(),
            old(mpmc)@.len() == 0 ==> r is None && final(mpmc)@ == old(mpmc)@,
            old(mpmc)@.len() > 0 ==> r == Some(old(mpmc)@.first()) && final(mpmc)@ == old(mpmc)@.drop_first(),
    {
        mpmc.pop()
    }
}

} // verus!
