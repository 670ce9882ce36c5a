//! Broadcast publish/subscribe.
//!
//! A [`Publisher`] owns a table of up to `NS` subscribers, each wrapping one
//! ring of capacity `NT`.  [`Publisher::send`] clones the value into every
//! live subscriber's ring; a full ring silently drops that subscriber's copy
//! (best-effort, at-most-once delivery — never an error back to the
//! publisher).  A subscription is a borrowed table slot that frees itself
//! when the subscription is given back.

use crate::sync::array::AtomicVec;
use crate::sync::common::GROUP_COUNT;
use crate::sync::option::Seek;
use crate::sync::ring::AtomicRing;
use vstd::prelude::*;

verus! {

/// One subscriber: a ring of capacity `N` the publisher delivers into.
pub struct Subscriber<T, const N: usize>(AtomicRing<T, N>);

impl<T, const N: usize> View for Subscriber<T, N> {
    type V = Seq<T>;

    /// The delivered, not yet received values, front first.
    closed spec fn view(&self) -> Seq<T> {
        self.0@
    }
}

impl<T, const N: usize> Subscriber<T, N> {
    /// The underlying ring is well formed.
    pub closed spec fn wf(&self) -> bool {
        self.0.wf()
    }

    /// A well-formed subscriber never buffers more than `N` values.
    pub proof fn lemma_len_bound(&self)
        requires
            self.wf(),
        ensures
            self@.len() <= N,
    {
        self.0.lemma_len_bound();
    }

    /// Receives the oldest delivered value, or `None` when none is waiting.
    pub fn try_recv(&mut self) -> (r: Option<T>)
        requires
            old(self).wf(),
        ensures
            final(self).wf(),
            old(self)@.len() == 0 ==> r is None && final(self)@ == old(self)@,
            old(self)@.len() > 0 ==> r == Some(old(self)@.first()) && final(self)@ == old(self)@.drop_first(),
    {
        self.0.pop()
    }
}

/// A broadcast publisher over up to `NS` subscribers with `NT` buffered
/// values each.
pub struct Publisher<T, const NT: usize, const NS: usize> {
    subscribers: AtomicVec<Subscriber<T, NT>, NS>,
}

impl<T, const NT: usize, const NS: usize> View for Publisher<T, NT, NS> {
    type V = Seq<Option<Seq<T>>>;

    /// Each live subscription's pending values, by table slot.
    closed spec fn view(&self) -> Seq<Option<Seq<T>>> {
        Seq::new(
            NS as nat,
            |i: int|
                if self.subscribers@[i] is Some {
                    Some(self.subscribers@[i]->0@)
                } else {
                    None
                },
        )
    }
}

impl<T, const NT: usize, const NS: usize> Publisher<T, NT, NS> {
    /// The registry is well formed and every live subscriber holds exactly
    /// the one borrow that its subscription handle stands for, marked to
    /// free the slot when it is given back.
    pub closed spec fn wf(&self) -> bool {
        &&& 1 <= NT
        &&& (NT as int) * (GROUP_COUNT as int) <= usize::MAX as int
        &&& self.subscribers.wf()
        &&& forall|i: int|
            0 <= i < NS && self.subscribers@[i] is Some ==> (#[trigger] self.subscribers@[i])->0.wf() && self.subscribers.cells()[i].seeks() == 1 && self.subscribers.cells()[i].marked()
    }

    /// The registry always has one entry per table slot.
    pub proof fn lemma_view_len(&self)
        ensures
            self@.len() == NS,
    {
    }

    /// Creates a publisher with no subscribers.
    pub fn new() -> (r: Self)
        requires
            1 <= NT,
            (NT as int) * (GROUP_COUNT as int) <= usize::MAX as int,
        ensures
            r.wf(),
            r@.len() == NS,
            forall|i: int| 0 <= i < NS ==> r@[i] is None,
    {
        Publisher { subscribers: AtomicVec::new() }
    }

    /// Registers a fresh subscriber in the first free table slot and hands
    /// out its subscription.  A full registry yields `None`.
    pub fn subscribe(&mut self) -> (r: Option<Seek>)
        requires
            old(self).wf(),
        ensures
            final(self).wf(),
            (r is Some) <==> (exists|i: int| 0 <= i < NS && old(self)@[i] is None),
            r is None ==> final(self)@ == old(self)@,
            r matches Some(s) ==> 0 <= s.spec_index() < NS && old(self)@[s.spec_index()] is None
                && (forall|j: int| 0 <= j < s.spec_index() ==> old(self)@[j] is Some) && final(self)@ == old(self)@.update(s.spec_index(), Some(Seq::<T>::empty())),
    {
        let subscriber = Subscriber(AtomicRing::new());
        match self.subscribers.push(subscriber) {
            Ok(i) => {
                let seek = match self.subscribers.get(i) {
                    Ok(s) => s,
                    Err(_) => unreached(),
                };
                self.subscribers.remove_after_drop(&seek);
                proof {
                    assert(old(self)@[seek.spec_index()] is None);
                    assert(self@ =~= old(self)@.update(seek.spec_index(), Some(Seq::<T>::empty())));
                    assert forall|k: int|
                        0 <= k < NS && self.subscribers@[k] is Some implies (self.subscribers@[
                        k])->0.wf() && self.subscribers.cells()[k].seeks() == 1
                        && self.subscribers.cells()[k].marked() by {
                        if k != i as int {
                            assert(self.subscribers.cells()[k] == old(self).subscribers.cells()[
                                k]);
                            assert(old(self).subscribers@[k] is Some);
                        }
                    }
                }
                Some(seek)
            },
            Err(_) => {
                proof {
                    assert(self@ =~= old(self)@);
                    assert forall|k: int|
                        0 <= k < NS && self.subscribers@[k] is Some implies (self.subscribers@[
                        k])->0.wf() && self.subscribers.cells()[k].seeks() == 1
                        && self.subscribers.cells()[k].marked() by {
                        assert(self.subscribers.cells()[k] == old(self).subscribers.cells()[k]);
                        assert(old(self).subscribers@[k] is Some);
                    }
                }
                None
            },
        }
    }

    /// Receives the oldest value delivered to the given subscription.
    pub fn try_recv(&mut self, seek: &Seek) -> (r: Option<T>)
        requires
            old(self).wf(),
            0 <= seek.spec_index() < NS,
            old(self)@[seek.spec_index()] is Some,
        ensures
            final(self).wf(),
            old(self)@[seek.spec_index()]->0.len() == 0 ==> r is None && final(self)@ == old(self)@,
            old(self)@[seek.spec_index()]->0.len() > 0 ==> r == Some(
                old(self)@[seek.spec_index()]->0.first(),
            ) && final(self)@ == old(self)@.update(
                seek.spec_index(),
                Some(old(self)@[seek.spec_index()]->0.drop_first()),
            ),
    {
        let index = seek.index();
        let subscriber = self.subscribers.value_mut(index);
        let r = subscriber.try_recv();
        proof {
            if old(self)@[seek.spec_index()]->0.len() == 0 {
                assert(self@ =~= old(self)@);
            } else {
                assert(self@ =~= old(self)@.update(
                    seek.spec_index(),
                    Some(old(self)@[seek.spec_index()]->0.drop_first()),
                ));
            }
        }
        r
    }

    /// Gives a subscription back: the last borrow of the slot is released
    /// and the slot frees itself for a later subscriber.
    pub fn unsubscribe(&mut self, seek: Seek)
        requires
            old(self).wf(),
            0 <= seek.spec_index() < NS,
            old(self)@[seek.spec_index()] is Some,
        ensures
            final(self).wf(),
            final(self)@ == old(self)@.update(seek.spec_index(), None),
    {
        let ghost idx = seek.spec_index();
        self.subscribers.release(seek);
        proof {
            assert(self@ =~= old(self)@.update(idx, None));
        }
    }
}

impl<T: Clone, const NT: usize, const NS: usize> Publisher<T, NT, NS> {
    /// What one `send` leaves in one subscriber's ring: a clone appended
    /// when there was room, nothing when the ring was full.
    pub open spec fn delivery(q: Seq<T>, q2: Seq<T>, value: T) -> bool {
        if q.len() < NT {
            exists|w: T| #[trigger] cloned(value, w) && q2 == q.push(w)
        } else {
            q2 == q
        }
    }

    /// Delivers one already-cloned value into the live subscriber at slot
    /// `i`; a full ring hands the value back for reuse.
    fn deliver_at(&mut self, i: usize, w: T) -> (r: Option<T>)
        requires
            old(self).wf(),
            i < NS,
            old(self)@[i as int] is Some,
        ensures
            final(self).wf(),
            old(self)@[i as int]->0.len() < NT ==> r is None && final(self)@ == old(
                self,
            )@.update(i as int, Some(old(self)@[i as int]->0.push(w))),
            old(self)@[i as int]->0.len() >= NT ==> r == Some(w) && final(self)@ == old(self)@,
    {
        proof {
            let ghost sub0 = self.subscribers@[i as int]->0;
            sub0.lemma_len_bound();
        }
        let subscriber = self.subscribers.value_mut(i);
        match subscriber.0.push(w) {
            Ok(()) => {
                proof {
                    assert(self@ =~= old(self)@.update(
                        i as int,
                        Some(old(self)@[i as int]->0.push(w)),
                    ));
                }
                None
            },
            Err(v) => {
                proof {
                    assert(self@ =~= old(self)@);
                }
                Some(v)
            },
        }
    }

    /// Broadcasts `value`: every live subscriber with room gets a clone
    /// appended to its ring; subscribers whose ring is full miss this value,
    /// with no signal to the publisher.
    pub fn send(&mut self, value: T)
        requires
            old(self).wf(),
        ensures
            final(self).wf(),
            forall|i: int|
                0 <= i < NS && old(self)@[i] is None ==> #[trigger] final(self)@[i] is None,
            forall|i: int|
                0 <= i < NS && old(self)@[i] is Some ==> ((#[trigger] final(self)@[i]) matches Some(
                q2) && Self::delivery(old(self)@[i]->0, q2, value)),
    {
        let mut pending: Option<T> = None;
        let mut i: usize = 0;
        while i < NS
            invariant
                self.wf(),
                i <= NS,
                pending matches Some(w) ==> cloned(value, w),
                forall|k: int| i <= k < NS ==> #[trigger] self@[k] == old(self)@[k],
                forall|k: int|
                    0 <= k < i && old(self)@[k] is None ==> #[trigger] self@[k] is None,
                forall|k: int|
                    0 <= k < i && old(self)@[k] is Some ==> ((#[trigger] self@[k]) matches Some(q2)
                        && Self::delivery(old(self)@[k]->0, q2, value)),
            decreases NS - i,
        {
            if self.subscribers.occupied(i) {
                let w = match pending.take() {
                    Some(w) => w,
                    None => value.clone(),
                };
                proof {
                    assert(cloned(value, w));
                }
                let ghost before = self@[i as int]->0;
                match self.deliver_at(i, w) {
                    None => {
                        proof {
                            assert(self@[i as int] == Some(before.push(w)));
                            assert(Self::delivery(before, before.push(w), value));
                        }
                    },
                    Some(v) => {
                        pending = Some(v);
                        proof {
                            assert(Self::delivery(before, before, value));
                        }
                    },
                }
            }
            i = i + 1;
        }
    }
}

} // verus!
