//! An unordered table of `N` mailbox slots.
//!
//! `push` fills the first free slot (ascending scan), `pop` empties the
//! first slot whose value is present and unborrowed.  Positions are not
//! otherwise meaningful, except for slots explicitly borrowed by index
//! through [`AtomicVec::get`].

use crate::sync::common::{MemorySeek, SEEK_MAX};
use crate::sync::option::{AtomicOption, Seek};
use vstd::prelude::*;

verus! {

/// A fixed table of `N` mailbox slots.
pub struct AtomicVec<T, const N: usize> {
    buf: Vec<AtomicOption<T>>,
}

impl<T, const N: usize> View for AtomicVec<T, N> {
    type V = Seq<Option<T>>;

    /// The stored values by slot.
    open spec fn view(&self) -> Seq<Option<T>> {
        Seq::new(N as nat, |i: int| self.cells()[i]@)
    }
}

impl<T, const N: usize> AtomicVec<T, N> {
    /// The slots themselves, with their borrow counts and removal marks.
    pub closed spec fn cells(&self) -> Seq<AtomicOption<T>> {
        self.buf@
    }

    /// Every slot is a well-formed mailbox.
    pub closed spec fn wf(&self) -> bool {
        &&& self.buf@.len() == N
        &&& forall|i: int| 0 <= i < N ==> (#[trigger] self.buf@[i]).wf()
    }

    /// `pop` can empty slot `i`: a value is present and unborrowed.
    pub open spec fn takeable(&self, i: int) -> bool {
        self.cells()[i]@ is Some && self.cells()[i].seeks() == 0
    }

    /// Creates a table of empty slots.
    pub fn new() -> (r: Self)
        ensures
            r.wf(),
            forall|i: int|
                0 <= i < N ==> r@[i] is None && (#[trigger] r.cells()[i]).seeks() == 0
                    && !r.cells()[i].marked(),
    {
        let mut buf: Vec<AtomicOption<T>> = Vec::new();
        let mut i: usize = 0;
        while i < N
            invariant
                i <= N,
                buf@.len() == i,
                forall|k: int|
                    0 <= k < i ==> (#[trigger] buf@[k]).wf() && buf@[k]@ is None
                        && buf@[k].seeks() == 0 && !buf@[k].marked(),
            decreases N - i,
        {
            buf.push(AtomicOption::new());
            i = i + 1;
        }
        AtomicVec { buf }
    }

    /// The declared capacity `N`.
    pub fn capacity(&self) -> (r: usize)
        ensures
            r == N,
    {
        N
    }

    /// True when every slot is empty.
    pub fn is_empty(&self) -> (r: bool)
        requires
            self.wf(),
        ensures
            r == (forall|i: int| 0 <= i < N ==> self@[i] is None),
    {
        let mut i: usize = 0;
        while i < N
            invariant
                self.wf(),
                i <= N,
                forall|k: int| 0 <= k < i ==> self@[k] is None,
            decreases N - i,
        {
            if self.buf[i].is_some() {
                proof {
                    assert(self@[i as int] is Some);
                }
                return false;
            }
            i = i + 1;
        }
        true
    }

    /// True when every slot holds a value.
    pub fn is_full(&self) -> (r: bool)
        requires
            self.wf(),
        ensures
            r == (forall|i: int| 0 <= i < N ==> self@[i] is Some),
    {
        let mut i: usize = 0;
        while i < N
            invariant
                self.wf(),
                i <= N,
                forall|k: int| 0 <= k < i ==> self@[k] is Some,
            decreases N - i,
        {
            if self.buf[i].is_none() {
                proof {
                    assert(self@[i as int] is None);
                }
                return false;
            }
            i = i + 1;
        }
        true
    }

    /// Drops every stored value and forgets all borrows and marks.
    /// Callers must hold exclusive access.
    pub fn clear(&mut self)
        requires
            old(self).wf(),
        ensures
            final(self).wf(),
            forall|i: int|
                0 <= i < N ==> final(self)@[i] is None && (#[trigger] final(self).cells()[i]).seeks() == 0 && !final(self).cells()[i].marked(),
    {
        let mut i: usize = 0;
        while i < N
            invariant
                i <= N,
                self.buf@.len() == N,
                forall|k: int| i <= k < N ==> (#[trigger] self.buf@[k]).wf(),
                forall|k: int|
                    0 <= k < i ==> (#[trigger] self.buf@[k]).wf() && self.buf@[k]@ is None
                        && self.buf@[k].seeks() == 0 && !self.buf@[k].marked(),
            decreases N - i,
        {
            self.buf[i] = AtomicOption::new();
            i = i + 1;
        }
    }

    /// Empties the first slot holding an unborrowed value and returns that
    /// value; `None` when no slot can be emptied.
    pub fn pop(&mut self) -> (r: Option<T>)
        requires
            old(self).wf(),
        ensures
            final(self).wf(),
            (forall|i: int| 0 <= i < N ==> !old(self).takeable(i)) ==> r is None && final(self).cells() == old(self).cells(),
            (exists|i: int| 0 <= i < N && old(self).takeable(i)) ==> (exists|i: int|
                0 <= i < N && old(self).takeable(i) && (forall|j: int|
                    0 <= j < i ==> !old(self).takeable(j)) && r == old(self)@[i] && final(self)@[i]
                    is None && (#[trigger] final(self).cells()[i]).seeks() == 0 && !final(self).cells()[i].marked() && (forall|k: int|
                    0 <= k < N && k != i ==> final(self).cells()[k] == old(self).cells()[k])),
    {
        let mut i: usize = 0;
        while i < N
            invariant
                self.wf(),
                i <= N,
                self.cells() == old(self).cells(),
                forall|j: int| 0 <= j < i ==> !old(self).takeable(j),
            decreases N - i,
        {
            let taken = self.buf[i].take();
            if taken.is_some() {
                proof {
                    assert(old(self).takeable(i as int));
                    assert(taken == old(self)@[i as int]);
                    assert(self@[i as int] is None);
                }
                return taken;
            }
            proof {
                assert(self.cells() =~= old(self).cells());
            }
            i = i + 1;
        }
        None
    }

    /// Publishes `value` into the first free slot and reports its index; a
    /// table with no free slot rejects the value and hands it back.
    pub fn push(&mut self, value: T) -> (r: Result<usize, T>)
        requires
            old(self).wf(),
        ensures
            final(self).wf(),
            r matches Err(v) ==> v == value && final(self).cells() == old(self).cells() && (
            forall|i: int| 0 <= i < N ==> old(self)@[i] is Some),
            (exists|i: int| 0 <= i < N && old(self)@[i] is None) ==> r is Ok,
            r matches Ok(i) ==> 0 <= i < N && old(self)@[i as int] is None && (forall|j: int|
                0 <= j < i as int ==> old(self)@[j] is Some) && final(self)@[i as int] == Some(
                value,
            ) && final(self).cells()[i as int].seeks() == 0 && !final(self).cells()[i as int].marked() && (forall|k: int|
                0 <= k < N && k != i as int ==> final(self).cells()[k] == old(self).cells()[k]),
    {
        let mut pending = value;
        let mut i: usize = 0;
        while i < N
            invariant
                self.wf(),
                i <= N,
                self.cells() == old(self).cells(),
                pending == value,
                forall|j: int| 0 <= j < i ==> old(self)@[j] is Some,
            decreases N - i,
        {
            match self.buf[i].push(pending) {
                Ok(()) => {
                    proof {
                        assert(old(self)@[i as int] is None);
                        assert(self@[i as int] == Some(value));
                        assert(self.cells()[i as int].seeks() == 0);
                        assert(!self.cells()[i as int].marked());
                    }
                    return Ok(i);
                },
                Err(v) => {
                    pending = v;
                },
            }
            proof {
                assert(self.cells() =~= old(self).cells());
            }
            i = i + 1;
        }
        Err(pending)
    }

    /// Borrows the slot at `index` read-only.  Fails when the slot is
    /// empty, mid-operation or at its borrow bound, and reports the
    /// observed control word.
    pub fn get(&mut self, index: usize) -> (r: Result<Seek, MemorySeek>)
        requires
            old(self).wf(),
            index < N,
        ensures
            final(self).wf(),
            old(self)@[index as int] is Some && old(self).cells()[index as int].seeks() < SEEK_MAX
                as int ==> (r matches Ok(s) && s.spec_index() == index) && final(self)@ == old(self)@ && final(self).cells()[index as int].seeks() == old(self).cells()[index as int].seeks() + 1 && final(self).cells()[index as int].marked() == old(self).cells()[index as int].marked() && (forall|k: int|
                0 <= k < N && k != index ==> final(self).cells()[k] == old(self).cells()[k]),
            !(old(self)@[index as int] is Some && old(self).cells()[index as int].seeks()
                < SEEK_MAX as int) ==> r == Err::<Seek, MemorySeek>(old(self).cells()[index as int].spec_state()) && final(self).cells() == old(self).cells() && final(self)@ == old(self)@,
    {
        match self.buf[index].seek() {
            Ok(_) => {
                proof {
                    assert(self@ =~= old(self)@);
                }
                Ok(Seek::new(index))
            },
            Err(observed) => {
                proof {
                    assert(self.cells() =~= old(self).cells());
                    assert(self@ =~= old(self)@);
                }
                Err(observed)
            },
        }
    }

    /// Requests removal of the borrowed slot once its last borrow is
    /// released.
    pub fn remove_after_drop(&mut self, seek: &Seek)
        requires
            old(self).wf(),
            0 <= seek.spec_index() < N,
            old(self).cells()[seek.spec_index()].seeks() >= 1,
        ensures
            final(self).wf(),
            final(self)@ == old(self)@,
            final(self).cells()[seek.spec_index()].seeks() == old(self).cells()[seek.spec_index()].seeks(),
            final(self).cells()[seek.spec_index()].marked(),
            forall|k: int|
                0 <= k < N && k != seek.spec_index() ==> final(self).cells()[k] == old(self).cells()[k],
    {
        let index = seek.index();
        self.buf[index].remove_after_drop(seek);
        proof {
            assert(self@ =~= old(self)@);
        }
    }

    /// Gives a borrow token back to its slot.  The last release performs a
    /// removal requested while borrows were outstanding.
    pub fn release(&mut self, seek: Seek)
        requires
            old(self).wf(),
            0 <= seek.spec_index() < N,
            old(self).cells()[seek.spec_index()].seeks() >= 1,
        ensures
            final(self).wf(),
            old(self).cells()[seek.spec_index()].seeks() > 1 ==> final(self)@ == old(self)@
                && final(self).cells()[seek.spec_index()].seeks() == old(self).cells()[seek.spec_index()].seeks() - 1 && final(self).cells()[seek.spec_index()].marked() == old(self).cells()[seek.spec_index()].marked(),
            old(self).cells()[seek.spec_index()].seeks() == 1 && !old(self).cells()[seek.spec_index()].marked() ==> final(self)@ == old(self)@ && final(self).cells()[seek.spec_index()].seeks() == 0 && !final(self).cells()[seek.spec_index()].marked(),
            old(self).cells()[seek.spec_index()].seeks() == 1 && old(self).cells()[seek.spec_index()].marked() ==> final(self)@ == old(self)@.update(seek.spec_index(), None) && final(self).cells()[seek.spec_index()].seeks() == 0 && !final(self).cells()[seek.spec_index()].marked(),
            forall|k: int|
                0 <= k < N && k != seek.spec_index() ==> final(self).cells()[k] == old(self).cells()[k],
    {
        let index = seek.index();
        self.buf[index].release(seek);
        proof {
            if old(self).cells()[index as int].seeks() > 1 || !old(self).cells()[index as int].marked() {
                assert(self@ =~= old(self)@);
            } else {
                assert(self@ =~= old(self)@.update(index as int, None));
            }
        }
    }

    /// True when the slot at `index` holds a value.
    pub fn occupied(&self, index: usize) -> (r: bool)
        requires
            self.wf(),
            index < N,
        ensures
            r == (self@[index as int] is Some),
    {
        self.buf[index].is_some()
    }

    /// Mutable access to the value in a slot, for structures that own the
    /// table outright.
    pub(crate) fn value_mut(&mut self, index: usize) -> (r: &mut T)
        requires
            old(self).wf(),
            index < N,
            old(self)@[index as int] is Some,
        ensures
            final(self).wf(),
            *r == old(self)@[index as int]->0,
            final(self)@ =~= old(self)@.update(index as int, Some(*final(r))),
            final(self).cells()[index as int].seeks() == old(self).cells()[index as int].seeks(),
            final(self).cells()[index as int].marked() == old(self).cells()[index as int].marked(),
            forall|k: int|
                0 <= k < N && k != index ==> final(self).cells()[k] == old(self).cells()[k],
    {
        self.buf[index].value_mut()
    }

    /// Reads the value in the borrowed slot.
    pub fn peek(&self, seek: &Seek) -> (r: &T)
        requires
            self.wf(),
            0 <= seek.spec_index() < N,
            self.cells()[seek.spec_index()].seeks() >= 1,
        ensures
            self@[seek.spec_index()] == Some(*r),
    {
        let index = seek.index();
        self.buf[index].peek(seek)
    }
}

} // verus!
