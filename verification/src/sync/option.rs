//! A single-slot mailbox: one optional value plus a borrow count.
//!
//! Once a value is published, any number of read-only borrows (up to
//! [`SEEK_MAX`]) may be outstanding at once; [`AtomicOption::take`] fails
//! while they are.  Removal requested while borrows are outstanding
//! ([`AtomicOption::remove_after_drop`]) is deferred: the value is dropped
//! when the last borrow is released.

use crate::sync::common::{MemorySeek, SEEK_MAX};
use vstd::prelude::*;

verus! {

/// A borrow token handed out by [`AtomicOption::seek`] (and by the slot
/// table, which records which slot was borrowed).  Giving the token back
/// through [`AtomicOption::release`] ends the borrow.
#[derive(Debug)]
pub struct Seek {
    index: usize,
}

impl Seek {
    /// The slot this borrow belongs to (zero for a lone mailbox).
    pub closed spec fn spec_index(self) -> int {
        self.index as int
    }

    pub(crate) fn new(index: usize) -> (r: Self)
        ensures
            r.spec_index() == index,
    {
        Seek { index }
    }

    /// The slot this borrow belongs to.
    pub fn index(&self) -> (r: usize)
        ensures
            r == self.spec_index(),
    {
        self.index
    }
}

/// A mailbox holding at most one value.
pub struct AtomicOption<T> {
    val: Option<T>,
    state: MemorySeek,
    will_drop: bool,
}

impl<T> View for AtomicOption<T> {
    type V = Option<T>;

    /// The stored value, if any.
    closed spec fn view(&self) -> Option<T> {
        self.val
    }
}

impl<T> AtomicOption<T> {
    /// The control word.
    pub closed spec fn spec_state(&self) -> MemorySeek {
        self.state
    }

    /// The number of borrows currently outstanding.
    pub open spec fn seeks(&self) -> int {
        if self.spec_state().spec_can_seek() {
            self.spec_state().raw()
        } else {
            0
        }
    }

    /// Whether removal was requested while borrows were outstanding.
    pub closed spec fn marked(&self) -> bool {
        self.will_drop
    }

    /// The control word agrees with the stored value: the word is a borrow
    /// count exactly when a value is present, and a removal mark needs an
    /// outstanding borrow.
    pub closed spec fn wf(&self) -> bool {
        &&& self.val is None <==> self.state.raw() == u32::MAX as int
        &&& self.val is Some <==> self.state.spec_can_seek()
        &&& self.will_drop ==> self.state.spec_can_seek() && self.state.raw() >= 1
    }

    /// Creates an empty mailbox.
    pub fn new() -> (r: Self)
        ensures
            r.wf(),
            r@ is None,
            r.seeks() == 0,
            !r.marked(),
    {
        AtomicOption { val: None, state: MemorySeek::new(), will_drop: false }
    }

    /// True when a value is present (readable, possibly borrowed).
    pub fn is_some(&self) -> (r: bool)
        requires
            self.wf(),
        ensures
            r == (self@ is Some),
    {
        let state = self.state;
        state.can_seek()
    }

    /// True when the mailbox is empty.
    pub fn is_none(&self) -> (r: bool)
        requires
            self.wf(),
        ensures
            r == (self@ is None),
    {
        self.state.is_uninitialized()
    }

    /// Publishes `value` into an empty mailbox; an occupied one rejects it
    /// and hands it back unchanged.
    pub fn push(&mut self, value: T) -> (r: Result<(), T>)
        requires
            old(self).wf(),
        ensures
            final(self).wf(),
            old(self)@ is None ==> r == Ok::<(), T>(()) && final(self)@ == Some(value) && final(self).seeks() == 0 && !final(self).marked(),
            old(self)@ is Some ==> r == Err::<(), T>(value) && *final(self) == *old(self),
    {
        if self.state.is_uninitialized() {
            // Empty -> Writing: the slot is claimed, then written, then
            // published with a borrow count of zero
            self.val = Some(value);
            self.state = MemorySeek::written();
            Ok(())
        } else {
            Err(value)
        }
    }

    /// Takes the value out.  Fails while the mailbox is empty or borrows
    /// are outstanding.
    pub fn take(&mut self) -> (r: Option<T>)
        requires
            old(self).wf(),
        ensures
            final(self).wf(),
            old(self)@ is Some && old(self).seeks() == 0 ==> r == old(self)@ && final(self)@
                is None && final(self).seeks() == 0 && !final(self).marked(),
            !(old(self)@ is Some && old(self).seeks() == 0) ==> r is None && *final(self) == *old(self),
    {
        let state = self.state;
        if state.can_seek() {
            match state.seek_num() {
                Ok(0) => {
                    // Full -> Reading -> Empty: take the value out
                    let ret = self.val.take();
                    self.state = MemorySeek::new();
                    ret
                },
                _ => None,
            }
        } else {
            None
        }
    }

    /// Takes one read-only borrow of the stored value.  Fails when the
    /// mailbox is empty, mid-operation, or at the borrow bound, and reports
    /// the observed control word.
    pub fn seek(&mut self) -> (r: Result<Seek, MemorySeek>)
        requires
            old(self).wf(),
        ensures
            final(self).wf(),
            old(self)@ is Some && old(self).seeks() < SEEK_MAX as int ==> (r matches Ok(s)
                && s.spec_index() == 0) && final(self)@ == old(self)@ && final(self).seeks() == old(self).seeks() + 1 && final(self).marked() == old(self).marked(),
            !(old(self)@ is Some && old(self).seeks() < SEEK_MAX as int) ==> r == Err::<
                Seek,
                MemorySeek,
            >(old(self).spec_state()) && *final(self) == *old(self),
    {
        let mut state = self.state;
        match state.seek_add() {
            Ok(()) => {
                self.state = state;
                Ok(Seek::new(0))
            },
            Err(observed) => Err(observed),
        }
    }

    /// Requests removal while borrows are outstanding: the value is dropped
    /// when the last borrow is released.
    pub fn remove_after_drop(&mut self, seek: &Seek)
        requires
            old(self).wf(),
            old(self).seeks() >= 1,
        ensures
            final(self).wf(),
            final(self)@ == old(self)@,
            final(self).seeks() == old(self).seeks(),
            final(self).spec_state() == old(self).spec_state(),
            final(self).marked(),
    {
        let _ = seek;
        self.will_drop = true;
    }

    /// Gives a borrow token back.  The last release performs (and is the
    /// point of) a removal requested while borrows were outstanding: the
    /// stored value is dropped here, not when removal was requested.
    pub fn release(&mut self, seek: Seek)
        requires
            old(self).wf(),
            old(self).seeks() >= 1,
        ensures
            final(self).wf(),
            old(self).seeks() > 1 ==> final(self)@ == old(self)@ && final(self).seeks() == old(self).seeks() - 1 && final(self).marked() == old(self).marked(),
            old(self).seeks() == 1 && !old(self).marked() ==> final(self)@ == old(self)@ && final(self).seeks() == 0 && !final(self).marked(),
            old(self).seeks() == 1 && old(self).marked() ==> final(self)@ is None && final(self).seeks() == 0 && !final(self).marked(),
    {
        let _ = seek;
        let mut state = self.state;
        let last = match state.seek_num() {
            Ok(1) => true,
            _ => false,
        };
        if last && self.will_drop {
            // deferred destruction: Reading -> Empty once the last borrow
            // is gone
            self.val = None;
            self.will_drop = false;
            self.state = MemorySeek::new();
        } else {
            let _ = state.seek_sub();
            self.state = state;
        }
    }

    /// Law: a stored value is taken out at most once.  The two hypotheses
    /// are the contract of [`Self::take`] for a first and a second call;
    /// whenever the first call obtains the value it leaves the mailbox
    /// empty, so the second cannot obtain one — no two observers ever
    /// receive the same stored value.
    pub proof fn lemma_take_exclusive(m0: Self, m1: Self, m2: Self, r1: Option<T>, r2: Option<T>)
        requires
            m0@ is Some && m0.seeks() == 0 ==> r1 == m0@ && m1@ is None,
            !(m0@ is Some && m0.seeks() == 0) ==> r1 is None && m1 == m0,
            m1@ is Some && m1.seeks() == 0 ==> r2 == m1@ && m2@ is None,
            !(m1@ is Some && m1.seeks() == 0) ==> r2 is None && m2 == m1,
        ensures
            !(r1 is Some && r2 is Some),
    {
    }

    /// Law: requesting removal while a borrow is outstanding does not drop
    /// the stored value; the value goes exactly when the last borrow is
    /// released.  The hypotheses are the contracts of
    /// [`Self::remove_after_drop`] and of [`Self::release`] for the last
    /// outstanding borrow.
    pub proof fn lemma_deferred_destruction(m0: Self, m1: Self, m2: Self)
        requires
            m0@ is Some,
            m0.seeks() == 1,
            m1@ == m0@ && m1.seeks() == m0.seeks() && m1.marked(),
            m1.seeks() == 1 && m1.marked() ==> m2@ is None && m2.seeks() == 0 && !m2.marked(),
        ensures
            m1@ is Some,
            m2@ is None,
    {
    }

    /// Mutable access to the stored value, for structures that own the
    /// mailbox outright.
    pub(crate) fn value_mut(&mut self) -> (r: &mut T)
        requires
            old(self).wf(),
            old(self)@ is Some,
        ensures
            final(self).wf(),
            *r == old(self)@->0,
            final(self)@ == Some(*final(r)),
            final(self).spec_state() == old(self).spec_state(),
            final(self).marked() == old(self).marked(),
    {
        match &mut self.val {
            Some(v) => v,
            None => unreached(),
        }
    }

    /// Reads the stored value through an outstanding borrow.
    pub fn peek(&self, seek: &Seek) -> (r: &T)
        requires
            self.wf(),
            self.seeks() >= 1,
        ensures
            self@ == Some(*r),
    {
        let _ = seek;
        match self.val.as_ref() {
            Some(v) => v,
            None => unreached(),
        }
    }
}

} // verus!
