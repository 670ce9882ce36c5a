//! The control word of a mailbox slot: lifecycle tag or borrow count.
//!
//! One `u32` carries either a lifecycle tag (no value, mid-write, mid-read),
//! encoded in the topmost values, or — once a value is published — the number
//! of read-only borrows currently outstanding, starting at zero.

use vstd::prelude::*;

verus! {

/// Tag: the slot holds no value.
pub const SEEK_UNINITIALIZED: u32 = u32::MAX;

/// Tag: a value is being written into the slot.
pub const SEEK_WRITTING: u32 = u32::MAX - 1;

/// Tag: the value is being read out of the slot.
pub const SEEK_READING: u32 = u32::MAX - 3;

/// The largest representable number of simultaneous borrows.
pub const SEEK_MAX: u32 = u32::MAX - 4;

/// The control word of one mailbox slot: either a lifecycle tag or the count
/// of outstanding read-only borrows of a published value.
#[derive(Debug, Clone, Copy, PartialEq, Eq, Structural)]
pub struct MemorySeek(u32);

impl MemorySeek {
    /// The raw word as a mathematical integer.
    pub closed spec fn raw(self) -> int {
        self.0 as int
    }

    /// The word is one `u32`.
    pub proof fn lemma_raw_bounds(self)
        ensures
            0 <= self.raw() <= u32::MAX as int,
    {
    }

    /// The word is a borrow count, i.e. a value is published.
    pub open spec fn spec_can_seek(self) -> bool {
        self.raw() <= SEEK_MAX as int
    }

    /// A fresh slot: no value.
    pub fn new() -> (r: MemorySeek)
        ensures
            r.raw() == SEEK_UNINITIALIZED as int,
    {
        Self(SEEK_UNINITIALIZED)
    }

    /// A published value with no borrow outstanding.
    pub fn written() -> (r: MemorySeek)
        ensures
            r.raw() == 0,
    {
        Self(0)
    }

    pub fn is_uninitialized(&self) -> (r: bool)
        ensures
            r == (self.raw() == SEEK_UNINITIALIZED as int),
    {
        self.0 == SEEK_UNINITIALIZED
    }

    pub fn is_writting(&self) -> (r: bool)
        ensures
            r == (self.raw() == SEEK_WRITTING as int),
    {
        self.0 == SEEK_WRITTING
    }

    pub fn is_reading(&self) -> (r: bool)
        ensures
            r == (self.raw() == SEEK_READING as int),
    {
        self.0 == SEEK_READING
    }

    /// Whether the slot holds a readable value (borrows may be taken).
    pub fn can_seek(&self) -> (r: bool)
        ensures
            r == self.spec_can_seek(),
    {
        self.0 <= SEEK_MAX
    }

    /// The number of outstanding borrows, or the word itself when it is a
    /// lifecycle tag instead of a count.
    pub fn seek_num(&self) -> (r: Result<usize, Self>)
        ensures
            self.spec_can_seek() ==> (r matches Ok(n) && n == self.raw()),
            !self.spec_can_seek() ==> r == Err::<usize, Self>(*self),
    {
        if self.0 <= SEEK_MAX {
            Ok(self.0 as usize)
        } else {
            Err(*self)
        }
    }

    /// Takes one more borrow.  Fails when no value is published or the
    /// borrow bound is already reached, and reports the observed word.
    pub fn seek_add(&mut self) -> (r: Result<(), Self>)
        ensures
            old(self).raw() < SEEK_MAX as int ==> r == Ok::<(), Self>(()) && final(self).raw()
                == old(self).raw() + 1,
            old(self).raw() >= SEEK_MAX as int ==> r == Err::<(), Self>(*old(self)) && *final(self)
                == *old(self),
    {
        if self.0 < SEEK_MAX {
            self.0 = self.0 + 1;
            Ok(())
        } else {
            Err(*self)
        }
    }

    /// Releases one borrow.  Fails when the word is a lifecycle tag or no
    /// borrow is outstanding, and reports the observed word.
    pub fn seek_sub(&mut self) -> (r: Result<(), Self>)
        ensures
            1 <= old(self).raw() <= SEEK_MAX as int ==> r == Ok::<(), Self>(())
                && final(self).raw() == old(self).raw() - 1,
            !(1 <= old(self).raw() <= SEEK_MAX as int) ==> r == Err::<(), Self>(*old(self))
                && *final(self) == *old(self),
    {
        if 1 <= self.0 && self.0 <= SEEK_MAX {
            self.0 = self.0 - 1;
            Ok(())
        } else {
            Err(*self)
        }
    }
}

} // verus!
