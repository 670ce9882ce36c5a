//! The control word of one storage slot: lifecycle tag plus generation.

use super::group::{MemoryGroup, GROUP_COUNT};
use super::state::MemoryState;
use vstd::prelude::*;

verus! {

/// The full per-slot state a claim is checked against: which lap the slot is
/// in and where in its lifecycle it stands.
#[derive(Debug, Clone, Copy, PartialEq, Eq, Structural)]
pub struct MemoryOp {
    group: MemoryGroup,
    state: MemoryState,
}

impl MemoryOp {
    /// The generation half of the word.
    pub closed spec fn spec_group(self) -> MemoryGroup {
        self.group
    }

    /// The lifecycle half of the word.
    pub closed spec fn spec_state(self) -> MemoryState {
        self.state
    }

    pub fn new(group: MemoryGroup, state: MemoryState) -> (r: MemoryOp)
        ensures
            r.spec_group() == group,
            r.spec_state() == state,
    {
        Self { group, state }
    }

    pub fn group(&self) -> (r: MemoryGroup)
        ensures
            r == self.spec_group(),
    {
        self.group
    }

    pub fn state(&self) -> (r: MemoryState)
        ensures
            r == self.spec_state(),
    {
        self.state
    }

    /// The successor in the slot lifecycle
    /// `Uninitialized -> Writting -> Written -> Reading -> Uninitialized`,
    /// where finishing a read advances the slot to its next generation.
    pub fn next(&self) -> (r: MemoryOp)
        ensures
            self.spec_state() == MemoryState::Uninitialized ==> r.spec_group()
                == self.spec_group() && r.spec_state() == MemoryState::Writting,
            self.spec_state() == MemoryState::Writting ==> r.spec_group() == self.spec_group()
                && r.spec_state() == MemoryState::Written,
            self.spec_state() == MemoryState::Written ==> r.spec_group() == self.spec_group()
                && r.spec_state() == MemoryState::Reading,
            self.spec_state() == MemoryState::Reading ==> r.spec_state()
                == MemoryState::Uninitialized && r.spec_group().spec_group() == (
            self.spec_group().spec_group() + 1) % (GROUP_COUNT as int),
    {
        let mut ret = *self;
        match self.state {
            MemoryState::Uninitialized => ret.state = MemoryState::Writting,
            MemoryState::Writting => ret.state = MemoryState::Written,
            MemoryState::Written => ret.state = MemoryState::Reading,
            MemoryState::Reading => {
                ret.group = self.group.next();
                ret.state = MemoryState::Uninitialized;
            },
        }
        ret
    }
}

} // verus!
