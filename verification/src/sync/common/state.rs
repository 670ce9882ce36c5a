//! The lifecycle tag of one storage slot.

use vstd::prelude::*;

verus! {

/// The lifecycle of a slot: no value, value being written, value published,
/// value being read out.  A slot may be mutated only by the one caller that
/// moved it into `Writting` or `Reading`.
#[derive(Debug, Clone, Copy, PartialEq, Eq, Structural)]
pub enum MemoryState {
    Uninitialized,
    Writting,
    Written,
    Reading,
}

} // verus!
