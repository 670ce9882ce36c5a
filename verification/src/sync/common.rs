//! The per-slot ownership protocol shared by the concurrent structures:
//! lifecycle tags, generation counters and borrow counts.

mod group;
mod op;
mod seek;
mod state;

pub use group::MemoryGroup;
pub use group::GROUP_COUNT;
pub use op::MemoryOp;
pub use seek::MemorySeek;
pub use seek::SEEK_MAX;
pub use seek::SEEK_READING;
pub use seek::SEEK_UNINITIALIZED;
pub use seek::SEEK_WRITTING;
pub use state::MemoryState;
