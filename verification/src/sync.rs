//! Fixed-capacity structures driven by the per-slot ownership protocol:
//! ring buffers, a single-slot mailbox, a slot table and a broadcast layer.

pub mod common;
pub mod array;
pub mod mpmc;
pub mod option;
pub mod pubsub;
pub mod ring;
pub mod spsc;

pub use array::AtomicVec;
pub use mpmc::Mpmc;
pub use option::AtomicOption;
pub use option::Seek;
pub use pubsub::Publisher;
pub use pubsub::Subscriber;
pub use ring::AtomicRing;
pub use spsc::Spsc;

pub use common::MemoryGroup;
pub use common::MemoryOp;
pub use common::MemorySeek;
pub use common::MemoryState;
