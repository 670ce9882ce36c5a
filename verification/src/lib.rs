//! Fixed-capacity queues, maps and channels with no dynamic growth.
//!
//! Every container in this crate is created with a fixed capacity and never
//! reallocates afterwards.  The sequential containers ([`Vec`],
//! [`VecDeque`], [`History`], [`LinearMap`], [`LinearSet`]) are plain
//! array-backed structures.  The [`sync`] module holds the channel-like
//! structures (ring buffers, mailbox, slot table, publish/subscribe) whose
//! slot-ownership protocol — a per-slot lifecycle tag plus a wraparound-safe
//! generation counter — is stated and verified here.

mod arith;
mod history;
mod linear_map;
mod linear_set;
mod spsc;
pub mod sync;
mod vec;
mod vec_deque;

pub use vec::Vec;
pub use history::History;
pub use linear_map::LinearMap;
pub use linear_set::LinearSet;
pub use spsc::Receiver;
pub use spsc::Sender;
pub use spsc::Spsc;
pub use vec_deque::VecDeque;
