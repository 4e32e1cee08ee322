//! Broadcast containers built on versioned cells: a seqlock cell, an
//! index-addressed vector of cells, and a ring queue with producer and
//! consumer cursors, together with the layout of the memory regions they
//! live in.
//!
//! The containers are owned values and every operation is one step on them,
//! so that each has an exact contract. What readers and writers can observe
//! of a cell when their steps interleave is stated and proved over traces in
//! [`protocol`]; what holds of a ring over any sequence of publishes is in
//! [`model`].
pub mod error;
pub mod layout;
pub mod model;
pub mod protocol;
pub mod seqlock;
pub mod versioned_lock;
pub mod vector;
pub mod queue;
pub mod messages;
pub mod ffi;
pub mod inspect;

pub use error::QueueError;
pub use error::ReadError;
pub use queue::Consumer;
pub use queue::Producer;
pub use queue::Queue;
pub use queue::QueueType;
pub use vector::SeqlockVector;
