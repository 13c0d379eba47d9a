//! Bounded queues with machine-checked contracts.
//!
//! [`spsc`] holds a bounded, single-producer/single-consumer queue.

pub mod spsc;
