//! A bounded, single-producer/single-consumer queue.
//!
//! A queue is one value, a [`Shared`], that can be handed from one thread to another. It has two
//! sides. The [`Producer`] writes to its head and the [`Consumer`] reads from its tail. Each side
//! borrows the queue for the time of one operation, and remembers between its operations how far
//! the other side had come when it last looked.
//!
//! # Examples
//!
//! ```
//! use crossbeam_queue::spsc;
//!
//! let (mut q, mut p, mut c) = spsc::with_capacity(2);
//!
//! assert!(p.try_push(&mut q, 1).is_ok());
//! assert!(p.try_push(&mut q, 2).is_ok());
//! assert!(p.try_push(&mut q, 3).is_err());
//!
//! assert_eq!(c.try_pop(&mut q), Ok(1));
//! assert_eq!(c.try_pop(&mut q), Ok(2));
//! assert!(c.try_pop(&mut q).is_err());
//! ```
//!
//! # Contracts
//!
//! [`model`] says what a queue holds, and the contracts of all operations are stated over it.
//! [`ledger`] records which values end in a queue, and how. [`calls`] says what holds of what the
//! operations return and leave behind. [`system`] adds what the two sides know, and [`laws`] says
//! what holds however the operations of the two sides follow each other.

pub mod buffer;
pub mod calls;
pub mod consumer;
pub mod error;
pub mod laws;
pub mod ledger;
pub mod model;
pub mod producer;
pub mod shared;
pub mod system;

pub use buffer::Buffer;
pub use consumer::Consumer;
pub use error::{TryPopError, TryPushError};
pub use producer::Producer;
pub use shared::{new, with_capacity, Shared};
