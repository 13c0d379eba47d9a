//! The errors of the queue.

use vstd::prelude::*;

verus! {

/// Error results that might occur when trying to pop values from a queue.
#[derive(Copy, Clone, Debug, Eq, PartialEq)]
pub enum TryPopError {
    /// The queue is empty.
    Empty,
}

impl TryPopError {
    /// The message of the error.
    pub fn to_string(&self) -> (message: String)
        ensures
            message@ == "queue is empty"@,
    {
        match self {
            TryPopError::Empty => "queue is empty".to_owned(),
        }
    }
}

/// Error results that might occur when trying to push values into a queue.
#[derive(Copy, Clone, Debug, Eq, PartialEq)]
pub enum TryPushError<T> {
    /// The value that could not be written because the queue is full.
    Full(T),
}

impl<T> TryPushError<T> {
    /// The message of the error.
    pub fn to_string(&self) -> (message: String)
        ensures
            message@ == "queue is full"@,
    {
        match self {
            TryPushError::Full(_) => "queue is full".to_owned(),
        }
    }
}

} // verus!
