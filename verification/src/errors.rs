//! Errors of the wire protocol.

use vstd::prelude::*;

verus! {

/// What can go wrong when a request is decoded.
#[derive(Debug, Clone, PartialEq)]
pub enum MessageError {
    /// The request is not framed as the protocol asks: its leading token
    /// names no operation, or the `::` delimiter is missing. The text says
    /// which.
    InvalidFormat(String),
    /// The request is well framed but its argument count does not fit the
    /// operation.
    InvalidMessage(String),
}

/// What can go wrong when a snapshot is read back.
#[derive(Debug, Clone, Copy, PartialEq, Eq, Structural)]
pub enum SnapshotError {
    /// The text is not a snapshot as the format fixes it.
    Malformed,
    /// The text names one key twice.
    DuplicateKey,
}

impl MessageError {
    /// The text carried by the error.
    pub fn text(&self) -> (r: &String)
        ensures
            r@ == match self {
                MessageError::InvalidFormat(t) => t@,
                MessageError::InvalidMessage(t) => t@,
            },
    {
        match self {
            MessageError::InvalidFormat(t) => t,
            MessageError::InvalidMessage(t) => t,
        }
    }
}

} // verus!
