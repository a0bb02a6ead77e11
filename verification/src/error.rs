//! The failures that the engine reports.

use vstd::prelude::*;

verus! {

/// Why a channel operation, a decoding step or an evaluation failed.
#[derive(Clone, Copy, Debug, PartialEq, Eq, Structural)]
pub enum Error {
    /// Bytes were written to a channel that is already closed.
    ChannelClosed,
    /// The channel is closed and every byte written to it has been read.
    BrokenPipe,
    /// The document does not have the expected shape: an unexpected key, a
    /// value of the wrong kind, a missing field, or malformed JSON.
    ProtocolError,
    /// A matrix holds more than 36 elements, or a work item more than 5
    /// operations.
    CapacityExceeded,
    /// The `code` of an operation names no known operation.
    UnknownOperation,
    /// The sizes of the operands do not fit the operation, or the number of
    /// elements of a matrix is not a multiple of its column count.
    ShapeMismatch,
}

impl Error {
    /// A short description of the failure, for messages to the host.
    pub fn describe(&self) -> (text: &'static str)
        ensures
            text@ == self.description(),
    {
        match self {
            Error::ChannelClosed => "channel closed",
            Error::BrokenPipe => "broken pipe",
            Error::ProtocolError => "protocol error",
            Error::CapacityExceeded => "capacity exceeded",
            Error::UnknownOperation => "unknown operation",
            Error::ShapeMismatch => "shape mismatch",
        }
    }

    /// The text that `describe` returns.
    pub open spec fn description(&self) -> Seq<char> {
        match self {
            Error::ChannelClosed => "channel closed"@,
            Error::BrokenPipe => "broken pipe"@,
            Error::ProtocolError => "protocol error"@,
            Error::CapacityExceeded => "capacity exceeded"@,
            Error::UnknownOperation => "unknown operation"@,
            Error::ShapeMismatch => "shape mismatch"@,
        }
    }
}

} // verus!
