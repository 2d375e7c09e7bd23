//! Errors raised by SSZ encoding, decoding and merkleization.
use vstd::prelude::*;

verus! {

/// Failure to encode a value.
#[derive(Debug, Clone, Copy, PartialEq, Eq)]
pub enum SerializeError {
    /// The encoding would be longer than the output can address.
    MaximumEncodedLengthExceeded(usize),
}

/// Failure to decode a value from bytes.
#[derive(Debug, Clone, Copy, PartialEq, Eq)]
pub enum DeserializeError {
    /// The input ended before the value was complete.
    ExpectedFurtherInput {
        /// Bytes supplied.
        provided: usize,
        /// Bytes the value needs.
        expected: usize,
    },
    /// The input holds bytes past the end of the value.
    AdditionalInput {
        /// Bytes supplied.
        provided: usize,
        /// Bytes the value needs.
        expected: usize,
    },
    /// A byte that is not a valid encoding of a boolean.
    InvalidByte(u8),
    /// A variable-size offset that points outside the input or backwards.
    InvalidOffset(usize),
    /// More items than the list or vector allows.
    TooManyItems {
        /// Items encoded.
        count: usize,
        /// Items allowed.
        limit: u64,
    },
    /// A vector encoding with the wrong number of items.
    WrongItemCount {
        /// Items encoded.
        count: usize,
        /// Items the vector holds.
        expected: u64,
    },
    /// A bitlist whose last byte lacks the length delimiter bit.
    MissingDelimiter,
}

/// Failure to compute a hash-tree-root.
#[derive(Debug, Clone, Copy, PartialEq, Eq)]
pub enum MerkleizationError {
    /// More chunks than the type's limit allows.
    InputExceedsLimit(usize),
}

/// The error a fixed-size decoder reports for an input of the wrong length.
pub open spec fn length_error(provided: usize, expected: usize) -> DeserializeError {
    if provided < expected {
        DeserializeError::ExpectedFurtherInput { provided, expected }
    } else {
        DeserializeError::AdditionalInput { provided, expected }
    }
}

/// Build the error for an input of `provided` bytes where `expected` are needed.
pub fn wrong_length(provided: usize, expected: usize) -> (e: DeserializeError)
    requires
        provided != expected,
    ensures
        e == length_error(provided, expected),
{
    if provided < expected {
        DeserializeError::ExpectedFurtherInput { provided, expected }
    } else {
        DeserializeError::AdditionalInput { provided, expected }
    }
}

} // verus!
