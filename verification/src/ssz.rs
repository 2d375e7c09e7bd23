//! SSZ encoding, decoding and hash-tree-root support.
//!
//! Only fixed-size values are encoded here: basic unsigned integers,
//! booleans, byte vectors and containers built from them. A fixed-size value
//! encodes to the concatenation of its fields, and its hash-tree-root is the
//! merkle root of its fields' roots.
use vstd::prelude::*;

pub mod basic;
pub mod bitfield;
pub mod codec;
pub mod collection;
pub mod container;
pub mod error;
pub mod merkle;
pub mod sequence;

pub use collection::{Bitlist, Bitvector, List, Vector};
pub use error::{DeserializeError, MerkleizationError, SerializeError};
pub use merkle::{Node, merkleize_byte_sequence, merkleize_roots};

verus! {

/// Number of bytes in a merkle chunk.
pub const BYTES_PER_CHUNK: usize = 32;

/// Number of bytes in an SSZ variable-offset word.
pub const BYTES_PER_LENGTH_OFFSET: usize = 4;

} // verus!
