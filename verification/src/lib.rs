//! Reading, editing and writing the chunks of a PNG container.
//!
//! A container is an eight-byte signature followed by chunks; a chunk frames a
//! four-byte type code and a payload between a length and a CRC-32 checksum.

use vstd::prelude::*;

pub mod chunk;
pub mod chunk_type;
pub mod commands;
pub mod endian;
pub mod png;
pub mod text;

verus! {

/// Why an operation on a type code, a chunk or a container failed.
#[derive(Debug, Clone, Copy, PartialEq, Eq, Structural)]
pub enum Error {
    /// A buffer is too short, its signature or a declared length is wrong,
    /// or a type code's text is not four ASCII letters.
    FormatError,
    /// The checksum stored in a chunk is not the checksum of its type and payload.
    CorruptData,
    /// A payload asked for as text is not valid UTF-8.
    EncodingError,
    /// No chunk of the container has the type asked for.
    NotFound,
}

/// True when `result` is the outcome `model`: the same failure, or a success
/// with a value whose view is the value of `model`.
pub open spec fn same_outcome<T: View>(result: Result<T, Error>, model: Result<T::V, Error>) -> bool {
    match result {
        Ok(value) => model == Ok::<T::V, Error>(value@),
        Err(e) => model == Err::<T::V, Error>(e),
    }
}

} // verus!
