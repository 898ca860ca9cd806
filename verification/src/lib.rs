//! A verified codec for the PNG container format: chunk type codes with
//! their bit-flag semantics, single chunks with CRC-32 integrity, and the
//! full signature-prefixed chunk list.

use vstd::prelude::*;

pub mod chunk;
pub mod chunk_type;
pub mod png;
pub mod utils;

verus! {

/// Everything that can go wrong while decoding PNG data or building a
/// chunk-type code. Each parsing operation is all-or-nothing: on any of
/// these, no partial value is returned.
#[derive(Debug, Clone, Copy, PartialEq, Eq)]
pub enum PngError {
    /// Bytes outside the ASCII letter ranges in a chunk-type code, or a
    /// payload that is not valid UTF-8 where text was asked for.
    InvalidEncoding,
    /// A string meant as a chunk-type code whose encoding is not exactly
    /// four bytes long.
    InvalidLength,
    /// The buffer ends before a structurally required field (length
    /// header, type code, or CRC) is complete.
    Truncated,
    /// The buffer holds fewer payload bytes than the length header
    /// declares; `missing` says how many are absent.
    InsufficientBytes { missing: u32 },
    /// The stored CRC does not equal the CRC recomputed over the type and
    /// payload bytes.
    CrcMismatch { computed: u32, stored: u32 },
    /// The first eight bytes of a buffer differ from the fixed PNG magic.
    InvalidSignature,
    /// No chunk of the requested type is present.
    NotFound,
}

} // verus!
