use vstd::prelude::*;

verus! {

/// Why a record or an instruction buffer could not be decoded or encoded.
#[derive(Debug, Clone, Copy, PartialEq, Eq, Structural)]
pub enum DecodeError {
    /// The buffer is shorter than the fixed length of the record.
    BufferTooShort,
    /// A flag byte holds a value other than 0 or 1.
    InvalidEncoding,
    /// An instruction buffer holds no bytes at all.
    EmptyBuffer,
    /// The leading byte of an instruction names no known operation.
    InvalidTag,
    /// A known operation is followed by fewer bytes than its payload needs.
    PayloadTooShort,
}

} // verus!
