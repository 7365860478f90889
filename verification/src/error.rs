use vstd::prelude::*;

verus! {

/// Every way an operation on the PNG container can fail.
#[derive(Clone, Copy, PartialEq, Eq, Structural, Debug)]
pub enum PngError {
    /// A chunk type code is not four ASCII alphabetic bytes.
    InvalidTypeBytes,
    /// A chunk declares more data than the buffer holds, or a buffer is
    /// too short to hold a whole chunk.
    Truncated,
    /// The CRC stored with a chunk differs from the CRC of its type and data.
    CrcMismatch,
    /// A buffer does not begin with the fixed eight-byte PNG signature.
    SignatureMismatch,
    /// No chunk of the requested type is present.
    NotFound,
    /// A chunk's data is not valid UTF-8 text.
    InvalidUtf8,
}

} // verus!
