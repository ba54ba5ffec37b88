use vstd::prelude::*;

verus! {

/// Why an operation on a chunk, a type code or a chunk stream failed.
#[derive(Clone, Copy, Debug, PartialEq, Eq, Structural)]
pub enum PngError {
    /// A type code that is not four ASCII letters with the reserved bit clear.
    InvalidFormat,
    /// The bytes end before a declared length is satisfied.
    Truncated,
    /// The stored checksum differs from the one computed over type and payload.
    ChecksumMismatch,
    /// The buffer does not begin with the PNG signature.
    BadSignature,
    /// No chunk has the requested type.
    NotFound,
    /// The payload is empty or is not UTF-8 text.
    NotText,
    /// A payload longer than a chunk's 32-bit length field can count.
    PayloadTooLarge,
    /// A single chunk was asked for, and bytes follow its checksum.
    TrailingBytes,
}

} // verus!
