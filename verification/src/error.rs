//! The error taxonomy of the envelope operations.

use vstd::prelude::*;

verus! {

/// Everything that can go wrong while framing or unframing an envelope.
///
/// Header errors are raised by this crate's own decoders; `EncodeError` and
/// `DecodeError` report a failure of the external compression primitive
/// (corrupted or truncated compressed data, or a recorded size inconsistent
/// with what the primitive produced).
#[derive(Clone, Copy, Debug, PartialEq, Eq, Structural)]
pub enum Lz4Error {
    /// Fewer bytes than a complete fixed header.
    MalformedHeader,
    /// A header version other than the one defined layout.
    UnsupportedVersion,
    /// An encoding code outside the closed tag set.
    UnknownEncoding,
    /// A size varint whose byte stream ended before a terminating byte.
    TruncatedVarint,
    /// A size varint that consumed more groups than a 32-bit length needs.
    VarintTooLong,
    /// The external compression primitive failed.
    EncodeError,
    /// The external decompression primitive failed.
    DecodeError,
}

} // verus!
