//! The closed set of text-encoding tags that an envelope can record.

use vstd::prelude::*;
use crate::error::Lz4Error;

verus! {

/// The original text encoding of a payload, recorded in the envelope header
/// so that decompression can restore the payload's interpretation.
///
/// Each tag has a stable small-integer wire code; the code space 0–15 is
/// reserved (the compact header stores the code in four bits), and any code
/// outside the known set is a decode error, never a silently accepted default.
#[derive(Clone, Copy, Debug, PartialEq, Eq, Structural)]
pub enum Encoding {
    Utf8,
    Binary,
    UsAscii,
}

/// The stable wire code of an encoding tag.
pub open spec fn enc_code(e: Encoding) -> u8 {
    match e {
        Encoding::Utf8 => 0,
        Encoding::Binary => 1,
        Encoding::UsAscii => 2,
    }
}

/// Whether a wire code denotes a member of the closed tag set.
pub open spec fn is_known_code(c: u8) -> bool {
    c == 0 || c == 1 || c == 2
}

/// The tag a known wire code denotes.
pub open spec fn enc_of_code(c: u8) -> Encoding
    recommends
        is_known_code(c),
{
    if c == 0 {
        Encoding::Utf8
    } else if c == 1 {
        Encoding::Binary
    } else {
        Encoding::UsAscii
    }
}

impl Encoding {
    /// The wire code under which this tag appears in a header.
    pub fn code(self) -> (r: u8)
        ensures
            r == enc_code(self),
    {
        match self {
            Encoding::Utf8 => 0,
            Encoding::Binary => 1,
            Encoding::UsAscii => 2,
        }
    }

    /// Decodes a wire code back into a tag; a code outside the closed set is
    /// rejected as `UnknownEncoding`.
    pub fn from_u8(value: u8) -> (r: Result<Encoding, Lz4Error>)
        ensures
            is_known_code(value) ==> (r is Ok && enc_code(r->Ok_0) == value),
            !is_known_code(value) ==> r == Result::<Encoding, Lz4Error>::Err(Lz4Error::UnknownEncoding),
    {
        match value {
            0 => Ok(Encoding::Utf8),
            1 => Ok(Encoding::Binary),
            2 => Ok(Encoding::UsAscii),
            _ => Err(Lz4Error::UnknownEncoding),
        }
    }
}

} // verus!
