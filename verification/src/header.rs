//! The envelope header codec: a fixed eight-byte variant parsed at constant
//! offsets, and a compact variant of one packed metadata byte followed by the
//! size as a little-endian base-128 varint.

use vstd::prelude::*;
use vstd::arithmetic::div_mod::lemma_fundamental_div_mod;
use vstd::arithmetic::div_mod::lemma_multiply_divide_lt;
use vstd::slice::slice_index_get;
use crate::buffer::MutableBuffer;
use crate::encoding::Encoding;
use crate::encoding::enc_code;
use crate::encoding::enc_of_code;
use crate::encoding::is_known_code;
use crate::error::Lz4Error;

verus! {

/// The on-wire size of the fixed header variant, independent of the payload.
pub const FIXED_HEADER_SIZE: usize = 8;

/// The one header layout this crate defines; any other version is a decode
/// error, which is the extension point for future layouts.
pub const CURRENT_VERSION: u8 = 1;

/// A four-bit version and a four-bit encoding code packed into one byte,
/// version in the high nibble. This is the in-memory form of the metadata
/// and the first byte of the compact header variant.
#[derive(Clone, Copy, Debug, PartialEq, Eq, Structural)]
pub struct VersionAndEncoding(pub u8);

impl VersionAndEncoding {
    /// The version held in the high nibble.
    pub open spec fn version_spec(self) -> u8 {
        (self.0 / 16) as u8
    }

    /// The encoding code held in the low nibble.
    pub open spec fn code_spec(self) -> u8 {
        (self.0 % 16) as u8
    }

    /// The low nibble denotes a member of the closed tag set.
    pub open spec fn wf(self) -> bool {
        is_known_code(self.code_spec())
    }

    /// Packs a version and an encoding tag into one byte.
    pub fn new(version: u8, encoding: Encoding) -> (r: VersionAndEncoding)
        requires
            version <= 15,
        ensures
            r.0 == version * 16 + enc_code(encoding),
            r.version_spec() == version,
            r.code_spec() == enc_code(encoding),
            r.wf(),
    {
        let r = VersionAndEncoding(version * 16 + encoding.code());
        proof {
            lemma_fundamental_div_mod(r.0 as int, 16);
        }
        r
    }

    /// The version held in the high nibble.
    pub fn version(&self) -> (r: u8)
        ensures
            r == self.version_spec(),
    {
        self.0 / 16
    }

    /// The encoding tag held in the low nibble.
    pub fn encoding(&self) -> (r: Encoding)
        requires
            self.wf(),
        ensures
            r == enc_of_code(self.code_spec()),
            enc_code(r) == self.code_spec(),
    {
        let c = self.0 % 16;
        if c == 0 {
            Encoding::Utf8
        } else if c == 1 {
            Encoding::Binary
        } else {
            Encoding::UsAscii
        }
    }
}

/// The envelope metadata: version, encoding tag and decompressed size.
/// A header is built transiently per call — synthesized on the compression
/// path, parsed from wire bytes on the decompression path — and its `size`
/// always records the decompressed payload length, never the compressed one.
#[derive(Clone, Copy, Debug, PartialEq, Eq, Structural)]
pub struct Header {
    pub metadata: VersionAndEncoding,
    pub size: u32,
}

/// The header a compression call synthesizes: the current version packed
/// with the payload's encoding tag, and the payload length as the size.
pub open spec fn spec_new(size: u32, encoding: Encoding) -> Header {
    Header { metadata: VersionAndEncoding((16 + enc_code(encoding)) as u8), size }
}

/// The value of four little-endian bytes of `s` starting at `off`.
pub open spec fn le32_at(s: Seq<u8>, off: int) -> int
    recommends
        0 <= off,
        off + 4 <= s.len(),
{
    s[off] + s[off + 1] * 256 + s[off + 2] * 65536 + s[off + 3] * 16777216
}

/// The eight bytes of the fixed header variant: version, encoding code, two
/// reserved zero bytes, and the size in four little-endian bytes.
pub open spec fn fixed_bytes(h: Header) -> Seq<u8> {
    seq![
        h.metadata.version_spec(),
        h.metadata.code_spec(),
        0u8,
        0u8,
        (h.size % 256) as u8,
        ((h.size / 256) % 256) as u8,
        ((h.size / 65536) % 256) as u8,
        ((h.size / 16777216) % 256) as u8,
    ]
}

/// The little-endian base-128 groups of a size value: seven value bits per
/// byte, least-significant group first, continuation bit set on all but the
/// last group.
pub open spec fn varint_bytes(n: nat) -> Seq<u8>
    decreases n,
{
    if n < 128 {
        seq![n as u8]
    } else {
        seq![(128 + n % 128) as u8] + varint_bytes(n / 128)
    }
}

/// The bytes of the compact header variant: the packed metadata byte
/// followed by the size varint.
pub open spec fn varint_header_bytes(h: Header) -> Seq<u8> {
    seq![h.metadata.0] + varint_bytes(h.size as nat)
}

/// What decoding the fixed header variant from a byte prefix yields: the
/// header and the number of bytes consumed, or the exact error.
pub open spec fn spec_decode_fixed(bytes: Seq<u8>) -> Result<(Header, int), Lz4Error> {
    if bytes.len() < 8 {
        Err(Lz4Error::MalformedHeader)
    } else if bytes[0] != 1 {
        Err(Lz4Error::UnsupportedVersion)
    } else if !is_known_code(bytes[1]) {
        Err(Lz4Error::UnknownEncoding)
    } else {
        Ok(
            (
                Header {
                    metadata: VersionAndEncoding((16 + bytes[1]) as u8),
                    size: le32_at(bytes, 4) as u32,
                },
                8,
            ),
        )
    }
}

/// What decoding a size varint yields: the value and the number of groups
/// consumed, or the exact error. A stream that ends before a terminating
/// byte is truncated; one that would need more groups than `budget` is too
/// long.
pub open spec fn spec_decode_varint_groups(bytes: Seq<u8>, budget: nat) -> Result<
    (nat, nat),
    Lz4Error,
>
    decreases budget,
{
    if bytes.len() == 0 {
        Err(Lz4Error::TruncatedVarint)
    } else if budget == 0 {
        Err(Lz4Error::VarintTooLong)
    } else if bytes[0] < 128 {
        Ok((bytes[0] as nat, 1))
    } else {
        match spec_decode_varint_groups(bytes.skip(1), (budget - 1) as nat) {
            Ok(vc) => Ok((((bytes[0] - 128) + 128 * vc.0) as nat, vc.1 + 1)),
            Err(e) => Err(e),
        }
    }
}

/// What decoding the compact header variant yields: the header and the
/// number of bytes consumed, or the exact error. A 32-bit size needs at most
/// five groups; the accumulated value is reduced modulo 2^32, as the
/// fixed-width size field dictates.
pub open spec fn spec_decode_varint_header(bytes: Seq<u8>) -> Result<(Header, int), Lz4Error> {
    if bytes.len() == 0 {
        Err(Lz4Error::MalformedHeader)
    } else if bytes[0] / 16 != 1 {
        Err(Lz4Error::UnsupportedVersion)
    } else if !is_known_code((bytes[0] % 16) as u8) {
        Err(Lz4Error::UnknownEncoding)
    } else {
        match spec_decode_varint_groups(bytes.skip(1), 5) {
            Ok(vc) => Ok(
                (
                    Header {
                        metadata: VersionAndEncoding(bytes[0]),
                        size: (vc.0 % 0x1_0000_0000) as u32,
                    },
                    1 + vc.1 as int,
                ),
            ),
            Err(e) => Err(e),
        }
    }
}

impl Header {
    /// The low nibble of the metadata denotes a member of the closed tag set.
    pub open spec fn wf(self) -> bool {
        self.metadata.wf()
    }

    /// The encoding tag recorded in the metadata.
    pub open spec fn encoding_spec(self) -> Encoding {
        enc_of_code(self.metadata.code_spec())
    }

    /// A fresh header for a payload of `size` bytes in the given encoding,
    /// at the current version.
    pub fn new(size: u32, encoding: Encoding) -> (r: Header)
        ensures
            r == spec_new(size, encoding),
            r.wf(),
            r.metadata.version_spec() == 1,
            r.metadata.code_spec() == enc_code(encoding),
            r.size == size,
    {
        Header { metadata: VersionAndEncoding::new(1, encoding), size }
    }

    /// The encoding tag recorded in the metadata.
    pub fn encoding(&self) -> (r: Encoding)
        requires
            self.wf(),
        ensures
            r == self.encoding_spec(),
            enc_code(r) == self.metadata.code_spec(),
    {
        self.metadata.encoding()
    }

    /// Writes the fixed eight-byte variant of this header into the leading
    /// bytes of the buffer and reports how many bytes it used — always eight.
    pub fn write_to(&self, buf: &mut MutableBuffer) -> (r: usize)
        requires
            old(buf).wf(),
            old(buf).capacity_spec() >= 8,
        ensures
            final(buf).wf(),
            final(buf).logical() == old(buf).logical(),
            final(buf).phys().len() == old(buf).phys().len(),
            r == 8,
            final(buf).phys().subrange(0, 8) == fixed_bytes(*self),
            final(buf).phys().skip(8) == old(buf).phys().skip(8),
    {
        buf.write_at(0, self.metadata.version());
        buf.write_at(1, self.metadata.0 % 16);
        buf.write_at(2, 0);
        buf.write_at(3, 0);
        let s = self.size;
        buf.write_at(4, (s % 256) as u8);
        buf.write_at(5, ((s / 256) % 256) as u8);
        buf.write_at(6, ((s / 65536) % 256) as u8);
        buf.write_at(7, ((s / 16777216) % 256) as u8);
        proof {
            assert(buf.phys().subrange(0, 8) =~= fixed_bytes(*self));
            assert(buf.phys().skip(8) =~= old(buf).phys().skip(8));
        }
        8
    }

    /// Parses the fixed eight-byte variant from the start of `bytes`,
    /// yielding the header and the number of bytes consumed. Fewer than
    /// eight bytes are malformed; a version other than the current one and
    /// an encoding code outside the closed set are each rejected with their
    /// own error.
    pub fn from_bytes(bytes: &[u8]) -> (r: Result<(Header, usize), Lz4Error>)
        ensures
            r is Ok <==> spec_decode_fixed(bytes@) is Ok,
            r is Ok ==> r->Ok_0.0 == spec_decode_fixed(bytes@)->Ok_0.0,
            r is Ok ==> r->Ok_0.1 == spec_decode_fixed(bytes@)->Ok_0.1,
            r is Err ==> r->Err_0 == spec_decode_fixed(bytes@)->Err_0,
            r is Ok ==> r->Ok_0.0.wf() && r->Ok_0.1 == 8,
    {
        if bytes.len() < 8 {
            return Err(Lz4Error::MalformedHeader);
        }
        let version = *slice_index_get(bytes, 0);
        if version != 1 {
            return Err(Lz4Error::UnsupportedVersion);
        }
        let code = *slice_index_get(bytes, 1);
        let encoding = match Encoding::from_u8(code) {
            Ok(e) => e,
            Err(e) => {
                return Err(e);
            },
        };
        let b4 = *slice_index_get(bytes, 4);
        let b5 = *slice_index_get(bytes, 5);
        let b6 = *slice_index_get(bytes, 6);
        let b7 = *slice_index_get(bytes, 7);
        let size: u32 = (b4 as u32) + (b5 as u32) * 256 + (b6 as u32) * 65536 + (b7 as u32)
            * 16777216;
        Ok((Header { metadata: VersionAndEncoding::new(1, encoding), size }, 8))
    }

    /// Writes the compact variant of this header — the packed metadata byte
    /// followed by the size varint — into the leading bytes of the buffer
    /// and reports how many bytes it used (two to six).
    pub fn write_varint_to(&self, buf: &mut MutableBuffer) -> (r: usize)
        requires
            old(buf).wf(),
            old(buf).capacity_spec() >= 6,
        ensures
            final(buf).wf(),
            final(buf).logical() == old(buf).logical(),
            final(buf).phys().len() == old(buf).phys().len(),
            2 <= r <= 6,
            r == varint_header_bytes(*self).len(),
            final(buf).phys().subrange(0, r as int) == varint_header_bytes(*self),
            final(buf).phys().skip(r as int) == old(buf).phys().skip(r as int),
    {
        proof {
            lemma_varint_bytes_len(self.size as nat);
        }
        buf.write_at(0, self.metadata.0);
        let mut val: u32 = self.size;
        let mut index: usize = 1;
        while val >= 128
            invariant
                old(buf).wf(),
                buf.wf(),
                buf.logical() == old(buf).logical(),
                buf.phys().len() == old(buf).phys().len(),
                buf.phys().len() >= 6,
                1 <= index <= 5,
                buf.phys()[0] == self.metadata.0,
                varint_bytes(self.size as nat) == buf.phys().subrange(1, index as int)
                    + varint_bytes(val as nat),
                index - 1 + varint_bytes(val as nat).len() == varint_bytes(self.size as nat).len(),
                varint_bytes(self.size as nat).len() <= 5,
                forall|j: int|
                    index <= j < buf.phys().len() ==> buf.phys()[j] == old(buf).phys()[j],
            decreases val,
        {
            proof {
                lemma_varint_bytes_len(val as nat);
            }
            let ghost prev_phys = buf.phys();
            let ghost prev_val = val as nat;
            buf.write_at(index, (val % 128 + 128) as u8);
            val = val / 128;
            index = index + 1;
            proof {
                lemma_varint_bytes_len(val as nat);
                assert(varint_bytes(prev_val) == seq![(128 + prev_val % 128) as u8]
                    + varint_bytes(prev_val / 128));
                assert(buf.phys().subrange(1, index as int) =~= prev_phys.subrange(
                    1,
                    index - 1,
                ) + seq![(128 + prev_val % 128) as u8]);
                assert(varint_bytes(self.size as nat) == buf.phys().subrange(1, index as int)
                    + varint_bytes(val as nat));
            }
        }
        let ghost prev_phys = buf.phys();
        buf.write_at(index, val as u8);
        let r = index + 1;
        proof {
            assert(varint_bytes(val as nat) == seq![val as u8]);
            assert(buf.phys().subrange(1, r as int) =~= prev_phys.subrange(1, index as int)
                + seq![val as u8]);
            assert(buf.phys().subrange(0, r as int) =~= seq![self.metadata.0]
                + buf.phys().subrange(1, r as int));
            assert(buf.phys().subrange(0, r as int) == varint_header_bytes(*self));
            assert(buf.phys().skip(r as int) =~= old(buf).phys().skip(r as int));
        }
        r
    }

    /// Parses the compact variant from the start of `bytes`, yielding the
    /// header and the number of bytes consumed. The version and encoding
    /// nibbles are checked as in the fixed variant; the size varint must
    /// terminate within the bytes available and within five groups.
    pub fn from_varint(bytes: &[u8]) -> (r: Result<(Header, usize), Lz4Error>)
        ensures
            r is Ok <==> spec_decode_varint_header(bytes@) is Ok,
            r is Ok ==> r->Ok_0.0 == spec_decode_varint_header(bytes@)->Ok_0.0,
            r is Ok ==> r->Ok_0.1 == spec_decode_varint_header(bytes@)->Ok_0.1,
            r is Err ==> r->Err_0 == spec_decode_varint_header(bytes@)->Err_0,
            r is Ok ==> r->Ok_0.0.wf() && 2 <= r->Ok_0.1 <= 6 && r->Ok_0.1 <= bytes@.len(),
    {
        if bytes.len() == 0 {
            return Err(Lz4Error::MalformedHeader);
        }
        let meta = *slice_index_get(bytes, 0);
        if meta / 16 != 1 {
            return Err(Lz4Error::UnsupportedVersion);
        }
        let code = meta % 16;
        if !(code == 0 || code == 1 || code == 2) {
            return Err(Lz4Error::UnknownEncoding);
        }
        let ghost tail = bytes@.skip(1);
        let mut acc: u64 = 0;
        let mut pow: u64 = 1;
        let mut i: usize = 0;
        proof {
            assert(tail.skip(0) =~= tail);
            match spec_decode_varint_groups(tail, 5) {
                Ok(vc) => {
                    assert((0 + 1 * vc.0) as nat == vc.0);
                },
                Err(_) => {},
            }
        }
        loop
            invariant
                bytes@.len() >= 1,
                tail == bytes@.skip(1),
                0 <= i <= 5,
                i + 1 <= bytes@.len(),
                pow == pow128(i as nat),
                pow <= 0x10000000000,
                acc < pow,
                bytes@[0] == meta,
                meta / 16 == 1,
                is_known_code((meta % 16) as u8),
                (match spec_decode_varint_groups(tail.skip(i as int), (5 - i) as nat) {
                    Ok(vc) => spec_decode_varint_groups(tail, 5) == Ok::<(nat, nat), Lz4Error>(
                        ((acc + pow * vc.0) as nat, (i + vc.1) as nat),
                    ),
                    Err(e) => spec_decode_varint_groups(tail, 5) == Err::<(nat, nat), Lz4Error>(e),
                }),
            decreases bytes@.len() - i,
        {
            proof {
                lemma_pow128_bounds(i as nat);
            }
            if 1 + i >= bytes.len() {
                proof {
                    assert(tail.skip(i as int).len() == 0);
                }
                return Err(Lz4Error::TruncatedVarint);
            }
            if i == 5 {
                proof {
                    assert(tail.skip(i as int).len() > 0);
                }
                return Err(Lz4Error::VarintTooLong);
            }
            let b = *slice_index_get(bytes, 1 + i);
            proof {
                assert(tail.skip(i as int)[0] == bytes@[1 + i as int]);
            }
            if b < 128 {
                proof {
                    assert(spec_decode_varint_groups(tail.skip(i as int), (5 - i) as nat)
                        == Ok::<(nat, nat), Lz4Error>((b as nat, 1)));
                    assert(pow as int * (b as int) < 0x8_0000_0000) by (nonlinear_arith)
                        requires
                            pow as int <= 0x1000_0000,
                            0 <= (b as int) < 128,
                    ;
                }
                let v64: u64 = acc + pow * (b as u64);
                let size: u32 = (v64 % 0x1_0000_0000) as u32;
                let used: usize = 2 + i;
                return Ok((Header { metadata: VersionAndEncoding(meta), size }, used));
            }
            let ghost prev_acc = acc as int;
            let ghost prev_pow = pow as int;
            proof {
                assert(pow as int * ((b as int) - 128) < 0x8_0000_0000) by (nonlinear_arith)
                    requires
                        pow as int <= 0x1000_0000,
                        0 <= (b as int) - 128 < 128,
                ;
            }
            acc = acc + pow * ((b - 128) as u64);
            pow = pow * 128;
            i = i + 1;
            proof {
                assert(tail.skip(i - 1).skip(1) =~= tail.skip(i as int));
                match spec_decode_varint_groups(tail.skip(i as int), (5 - i) as nat) {
                    Ok(vc) => {
                        assert(prev_pow * ((b - 128) + 128 * vc.0) == prev_pow * (b - 128) + (
                        prev_pow * 128) * vc.0) by (nonlinear_arith);
                    },
                    Err(_) => {},
                }
                assert(acc < pow) by {
                    assert(prev_acc < prev_pow);
                    assert(prev_pow * ((b - 128) as int) <= prev_pow * 127) by (nonlinear_arith)
                        requires (b - 128) as int <= 127 && prev_pow >= 0;
                    assert(prev_acc + prev_pow * 127 < prev_pow * 128) by (nonlinear_arith)
                        requires prev_acc < prev_pow && prev_pow >= 1;
                }
            }
        }
    }
}

/// 128 raised to `k`: the weight of the `k`-th varint group.
pub open spec fn pow128(k: nat) -> nat
    decreases k,
{
    if k == 0 {
        1nat
    } else {
        128 * pow128((k - 1) as nat)
    }
}

proof fn lemma_pow128_bounds(k: nat)
    requires
        k <= 5,
    ensures
        pow128(k) >= 1,
        pow128(k) <= 0x8_0000_0000,
        k <= 4 ==> pow128(k) <= 0x1000_0000,
        pow128(5) == 0x8_0000_0000,
{
    assert(pow128(0) == 1);
    assert(pow128(1) == 128);
    assert(pow128(2) == 16384);
    assert(pow128(3) == 2097152);
    assert(pow128(4) == 268435456);
    assert(pow128(5) == 34359738368);
}

/// Every varint has at least one byte; a value below 128 has exactly one;
/// a 32-bit value has at most five.
pub proof fn lemma_varint_bytes_len(n: nat)
    ensures
        1 <= varint_bytes(n).len(),
        n < 128 ==> varint_bytes(n).len() == 1,
        n < 0x1_0000_0000 ==> varint_bytes(n).len() <= 5,
    decreases n,
{
    if n >= 128 {
        lemma_varint_bytes_len(n / 128);
        if n < 0x1_0000_0000 {
            lemma_pow128_bounds(5);
            assert(n < pow128(5));
            lemma_varint_bytes_len_at_most(n, 5);
        }
    }
}

proof fn lemma_varint_bytes_len_at_most(n: nat, k: nat)
    requires
        1 <= k,
        n < pow128(k),
    ensures
        varint_bytes(n).len() <= k,
    decreases k,
{
    if n < 128 {
    } else {
        assert(pow128(k) == 128 * pow128((k - 1) as nat));
        assert(n / 128 < pow128((k - 1) as nat)) by {
            lemma_multiply_divide_lt(n as int, 128, pow128((k - 1) as nat) as int);
        }
        if k == 1 {
            assert(pow128(1) == 128);
        } else {
            lemma_varint_bytes_len_at_most(n / 128, (k - 1) as nat);
        }
    }
}

/// The exact length of a size varint, range by range: one byte per seven
/// bits of value.
pub proof fn lemma_varint_bytes_len_exact(n: nat)
    ensures
        n < 0x80 ==> varint_bytes(n).len() == 1,
        0x80 <= n < 0x4000 ==> varint_bytes(n).len() == 2,
        0x4000 <= n < 0x20_0000 ==> varint_bytes(n).len() == 3,
        0x20_0000 <= n < 0x1000_0000 ==> varint_bytes(n).len() == 4,
        0x1000_0000 <= n < 0x8_0000_0000 ==> varint_bytes(n).len() == 5,
    decreases n,
{
    if n >= 128 {
        lemma_varint_bytes_len_exact(n / 128);
        assert(n / 128 >= 1) by {
            lemma_fundamental_div_mod(n as int, 128);
        }
        if n < 0x4000 {
            lemma_multiply_divide_lt(n as int, 128, 0x80);
        } else if n < 0x20_0000 {
            lemma_multiply_divide_lt(n as int, 128, 0x4000);
            assert(n / 128 >= 0x80) by {
                lemma_fundamental_div_mod(n as int, 128);
            }
        } else if n < 0x1000_0000 {
            lemma_multiply_divide_lt(n as int, 128, 0x20_0000);
            assert(n / 128 >= 0x4000) by {
                lemma_fundamental_div_mod(n as int, 128);
            }
        } else if n < 0x8_0000_0000 {
            lemma_multiply_divide_lt(n as int, 128, 0x1000_0000);
            assert(n / 128 >= 0x20_0000) by {
                lemma_fundamental_div_mod(n as int, 128);
            }
        }
    }
}

/// The header size invariant: the fixed variant is exactly eight bytes
/// whatever the size; the compact variant is two bytes for sizes below 128
/// and grows by one byte per additional seven bits of size.
pub proof fn lemma_header_sizes(h: Header)
    ensures
        fixed_bytes(h).len() == 8,
        h.size < 0x80 ==> varint_header_bytes(h).len() == 2,
        0x80 <= h.size < 0x4000 ==> varint_header_bytes(h).len() == 3,
        0x4000 <= h.size < 0x20_0000 ==> varint_header_bytes(h).len() == 4,
        0x20_0000 <= h.size < 0x1000_0000 ==> varint_header_bytes(h).len() == 5,
        0x1000_0000 <= h.size ==> varint_header_bytes(h).len() == 6,
{
    lemma_varint_bytes_len_exact(h.size as nat);
}

/// The base-256 digits written by the fixed encoder recompose to the size.
proof fn lemma_le32_digits(x: u32)
    ensures
        (x % 256) + ((x / 256) % 256) * 256 + ((x / 65536) % 256) * 65536 + ((x / 16777216) % 256)
            * 16777216 == x,
{
    assert((x % 256) + ((x / 256) % 256) * 256 + ((x / 65536) % 256) * 65536 + ((x / 16777216)
        % 256) * 16777216 == x) by (bit_vector);
}

/// Round trip of the fixed header variant: decoding a fixed-encoded header,
/// whatever follows it, yields the same header back and consumes exactly
/// eight bytes — the reserved bytes written as zero included.
pub proof fn lemma_fixed_header_round_trip(h: Header, rest: Seq<u8>)
    requires
        h.wf(),
        h.metadata.version_spec() == 1,
    ensures
        spec_decode_fixed(fixed_bytes(h) + rest) == Ok::<(Header, int), Lz4Error>((h, 8)),
{
    let bytes = fixed_bytes(h) + rest;
    assert(bytes.len() >= 8);
    assert(bytes[0] == h.metadata.version_spec());
    assert(bytes[1] == h.metadata.code_spec());
    assert(h.metadata.0 == 16 + h.metadata.code_spec()) by {
        lemma_fundamental_div_mod(h.metadata.0 as int, 16);
    }
    lemma_le32_digits(h.size);
    assert(le32_at(bytes, 4) == h.size);
}

/// Round trip of the compact header variant: decoding a varint-encoded
/// header, whatever follows it, yields the same header back and consumes
/// exactly the header's length.
pub proof fn lemma_varint_header_round_trip(h: Header, rest: Seq<u8>)
    requires
        h.wf(),
        h.metadata.version_spec() == 1,
    ensures
        spec_decode_varint_header(varint_header_bytes(h) + rest) == Ok::<(Header, int), Lz4Error>(
            (h, varint_header_bytes(h).len() as int),
        ),
{
    let bytes = varint_header_bytes(h) + rest;
    assert(bytes[0] == h.metadata.0);
    assert(bytes[0] / 16 == 1);
    assert(is_known_code((bytes[0] % 16) as u8));
    assert(bytes.skip(1) =~= varint_bytes(h.size as nat) + rest);
    lemma_varint_bytes_len(h.size as nat);
    lemma_varint_groups_round_trip(h.size as nat, rest, 5);
    assert((h.size as nat % 0x1_0000_0000) as u32 == h.size);
}

/// Decoding the varint encoding of a value, whatever follows it, yields the
/// value back and consumes exactly the varint's bytes, for any group budget
/// that accommodates it.
pub proof fn lemma_varint_groups_round_trip(n: nat, rest: Seq<u8>, budget: nat)
    requires
        varint_bytes(n).len() <= budget,
    ensures
        spec_decode_varint_groups(varint_bytes(n) + rest, budget) == Ok::<(nat, nat), Lz4Error>(
            (n, varint_bytes(n).len()),
        ),
    decreases n,
{
    let bytes = varint_bytes(n) + rest;
    lemma_varint_bytes_len(n);
    if n < 128 {
        assert(bytes[0] == n as u8);
        assert(bytes[0] < 128);
    } else {
        assert(bytes[0] == (128 + n % 128) as u8);
        assert(128 + n % 128 <= 255);
        assert(bytes[0] >= 128);
        assert(bytes.skip(1) =~= varint_bytes(n / 128) + rest);
        lemma_varint_groups_round_trip(n / 128, rest, (budget - 1) as nat);
        assert((bytes[0] - 128) + 128 * (n / 128) == n) by {
            lemma_fundamental_div_mod(n as int, 128);
        }
    }
}

} // verus!
