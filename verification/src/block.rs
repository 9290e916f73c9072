//! The block operations: build or parse an envelope header, run the external
//! LZ4 block primitive on the remaining buffer region, and finalize the
//! output buffer to the real length.

use vstd::prelude::*;
use vstd::slice::slice_subrange;
use crate::buffer::MutableBuffer;
use crate::encoding::Encoding;
use crate::encoding::enc_code;
use crate::error::Lz4Error;
use crate::header::FIXED_HEADER_SIZE;
use crate::header::Header;
use crate::header::fixed_bytes;
use crate::header::lemma_fixed_header_round_trip;
use crate::header::lemma_varint_header_round_trip;
use crate::header::spec_decode_fixed;
use crate::header::spec_decode_varint_header;
use crate::header::spec_new;
use crate::header::varint_header_bytes;
use vstd::arithmetic::div_mod::lemma_fundamental_div_mod;

verus! {

/// What the LZ4 block primitive produces for a payload. The compressed form
/// is a deterministic function of the input bytes alone; its exact content
/// is the external collaborator's business, so it is only named here.
pub uninterp spec fn lz4_compressed(src: Seq<u8>) -> Seq<u8>;

/// The worst-case output bound the primitive's sizing helper computes for an
/// input length.
pub open spec fn max_compressed_size_spec(len: int) -> int {
    20 + len * 110 / 100
}

/// Relies on lz4_flex::block::get_maximum_output_size: for input lengths
/// whose bound fits the platform word, it returns exactly the arithmetic
/// formula it is written as.
pub assume_specification[ lz4_flex::block::get_maximum_output_size ](input_len: usize) -> (r:
    usize)
    requires
        input_len <= 0xFFFF_FFFF,
        max_compressed_size_spec(input_len as int) <= usize::MAX,
    ensures
        r == max_compressed_size_spec(input_len as int),
;

/// Relies on lz4_flex::block::compress_into: it writes the LZ4 block
/// compression of `src` — a deterministic function of the input bytes —
/// into the region of `dst` after `offset`, reports the number of bytes
/// written, and fails, before writing anything, exactly when that region is
/// smaller than the sizing helper's bound for `src`.
#[verifier::external_body]
fn lz4_compress_into(src: &[u8], dst: &mut MutableBuffer, offset: usize) -> (r: Result<
    usize,
    Lz4Error,
>)
    requires
        old(dst).wf(),
        offset <= old(dst).capacity_spec(),
        src@.len() <= 0xFFFF_FFFF,
        max_compressed_size_spec(src@.len() as int) <= usize::MAX,
    ensures
        final(dst).wf(),
        final(dst).logical() == old(dst).logical(),
        final(dst).phys().len() == old(dst).phys().len(),
        final(dst).phys().subrange(0, offset as int) == old(dst).phys().subrange(
            0,
            offset as int,
        ),
        r is Ok <==> old(dst).capacity_spec() - offset >= max_compressed_size_spec(
            src@.len() as int,
        ),
        r is Err ==> r->Err_0 == Lz4Error::EncodeError && final(dst).phys() == old(dst).phys(),
        r is Ok ==> offset + r->Ok_0 <= final(dst).phys().len() && r->Ok_0 == lz4_compressed(
            src@,
        ).len() && final(dst).phys().subrange(offset as int, offset + r->Ok_0)
            == lz4_compressed(src@),
{
    match lz4_flex::block::compress_into(src, &mut dst.data[offset..]) {
        Ok(n) => Ok(n),
        Err(_) => Err(Lz4Error::EncodeError),
    }
}

/// Decompression restored the payload: whenever the source bytes are the
/// compressed form of a payload whose length is exactly the region's
/// capacity, the call succeeded with that length and the region now holds
/// the payload.
pub open spec fn decompress_restores(
    src: Seq<u8>,
    cap: nat,
    r: Result<usize, Lz4Error>,
    out: Seq<u8>,
) -> bool {
    forall|p: Seq<u8>|
        src == #[trigger] lz4_compressed(p) && p.len() == cap ==> r == Ok::<usize, Lz4Error>(
            p.len() as usize,
        ) && out == p
}

/// Relies on lz4_flex::block::decompress_into: decompressing what the
/// primitive compressed from a payload, into a region of exactly that
/// payload's length, restores the payload — the block format is lossless.
/// Every failure of the primitive is reported as `DecodeError`.
#[verifier::external_body]
fn lz4_decompress_into(src: &[u8], dst: &mut MutableBuffer) -> (r: Result<usize, Lz4Error>)
    requires
        old(dst).wf(),
    ensures
        final(dst).wf(),
        final(dst).logical() == old(dst).logical(),
        final(dst).phys().len() == old(dst).phys().len(),
        r is Err ==> r->Err_0 == Lz4Error::DecodeError,
        r is Ok ==> r->Ok_0 <= final(dst).phys().len(),
        decompress_restores(src@, old(dst).phys().len(), r, final(dst).phys()),
{
    match lz4_flex::block::decompress_into(src, &mut dst.data) {
        Ok(n) => Ok(n),
        Err(_) => Err(Lz4Error::DecodeError),
    }
}

/// A complete fixed-form envelope for a payload and its tag: the eight-byte
/// header recording the current version, the tag and the payload length,
/// followed by the compressed block.
pub open spec fn is_fixed_envelope(blob: Seq<u8>, p: Seq<u8>, e: Encoding) -> bool {
    &&& p.len() <= 0xFFFF_FFFF
    &&& blob == fixed_bytes(spec_new(p.len() as u32, e)) + lz4_compressed(p)
}

/// A complete compact-form envelope for a payload: the varint header
/// recording the current version, the generic binary tag and the payload
/// length, followed by the compressed block.
pub open spec fn is_varint_envelope(blob: Seq<u8>, p: Seq<u8>) -> bool {
    &&& p.len() <= 0xFFFF_FFFF
    &&& blob == varint_header_bytes(spec_new(p.len() as u32, Encoding::Binary)) + lz4_compressed(
        p,
    )
}

/// A header synthesized for an encoding tag is well formed, carries the
/// current version, and records exactly the tag and size it was built from.
pub proof fn lemma_spec_new_wf(size: u32, e: Encoding)
    ensures
        spec_new(size, e).wf(),
        spec_new(size, e).metadata.version_spec() == 1,
        spec_new(size, e).metadata.code_spec() == enc_code(e),
        spec_new(size, e).encoding_spec() == e,
        spec_new(size, e).size == size,
{
    let m = spec_new(size, e).metadata.0;
    assert(m == 16 + enc_code(e));
    lemma_fundamental_div_mod(m as int, 16);
}

/// Round trip, fixed form: a fixed envelope for a payload and tag decodes to
/// exactly the header that was written for them, and everything after the
/// eight header bytes is the compressed block. Together with the contracts
/// of `compress` and `decompress`, this is the round-trip law: decompressing
/// what `compress` produced restores the payload and its tag.
pub proof fn lemma_fixed_envelope_decodes(blob: Seq<u8>, p: Seq<u8>, e: Encoding)
    requires
        is_fixed_envelope(blob, p, e),
    ensures
        spec_decode_fixed(blob) == Ok::<(Header, int), Lz4Error>((spec_new(p.len() as u32, e), 8)),
        spec_new(p.len() as u32, e).size == p.len(),
        spec_new(p.len() as u32, e).encoding_spec() == e,
        blob.skip(8) == lz4_compressed(p),
{
    lemma_spec_new_wf(p.len() as u32, e);
    lemma_fixed_header_round_trip(spec_new(p.len() as u32, e), lz4_compressed(p));
    assert(blob.skip(8) =~= lz4_compressed(p));
}

/// Round trip, compact form: a varint envelope for a payload decodes to
/// exactly the header that was written for it, and everything after the
/// header is the compressed block. Together with the contracts of
/// `compress_varint` and `decompress_varint`, this is the round-trip law for
/// the compact form, which preserves the payload and tags it binary.
pub proof fn lemma_varint_envelope_decodes(blob: Seq<u8>, p: Seq<u8>)
    requires
        is_varint_envelope(blob, p),
    ensures
        spec_decode_varint_header(blob) == Ok::<(Header, int), Lz4Error>(
            (
                spec_new(p.len() as u32, Encoding::Binary),
                varint_header_bytes(spec_new(p.len() as u32, Encoding::Binary)).len() as int,
            ),
        ),
        spec_new(p.len() as u32, Encoding::Binary).size == p.len(),
        spec_new(p.len() as u32, Encoding::Binary).encoding_spec() == Encoding::Binary,
        blob.skip(varint_header_bytes(spec_new(p.len() as u32, Encoding::Binary)).len() as int)
            == lz4_compressed(p),
{
    let h = spec_new(p.len() as u32, Encoding::Binary);
    lemma_spec_new_wf(p.len() as u32, Encoding::Binary);
    lemma_varint_header_round_trip(h, lz4_compressed(p));
    assert(blob.skip(varint_header_bytes(h).len() as int) =~= lz4_compressed(p));
}

/// Compresses a payload behind an already built header, in either header
/// form. The output buffer is sized to the worst case up front, the header
/// goes into its leading bytes, the primitive compresses into the rest, and
/// the buffer is finalized to what was actually used — so the call cannot
/// fail.
pub fn compress_with_header(header: &Header, input: &[u8], varint: bool) -> (r: Result<
    Vec<u8>,
    Lz4Error,
>)
    requires
        input@.len() <= 0xFFFF_FFFF,
        max_compressed_size_spec(input@.len() as int) + FIXED_HEADER_SIZE <= usize::MAX,
    ensures
        r is Ok,
        !varint ==> r->Ok_0@ == fixed_bytes(*header) + lz4_compressed(input@),
        varint ==> r->Ok_0@ == varint_header_bytes(*header) + lz4_compressed(input@),
{
    let bufsize = lz4_flex::block::get_maximum_output_size(input.len()) + FIXED_HEADER_SIZE;
    let mut output = MutableBuffer::allocate(bufsize);
    let header_len = if varint {
        header.write_varint_to(&mut output)
    } else {
        header.write_to(&mut output)
    };
    let ghost written = if varint {
        varint_header_bytes(*header)
    } else {
        fixed_bytes(*header)
    };
    let outsize = match lz4_compress_into(input, &mut output, header_len) {
        Ok(n) => n,
        Err(e) => {
            return Err(e);
        },
    };
    output.finalize(header_len + outsize);
    let result = output.into_vec();
    proof {
        assert(result@ =~= written + lz4_compressed(input@));
    }
    Ok(result)
}

/// Compresses a payload into a fixed-form envelope that records the
/// payload's encoding tag, so that decompression can restore both the bytes
/// and their interpretation.
pub fn compress(input: &[u8], encoding: Encoding) -> (r: Result<Vec<u8>, Lz4Error>)
    requires
        input@.len() <= 0xFFFF_FFFF,
        max_compressed_size_spec(input@.len() as int) + FIXED_HEADER_SIZE <= usize::MAX,
    ensures
        r is Ok,
        is_fixed_envelope(r->Ok_0@, input@, encoding),
{
    let header = Header::new(input.len() as u32, encoding);
    compress_with_header(&header, input, false)
}

/// Compresses a payload into a compact-form envelope. The compact header
/// does not carry the payload's own encoding: it always tags the payload as
/// generic binary — callers choosing this form accept that trade-off for
/// the smaller framing.
pub fn compress_varint(input: &[u8]) -> (r: Result<Vec<u8>, Lz4Error>)
    requires
        input@.len() <= 0xFFFF_FFFF,
        max_compressed_size_spec(input@.len() as int) + FIXED_HEADER_SIZE <= usize::MAX,
    ensures
        r is Ok,
        is_varint_envelope(r->Ok_0@, input@),
{
    let header = Header::new(input.len() as u32, Encoding::Binary);
    compress_with_header(&header, input, true)
}

/// Decompresses a block behind an already parsed header: the output buffer
/// is sized to exactly the recorded original length, the primitive fills
/// it, and the buffer is finalized to that length. A compressed block that
/// the primitive rejects — corrupted, truncated, or inconsistent with the
/// recorded length — is a `DecodeError`.
pub fn decompress_with_header(header: &Header, input: &[u8]) -> (r: Result<Vec<u8>, Lz4Error>)
    ensures
        r is Err ==> r->Err_0 == Lz4Error::DecodeError,
        r is Ok ==> r->Ok_0@.len() == header.size,
        forall|p: Seq<u8>|
            input@ == #[trigger] lz4_compressed(p) && p.len() == header.size ==> r is Ok
                && r->Ok_0@ == p,
{
    let mut output = MutableBuffer::allocate(header.size as usize);
    match lz4_decompress_into(input, &mut output) {
        Ok(_) => {},
        Err(e) => {
            return Err(e);
        },
    }
    output.finalize(header.size as usize);
    let result = output.into_vec();
    proof {
        assert(result@ =~= output.phys());
    }
    Ok(result)
}

/// Decompresses a fixed-form envelope: parses the eight-byte header from the
/// start of the blob, decompresses the remainder into a buffer of exactly
/// the recorded length, and returns the payload with its recorded encoding
/// tag. Header errors are reported exactly as the header decoder defines
/// them; a header that parses but a block the primitive rejects is a
/// `DecodeError`.
pub fn decompress(input: &[u8]) -> (r: Result<(Vec<u8>, Encoding), Lz4Error>)
    ensures
        spec_decode_fixed(input@) is Err ==> r is Err && r->Err_0 == spec_decode_fixed(
            input@,
        )->Err_0,
        spec_decode_fixed(input@) is Ok ==> (r is Err ==> r->Err_0 == Lz4Error::DecodeError),
        spec_decode_fixed(input@) is Ok ==> (r is Ok ==> r->Ok_0.0@.len() == spec_decode_fixed(
            input@,
        )->Ok_0.0.size && r->Ok_0.1 == spec_decode_fixed(input@)->Ok_0.0.encoding_spec()),
        forall|p: Seq<u8>, e: Encoding|
            #[trigger] is_fixed_envelope(input@, p, e) ==> r is Ok && r->Ok_0.0@ == p
                && r->Ok_0.1 == e,
{
    let (header, used) = match Header::from_bytes(input) {
        Ok(hu) => hu,
        Err(err) => {
            proof {
                assert forall|p: Seq<u8>, e: Encoding|
                    !#[trigger] is_fixed_envelope(input@, p, e) by {
                    if is_fixed_envelope(input@, p, e) {
                        lemma_fixed_envelope_decodes(input@, p, e);
                    }
                }
            }
            return Err(err);
        },
    };
    let rest = slice_subrange(input, used, input.len());
    let payload = match decompress_with_header(&header, rest) {
        Ok(v) => v,
        Err(err) => {
            proof {
                assert forall|p: Seq<u8>, e: Encoding|
                    !#[trigger] is_fixed_envelope(input@, p, e) by {
                    if is_fixed_envelope(input@, p, e) {
                        lemma_fixed_envelope_decodes(input@, p, e);
                        assert(rest@ =~= lz4_compressed(p));
                    }
                }
            }
            return Err(err);
        },
    };
    let enc = header.encoding();
    proof {
        assert forall|p: Seq<u8>, e: Encoding|
            #[trigger] is_fixed_envelope(input@, p, e) implies payload@ == p && enc == e by {
            lemma_fixed_envelope_decodes(input@, p, e);
            assert(rest@ =~= lz4_compressed(p));
        }
    }
    Ok((payload, enc))
}

/// Decompresses a compact-form envelope: parses the metadata byte and size
/// varint from the start of the blob, decompresses the remainder into a
/// buffer of exactly the recorded length, and returns the payload with the
/// tag the metadata carries. Header errors are reported exactly as the
/// varint decoder defines them; a header that parses but a block the
/// primitive rejects is a `DecodeError`.
pub fn decompress_varint(input: &[u8]) -> (r: Result<(Vec<u8>, Encoding), Lz4Error>)
    ensures
        spec_decode_varint_header(input@) is Err ==> r is Err && r->Err_0
            == spec_decode_varint_header(input@)->Err_0,
        spec_decode_varint_header(input@) is Ok ==> (r is Err ==> r->Err_0
            == Lz4Error::DecodeError),
        spec_decode_varint_header(input@) is Ok ==> (r is Ok ==> r->Ok_0.0@.len()
            == spec_decode_varint_header(input@)->Ok_0.0.size && r->Ok_0.1
            == spec_decode_varint_header(input@)->Ok_0.0.encoding_spec()),
        forall|p: Seq<u8>|
            #[trigger] is_varint_envelope(input@, p) ==> r is Ok && r->Ok_0.0@ == p && r->Ok_0.1
                == Encoding::Binary,
{
    let (header, used) = match Header::from_varint(input) {
        Ok(hu) => hu,
        Err(err) => {
            proof {
                assert forall|p: Seq<u8>| !#[trigger] is_varint_envelope(input@, p) by {
                    if is_varint_envelope(input@, p) {
                        lemma_varint_envelope_decodes(input@, p);
                    }
                }
            }
            return Err(err);
        },
    };
    let rest = slice_subrange(input, used, input.len());
    let payload = match decompress_with_header(&header, rest) {
        Ok(v) => v,
        Err(err) => {
            proof {
                assert forall|p: Seq<u8>| !#[trigger] is_varint_envelope(input@, p) by {
                    if is_varint_envelope(input@, p) {
                        lemma_varint_envelope_decodes(input@, p);
                        assert(rest@ =~= lz4_compressed(p));
                    }
                }
            }
            return Err(err);
        },
    };
    let enc = header.encoding();
    proof {
        assert forall|p: Seq<u8>|
            #[trigger] is_varint_envelope(input@, p) implies payload@ == p && enc
            == Encoding::Binary by {
            lemma_varint_envelope_decodes(input@, p);
            assert(rest@ =~= lz4_compressed(p));
        }
    }
    Ok((payload, enc))
}

} // verus!
