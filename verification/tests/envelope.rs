use lz4_flex_ext::Encoding;
use lz4_flex_ext::Header;
use lz4_flex_ext::Lz4Error;
use lz4_flex_ext::MutableBuffer;
use lz4_flex_ext::VersionAndEncoding;
use lz4_flex_ext::compress;
use lz4_flex_ext::compress_varint;
use lz4_flex_ext::decompress;
use lz4_flex_ext::decompress_varint;

#[test]
fn round_trip_fixed_utf8() {
    let payload = b"hello, envelope world! hello, envelope world!".to_vec();
    let blob = compress(&payload, Encoding::Utf8).unwrap();
    let (back, enc) = decompress(&blob).unwrap();
    assert_eq!(back, payload);
    assert_eq!(enc, Encoding::Utf8);
}

#[test]
fn round_trip_fixed_binary() {
    let payload: Vec<u8> = (0..=255u8).cycle().take(1000).collect();
    let blob = compress(&payload, Encoding::Binary).unwrap();
    let (back, enc) = decompress(&blob).unwrap();
    assert_eq!(back, payload);
    assert_eq!(enc, Encoding::Binary);
}

#[test]
fn round_trip_fixed_us_ascii() {
    let payload = b"plain ascii".to_vec();
    let blob = compress(&payload, Encoding::UsAscii).unwrap();
    let (back, enc) = decompress(&blob).unwrap();
    assert_eq!(back, payload);
    assert_eq!(enc, Encoding::UsAscii);
}

#[test]
fn round_trip_varint_preserves_payload() {
    let payload = b"compact headers carry the payload too".to_vec();
    let blob = compress_varint(&payload).unwrap();
    let (back, enc) = decompress_varint(&blob).unwrap();
    assert_eq!(back, payload);
    assert_eq!(enc, Encoding::Binary);
}

#[test]
fn round_trip_varint_tags_binary_even_for_text() {
    let payload = b"text goes in, binary tag comes out".to_vec();
    let blob = compress_varint(&payload).unwrap();
    let (_, enc) = decompress_varint(&blob).unwrap();
    assert_eq!(enc, Encoding::Binary);
}

#[test]
fn fixed_header_is_exactly_eight_bytes() {
    for size in [0u32, 1, 127, 128, 600, 0xFFFF, 0xFFFF_FFFF] {
        let header = Header::new(size, Encoding::Utf8);
        let mut buf = MutableBuffer::allocate(8);
        let used = header.write_to(&mut buf);
        assert_eq!(used, 8);
    }
}

#[test]
fn fixed_header_layout() {
    let header = Header::new(600, Encoding::Utf8);
    let mut buf = MutableBuffer::allocate(8);
    let used = header.write_to(&mut buf);
    buf.finalize(used);
    let bytes = buf.into_vec();
    // version, encoding, two reserved zero bytes, size little-endian
    assert_eq!(bytes, vec![1, 0, 0, 0, 88, 2, 0, 0]);
}

#[test]
fn varint_header_grows_one_byte_per_seven_bits() {
    let cases: [(u32, usize); 8] = [
        (0, 2),
        (127, 2),
        (128, 3),
        (0x3FFF, 3),
        (0x4000, 4),
        (0x1F_FFFF, 4),
        (0x20_0000, 5),
        (0x1000_0000, 6),
    ];
    for (size, expected) in cases {
        let header = Header::new(size, Encoding::Binary);
        let mut buf = MutableBuffer::allocate(6);
        let used = header.write_varint_to(&mut buf);
        assert_eq!(used, expected, "size {size}");
    }
}

#[test]
fn varint_header_layout_small_size() {
    let header = Header::new(5, Encoding::Binary);
    let mut buf = MutableBuffer::allocate(6);
    let used = header.write_varint_to(&mut buf);
    buf.finalize(used);
    // high nibble version 1, low nibble binary code 1, then the size byte
    assert_eq!(buf.into_vec(), vec![0x11, 5]);
}

#[test]
fn decode_fixed_rejects_wrong_version() {
    let bytes = [2u8, 0, 0, 0, 4, 0, 0, 0];
    assert_eq!(Header::from_bytes(&bytes), Err(Lz4Error::UnsupportedVersion));
}

#[test]
fn decode_fixed_rejects_unknown_encoding() {
    let bytes = [1u8, 3, 0, 0, 4, 0, 0, 0];
    assert_eq!(Header::from_bytes(&bytes), Err(Lz4Error::UnknownEncoding));
}

#[test]
fn decode_fixed_rejects_short_input() {
    let bytes = [1u8, 0, 0, 0, 4, 0, 0];
    assert_eq!(Header::from_bytes(&bytes), Err(Lz4Error::MalformedHeader));
}

#[test]
fn decode_fixed_reads_little_endian_size() {
    let bytes = [1u8, 2, 0, 0, 0x78, 0x56, 0x34, 0x12];
    let (header, used) = Header::from_bytes(&bytes).unwrap();
    assert_eq!(used, 8);
    assert_eq!(header.size, 0x1234_5678);
    assert_eq!(header.encoding(), Encoding::UsAscii);
}

#[test]
fn decode_fixed_ignores_reserved_bytes() {
    let bytes = [1u8, 0, 0xAA, 0xBB, 4, 0, 0, 0];
    let (header, _) = Header::from_bytes(&bytes).unwrap();
    assert_eq!(header.size, 4);
}

#[test]
fn varint_five_continuation_bytes_without_terminator_is_truncated() {
    let bytes = [0x11u8, 0x80, 0x80, 0x80, 0x80, 0x80];
    assert_eq!(Header::from_varint(&bytes), Err(Lz4Error::TruncatedVarint));
}

#[test]
fn varint_six_continuation_bytes_is_too_long() {
    let bytes = [0x11u8, 0x80, 0x80, 0x80, 0x80, 0x80, 0x80];
    assert_eq!(Header::from_varint(&bytes), Err(Lz4Error::VarintTooLong));
    let with_terminator = [0x11u8, 0x80, 0x80, 0x80, 0x80, 0x80, 0x01];
    assert_eq!(Header::from_varint(&with_terminator), Err(Lz4Error::VarintTooLong));
}

#[test]
fn varint_decoder_checks_version_and_encoding() {
    assert_eq!(Header::from_varint(&[]), Err(Lz4Error::MalformedHeader));
    assert_eq!(Header::from_varint(&[0x21, 5]), Err(Lz4Error::UnsupportedVersion));
    assert_eq!(Header::from_varint(&[0x13, 5]), Err(Lz4Error::UnknownEncoding));
}

#[test]
fn varint_decoder_round_trips_all_lengths() {
    for size in [0u32, 1, 127, 128, 0x3FFF, 0x4000, 0x1F_FFFF, 0x20_0000, 0xFFFF_FFFF] {
        let header = Header::new(size, Encoding::Utf8);
        let mut buf = MutableBuffer::allocate(6);
        let used = header.write_varint_to(&mut buf);
        buf.finalize(used);
        let bytes = buf.into_vec();
        let (back, consumed) = Header::from_varint(&bytes).unwrap();
        assert_eq!(consumed, used);
        assert_eq!(back.size, size);
        assert_eq!(back.encoding(), Encoding::Utf8);
    }
}

#[test]
fn threshold_decides_lock_release() {
    assert!(!lz4_flex_ext::nogvl_if_large(0));
    assert!(!lz4_flex_ext::nogvl_if_large(512));
    assert!(lz4_flex_ext::nogvl_if_large(513));
    assert_eq!(lz4_flex_ext::MAX_INPUT_LEN, 512);
}

#[test]
fn compresses_600_repeated_bytes() {
    let payload = vec![b'A'; 600];
    let blob = compress(&payload, Encoding::Utf8).unwrap();
    // eight byte fixed header: version 1, UTF-8 code 0, size 600
    assert_eq!(&blob[0..8], &[1, 0, 0, 0, 88, 2, 0, 0]);
    // repeated input must compress to fewer bytes than the payload
    assert!(blob.len() - 8 < 600);
    let (back, enc) = decompress(&blob).unwrap();
    assert_eq!(back, payload);
    assert_eq!(enc, Encoding::Utf8);
}

#[test]
fn compresses_empty_payload() {
    let payload: Vec<u8> = Vec::new();
    let blob = compress(&payload, Encoding::Binary).unwrap();
    assert_eq!(&blob[0..8], &[1, 1, 0, 0, 0, 0, 0, 0]);
    let (back, _) = decompress(&blob).unwrap();
    assert!(back.is_empty());
    let compact = compress_varint(&payload).unwrap();
    let (back2, _) = decompress_varint(&compact).unwrap();
    assert!(back2.is_empty());
}

#[test]
fn flipped_version_byte_is_rejected() {
    let payload = vec![b'A'; 600];
    let mut blob = compress(&payload, Encoding::Utf8).unwrap();
    blob[0] = 2;
    assert_eq!(decompress(&blob), Err(Lz4Error::UnsupportedVersion));
}

#[test]
fn corrupted_block_is_a_decode_error() {
    let payload = b"some payload that will be damaged".to_vec();
    let mut blob = compress(&payload, Encoding::Utf8).unwrap();
    let last = blob.len() - 1;
    blob.truncate(last);
    assert_eq!(decompress(&blob), Err(Lz4Error::DecodeError));
}

#[test]
fn encoding_codes_round_trip() {
    assert_eq!(Encoding::from_u8(0), Ok(Encoding::Utf8));
    assert_eq!(Encoding::from_u8(1), Ok(Encoding::Binary));
    assert_eq!(Encoding::from_u8(2), Ok(Encoding::UsAscii));
    assert_eq!(Encoding::from_u8(3), Err(Lz4Error::UnknownEncoding));
    assert_eq!(Encoding::from_u8(255), Err(Lz4Error::UnknownEncoding));
    assert_eq!(Encoding::Utf8.code(), 0);
    assert_eq!(Encoding::Binary.code(), 1);
    assert_eq!(Encoding::UsAscii.code(), 2);
}

#[test]
fn metadata_packs_version_and_encoding() {
    let meta = VersionAndEncoding::new(1, Encoding::UsAscii);
    assert_eq!(meta.0, 0x12);
    assert_eq!(meta.version(), 1);
    assert_eq!(meta.encoding(), Encoding::UsAscii);
    let high = VersionAndEncoding::new(15, Encoding::Utf8);
    assert_eq!(high.version(), 15);
    assert_eq!(high.encoding(), Encoding::Utf8);
}

#[test]
fn header_records_size_and_encoding() {
    let header = Header::new(42, Encoding::Binary);
    assert_eq!(header.size, 42);
    assert_eq!(header.encoding(), Encoding::Binary);
    assert_eq!(header.metadata.version(), 1);
}

#[test]
fn buffer_lifecycle() {
    let mut buf = MutableBuffer::allocate(4);
    assert_eq!(buf.capacity(), 4);
    buf.write_at(0, 10);
    buf.write_at(3, 13);
    buf.grow_if_needed(2); // already large enough: no change
    assert_eq!(buf.capacity(), 4);
    buf.grow_if_needed(6);
    assert_eq!(buf.capacity(), 6);
    buf.write_at(5, 15);
    buf.finalize(6);
    assert_eq!(buf.into_vec(), vec![10, 0, 0, 13, 0, 15]);
}

#[test]
fn finalize_commits_the_visible_length() {
    let mut buf = MutableBuffer::allocate(8);
    buf.write_at(0, 1);
    buf.write_at(1, 2);
    buf.finalize(2);
    assert_eq!(buf.into_vec(), vec![1, 2]);
}
