use pngme::PngError;
use pngme::chunk::Chunk;
use pngme::chunk_type::ChunkType;
use pngme::png::Png;
use pngme::utils::u8_slice_to_u32;

fn chunk_from(type_code: &str, data: &[u8]) -> Chunk {
    Chunk::new(ChunkType::parse_str(type_code).unwrap(), data.to_vec())
}

fn minimal_png() -> Png {
    let mut png = Png::new();
    png.append_chunk(chunk_from("IHDR", &[0, 0, 0, 1, 0, 0, 0, 1, 8, 0, 0, 0, 0]));
    png.append_chunk(chunk_from("IEND", &[]));
    png
}

#[test]
fn test_png_round_trip() {
    let mut png = Png::new();
    png.append_chunk(chunk_from("IHDR", &[1, 2, 3]));
    png.append_chunk(chunk_from("ruSt", b"secret"));
    png.append_chunk(chunk_from("IEND", &[]));

    let bytes = png.as_bytes();
    let signature: Vec<u8> = vec![0x89, 0x50, 0x4e, 0x47, 0x0d, 0x0a, 0x1a, 0x0a];
    assert_eq!(&bytes[0..8], &signature[..]);

    let reparsed = Png::parse(&bytes).unwrap();
    assert_eq!(reparsed.as_bytes(), bytes);

    let found = reparsed.chunk_by_type("ruSt").unwrap();
    assert_eq!(found.data(), b"secret");
    assert_eq!(found.length(), 6);
}

#[test]
fn test_png_signature_rejected() {
    let mut bytes = minimal_png().as_bytes();
    bytes[0] = 0x88;
    assert_eq!(Png::parse(&bytes).unwrap_err(), PngError::InvalidSignature);

    let too_short = [0x89, 0x50];
    assert_eq!(
        Png::parse(&too_short).unwrap_err(),
        PngError::InvalidSignature
    );
}

#[test]
fn test_png_end_to_end() {
    let mut png = minimal_png();
    png.append_chunk(chunk_from("ruSt", b"hello"));

    let bytes = png.as_bytes();
    let reparsed = Png::parse(&bytes).unwrap();
    let found = reparsed.chunk_by_type("ruSt").unwrap();
    assert_eq!(found.data_as_string().unwrap(), "hello");
}

#[test]
fn test_png_chunk_by_type_absent() {
    let png = minimal_png();
    assert!(png.chunk_by_type("ruSt").is_none());
}

#[test]
fn test_png_remove_chunk_first_match_only() {
    let mut png = minimal_png();
    png.append_chunk(chunk_from("teXt", b"first"));
    png.append_chunk(chunk_from("teXt", b"second"));

    let removed = png.remove_chunk("teXt").unwrap();
    assert_eq!(removed.data(), b"first");

    let still_there = png.chunk_by_type("teXt").unwrap();
    assert_eq!(still_there.data(), b"second");

    png.remove_chunk("teXt").unwrap();
    assert_eq!(png.remove_chunk("teXt").unwrap_err(), PngError::NotFound);
}

#[test]
fn test_chunk_round_trip() {
    let chunk = chunk_from("RuSt", b"any payload at all");
    let reparsed = Chunk::parse(&chunk.as_bytes()).unwrap();
    assert_eq!(reparsed.chunk_type(), chunk.chunk_type());
    assert_eq!(reparsed.data(), chunk.data());
    assert_eq!(reparsed.length(), chunk.length());
    assert_eq!(reparsed.crc(), chunk.crc());
}

#[test]
fn test_chunk_crc_bit_flips_detected() {
    let good = chunk_from("RuSt", b"payload").as_bytes();

    // a flip in the payload changes the recomputed CRC
    let mut corrupt_payload = good.clone();
    corrupt_payload[9] ^= 0x01;
    assert!(matches!(
        Chunk::parse(&corrupt_payload),
        Err(PngError::CrcMismatch { .. })
    ));

    // a flip in the CRC field changes the stored CRC only
    let mut corrupt_crc = good.clone();
    let last = corrupt_crc.len() - 1;
    corrupt_crc[last] ^= 0x80;
    match Chunk::parse(&corrupt_crc) {
        Err(PngError::CrcMismatch { computed, stored }) => {
            assert_ne!(computed, stored);
            assert_eq!(computed, Chunk::compute_crc(&good[4..good.len() - 4]));
        }
        other => panic!("expected a CRC mismatch, got {:?}", other),
    }
}

#[test]
fn test_chunk_truncated_header() {
    assert_eq!(
        Chunk::parse(&[0, 0, 0, 1, 82]).unwrap_err(),
        PngError::Truncated
    );
}

#[test]
fn test_chunk_insufficient_payload() {
    // the header declares 42 payload bytes but only 10 follow
    let mut bytes: Vec<u8> = vec![0, 0, 0, 42];
    bytes.extend_from_slice(b"RuSt");
    bytes.extend_from_slice(&[7; 10]);
    assert_eq!(
        Chunk::parse(&bytes).unwrap_err(),
        PngError::InsufficientBytes { missing: 32 }
    );
}

#[test]
fn test_chunk_truncated_crc() {
    // full payload present, but only two of the four CRC bytes
    let good = chunk_from("RuSt", b"xy").as_bytes();
    assert_eq!(
        Chunk::parse(&good[0..good.len() - 2]).unwrap_err(),
        PngError::Truncated
    );
}

#[test]
fn test_chunk_invalid_type_rejected() {
    let bytes: Vec<u8> = vec![0, 0, 0, 0, b'R', b'u', b'1', b't', 0, 0, 0, 0];
    assert_eq!(
        Chunk::parse(&bytes).unwrap_err(),
        PngError::InvalidEncoding
    );
}

#[test]
fn test_png_propagates_chunk_error() {
    let mut bytes = minimal_png().as_bytes();
    let len = bytes.len();
    bytes.truncate(len - 1);
    assert_eq!(Png::parse(&bytes).unwrap_err(), PngError::Truncated);
}

#[test]
fn test_chunk_type_validity_ranges() {
    assert!(ChunkType::parse([65, 90, 97, 122]).is_ok());
    assert_eq!(
        ChunkType::parse([64, 90, 97, 122]).unwrap_err(),
        PngError::InvalidEncoding
    );
    assert_eq!(
        ChunkType::parse([65, 91, 97, 122]).unwrap_err(),
        PngError::InvalidEncoding
    );
    assert_eq!(
        ChunkType::parse([65, 90, 96, 122]).unwrap_err(),
        PngError::InvalidEncoding
    );
    assert_eq!(
        ChunkType::parse([65, 90, 97, 123]).unwrap_err(),
        PngError::InvalidEncoding
    );
    assert_eq!(
        ChunkType::parse([b'R', b'u', b'1', b't']).unwrap_err(),
        PngError::InvalidEncoding
    );
    assert_eq!(
        ChunkType::parse([b'R', b'u', b'!', b't']).unwrap_err(),
        PngError::InvalidEncoding
    );
}

#[test]
fn test_chunk_type_parse_str_length() {
    assert_eq!(
        ChunkType::parse_str("RuSts").unwrap_err(),
        PngError::InvalidLength
    );
    assert_eq!(
        ChunkType::parse_str("Ru").unwrap_err(),
        PngError::InvalidLength
    );
    assert_eq!(
        ChunkType::parse_str("").unwrap_err(),
        PngError::InvalidLength
    );
}

#[test]
fn test_data_as_string_invalid_utf8() {
    let chunk = chunk_from("teXt", &[0xff, 0xfe, 0x00]);
    assert_eq!(
        chunk.data_as_string().unwrap_err(),
        PngError::InvalidEncoding
    );
}

#[test]
fn test_compute_crc_known_value() {
    let mut bytes: Vec<u8> = b"RuSt".to_vec();
    bytes.extend_from_slice(b"This is where your secret message will be!");
    assert_eq!(Chunk::compute_crc(&bytes), 2882656334);
}

#[test]
fn test_u8_slice_to_u32_values() {
    assert_eq!(u8_slice_to_u32(&[0, 0, 0, 42]), 42);
    assert_eq!(u8_slice_to_u32(&[1, 2, 3, 4]), 0x01020304);
    assert_eq!(u8_slice_to_u32(&[0xff, 0xff, 0xff, 0xff, 9]), 0xffffffff);
}

#[test]
fn test_empty_payload_chunk() {
    let chunk = chunk_from("IEND", &[]);
    assert_eq!(chunk.length(), 0);
    assert_eq!(chunk.as_bytes().len(), 12);
    let reparsed = Chunk::parse(&chunk.as_bytes()).unwrap();
    assert_eq!(reparsed.crc(), chunk.crc());
}
