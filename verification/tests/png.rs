use pngme::chunk::Chunk;
use pngme::chunk_type::ChunkType;
use pngme::error::Error;
use pngme::png::Png;

const SIGNATURE: [u8; 8] = [137, 80, 78, 71, 13, 10, 26, 10];

fn chunk_of(type_code: &str, data: &[u8]) -> Chunk {
    Chunk::new(ChunkType::from_str(type_code).unwrap(), data.to_vec())
}

/// A minimal container: signature, one header-type chunk, the terminator.
fn minimal_container_bytes() -> Vec<u8> {
    let mut buf = SIGNATURE.to_vec();
    buf.extend_from_slice(&chunk_of("IHDR", &[1, 2, 3]).as_bytes());
    buf.extend_from_slice(&chunk_of("IEND", &[]).as_bytes());
    buf
}

#[test]
fn test_chunk_new_round_trip() {
    let chunk = chunk_of("ruSt", b"hello");
    let decoded = Chunk::try_from(chunk.as_bytes().as_ref()).unwrap();
    assert_eq!(decoded.length(), 5);
    assert_eq!(decoded.chunk_type(), chunk.chunk_type());
    assert_eq!(decoded.data(), chunk.data());
    assert_eq!(decoded.crc(), chunk.crc());
}

#[test]
fn test_chunk_new_empty_payload() {
    let chunk = chunk_of("ruSt", &[]);
    assert_eq!(chunk.length(), 0);
    let decoded = Chunk::try_from(chunk.as_bytes().as_ref()).unwrap();
    assert_eq!(decoded.length(), 0);
    assert_eq!(decoded.crc(), chunk.crc());
}

#[test]
fn test_chunk_tamper_detection() {
    let chunk = chunk_of("ruSt", b"hello");
    let good = chunk.as_bytes();
    // flip every bit of the type and payload fields in turn
    for byte_index in 4..(good.len() - 4) {
        for bit in 0..8 {
            let mut bad = good.clone();
            bad[byte_index] ^= 1 << bit;
            let result = Chunk::try_from(bad.as_ref());
            match result {
                Ok(_) => panic!("tampered chunk decoded"),
                Err(Error::CrcMismatch) => {}
                Err(Error::InvalidChunkType) => {
                    // a type byte was flipped out of the alphabetic range,
                    // so decoding fails before the CRC is even checked
                    assert!(byte_index < 8);
                }
                Err(e) => panic!("unexpected error {:?}", e),
            }
        }
    }
}

#[test]
fn test_chunk_tamper_detection_stored_crc() {
    let chunk = chunk_of("ruSt", b"hello");
    let good = chunk.as_bytes();
    let n = good.len();
    for byte_index in (n - 4)..n {
        for bit in 0..8 {
            let mut bad = good.clone();
            bad[byte_index] ^= 1 << bit;
            match Chunk::try_from(bad.as_ref()) {
                Err(Error::CrcMismatch) => {}
                other => panic!("expected a CRC mismatch, got {:?}", other),
            }
        }
    }
}

#[test]
fn test_chunk_decode_declared_length_exceeds_buffer() {
    // declares 20 payload bytes but provides only 4 after the type code
    let mut buf: Vec<u8> = vec![0, 0, 0, 20];
    buf.extend_from_slice(b"RuSt");
    buf.extend_from_slice(&[9, 9, 9, 9]);
    match Chunk::try_from(buf.as_ref()) {
        Err(Error::Truncated) => {}
        other => panic!("expected truncation, got {:?}", other),
    }
}

#[test]
fn test_chunk_decode_truncated_header() {
    match Chunk::try_from([0u8, 0, 0].as_ref()) {
        Err(Error::Truncated) => {}
        other => panic!("expected truncation, got {:?}", other),
    }
}

#[test]
fn test_chunk_decode_invalid_type() {
    let mut buf: Vec<u8> = vec![0, 0, 0, 0];
    buf.extend_from_slice(b"Ru1t");
    buf.extend_from_slice(&[0, 0, 0, 0]);
    match Chunk::try_from(buf.as_ref()) {
        Err(Error::InvalidChunkType) => {}
        other => panic!("expected an invalid type code, got {:?}", other),
    }
}

#[test]
fn test_chunk_type_from_bytes_invalid() {
    match ChunkType::try_from([82, 117, 49, 116]) {
        Err(Error::InvalidChunkType) => {}
        other => panic!("expected an invalid type code, got {:?}", other),
    }
}

#[test]
fn test_data_as_string_rejects_invalid_utf8() {
    let chunk = chunk_of("ruSt", &[0xff, 0xfe]);
    match chunk.data_as_string() {
        Err(Error::EncodingError) => {}
        other => panic!("expected an encoding error, got {:?}", other),
    }
}

#[test]
fn test_png_parse_round_trip() {
    let buf = minimal_container_bytes();
    let png = Png::try_from(buf.as_ref()).unwrap();
    assert_eq!(png.as_bytes(), buf);
    let again = Png::try_from(png.as_bytes().as_ref()).unwrap();
    assert_eq!(again.as_bytes(), png.as_bytes());
}

#[test]
fn test_png_parse_smallest() {
    // signature plus a single terminator record: 20 bytes, the floor
    let mut buf = SIGNATURE.to_vec();
    buf.extend_from_slice(&chunk_of("IEND", &[]).as_bytes());
    assert_eq!(buf.len(), 20);
    let png = Png::try_from(buf.as_ref()).unwrap();
    assert_eq!(png.chunks().len(), 1);
    assert_eq!(png.as_bytes(), buf);
}

#[test]
fn test_png_too_small() {
    // shorter than signature + one empty record
    let buf = &minimal_container_bytes()[..19];
    match Png::try_from(buf) {
        Err(Error::TooSmall) => {}
        other => panic!("expected too-small, got {:?}", other),
    }
}

#[test]
fn test_png_truncated_after_signature() {
    // 20 bytes total, but the single record declares more payload than remains
    let mut buf = SIGNATURE.to_vec();
    buf.extend_from_slice(&[0, 0, 0, 20]);
    buf.extend_from_slice(b"RuSt");
    buf.extend_from_slice(&[1, 2, 3, 4]);
    assert_eq!(buf.len(), 20);
    match Png::try_from(buf.as_ref()) {
        Err(Error::Truncated) => {}
        other => panic!("expected truncation, got {:?}", other),
    }
}

#[test]
fn test_png_signature_mismatch() {
    let mut buf = minimal_container_bytes();
    buf[0] = 0x88;
    match Png::try_from(buf.as_ref()) {
        Err(Error::SignatureMismatch) => {}
        other => panic!("expected a signature mismatch, got {:?}", other),
    }
}

#[test]
fn test_png_crc_error_propagates() {
    let mut buf = minimal_container_bytes();
    // corrupt one payload byte of the header chunk (offset 8 is its length
    // field, 12 its type, 16 its payload)
    buf[16] ^= 0x01;
    match Png::try_from(buf.as_ref()) {
        Err(Error::CrcMismatch) => {}
        other => panic!("expected a CRC mismatch, got {:?}", other),
    }
}

#[test]
fn test_png_terminator_missing() {
    let mut buf = SIGNATURE.to_vec();
    buf.extend_from_slice(&chunk_of("IHDR", &[1, 2, 3]).as_bytes());
    match Png::try_from(buf.as_ref()) {
        Err(Error::TerminatorMissing) => {}
        other => panic!("expected a missing terminator, got {:?}", other),
    }
}

#[test]
fn test_png_terminator_not_last() {
    let mut buf = SIGNATURE.to_vec();
    buf.extend_from_slice(&chunk_of("IEND", &[]).as_bytes());
    buf.extend_from_slice(&chunk_of("IHDR", &[1, 2, 3]).as_bytes());
    match Png::try_from(buf.as_ref()) {
        Err(Error::TerminatorMissing) => {}
        other => panic!("expected a missing terminator, got {:?}", other),
    }
}

#[test]
fn test_png_append_inserts_before_terminator() {
    let buf = minimal_container_bytes();
    let mut png = Png::try_from(buf.as_ref()).unwrap();
    png.append_chunk(chunk_of("ruSt", b"hello")).unwrap();

    // expected: signature, header chunk, new chunk, terminator, in order
    let mut expected = SIGNATURE.to_vec();
    expected.extend_from_slice(&chunk_of("IHDR", &[1, 2, 3]).as_bytes());
    expected.extend_from_slice(&[0, 0, 0, 5]);
    expected.extend_from_slice(b"ruSthello");
    let crc = crc::Crc::<u32>::new(&crc::CRC_32_ISO_HDLC).checksum(b"ruSthello");
    expected.extend_from_slice(&crc.to_be_bytes());
    expected.extend_from_slice(&chunk_of("IEND", &[]).as_bytes());

    assert_eq!(png.as_bytes(), expected);
}

#[test]
fn test_png_append_duplicate_type() {
    let buf = minimal_container_bytes();
    let mut png = Png::try_from(buf.as_ref()).unwrap();
    png.append_chunk(chunk_of("ruSt", b"one")).unwrap();
    match png.append_chunk(chunk_of("ruSt", b"two")) {
        Err(Error::DuplicateChunkType) => {}
        other => panic!("expected a duplicate, got {:?}", other),
    }
    // the failed append left the container unchanged
    let decoded = png
        .chunk_by_type(&ChunkType::from_str("ruSt").unwrap())
        .unwrap();
    assert_eq!(decoded.data_as_string().unwrap(), "one");
}

#[test]
fn test_png_append_remove_inverse() {
    let buf = minimal_container_bytes();
    let mut png = Png::try_from(buf.as_ref()).unwrap();
    png.append_chunk(chunk_of("ruSt", b"hello")).unwrap();
    let removed = png
        .remove_chunk(&ChunkType::from_str("ruSt").unwrap())
        .unwrap();
    assert_eq!(removed.data_as_string().unwrap(), "hello");
    assert_eq!(png.as_bytes(), buf);
}

#[test]
fn test_png_remove_not_found() {
    let buf = minimal_container_bytes();
    let mut png = Png::try_from(buf.as_ref()).unwrap();
    match png.remove_chunk(&ChunkType::from_str("ruSt").unwrap()) {
        Err(Error::NotFound) => {}
        other => panic!("expected not-found, got {:?}", other),
    }
    assert_eq!(png.as_bytes(), buf);
}

#[test]
fn test_png_find_first_match() {
    let buf = minimal_container_bytes();
    let png = Png::try_from(buf.as_ref()).unwrap();
    let header = png
        .chunk_by_type(&ChunkType::from_str("IHDR").unwrap())
        .unwrap();
    assert_eq!(header.data(), &[1, 2, 3]);
    assert!(png
        .chunk_by_type(&ChunkType::from_str("ruSt").unwrap())
        .is_none());
}

#[test]
fn test_chunk_type_is_modifiable() {
    // critical/public/reserved/unsafe codes are rejected as carriers
    assert!(!ChunkType::from_str("RuSt").unwrap().is_modifiable());
    assert!(!ChunkType::from_str("rUSt").unwrap().is_modifiable());
    assert!(!ChunkType::from_str("rust").unwrap().is_modifiable());
    assert!(!ChunkType::from_str("ruST").unwrap().is_modifiable());
    // fully ancillary, private, reserved-valid, safe-to-copy
    assert!(ChunkType::from_str("ruSt").unwrap().is_modifiable());
}
