use pngme::{Chunk, ChunkType, PngError};

const MESSAGE: &str = "This is where your secret message will be!";

fn chunk_bytes(length: u32, ctype: &[u8], data: &[u8], crc: u32) -> Vec<u8> {
    length
        .to_be_bytes()
        .iter()
        .chain(ctype.iter())
        .chain(data.iter())
        .chain(crc.to_be_bytes().iter())
        .copied()
        .collect()
}

fn testing_chunk() -> Chunk {
    let bytes = chunk_bytes(42, b"RuSt", MESSAGE.as_bytes(), 2882656334);
    Chunk::parse(&bytes).unwrap()
}

#[test]
fn test_new_chunk() {
    let c1 = Chunk::new(ChunkType::from_text("RuSt").unwrap(), MESSAGE.as_bytes().to_vec());
    let c2 = testing_chunk();
    assert_eq!(c1.length(), c2.length());
    assert_eq!(c1.chunk_type(), c2.chunk_type());
    assert_eq!(c1.data(), c2.data());
    assert_eq!(c1.crc(), c2.crc());
}

#[test]
fn test_chunk_length() {
    assert_eq!(testing_chunk().length(), 42);
}

#[test]
fn test_chunk_type() {
    assert_eq!(testing_chunk().chunk_type().to_string(), String::from("RuSt"));
}

#[test]
fn test_chunk_string() {
    assert_eq!(testing_chunk().data_as_string().unwrap(), String::from(MESSAGE));
}

#[test]
fn test_chunk_crc() {
    assert_eq!(testing_chunk().crc(), 2882656334);
}

#[test]
fn new_chunk_computes_known_crc() {
    let c = Chunk::new(ChunkType::from_text("RuSt").unwrap(), MESSAGE.as_bytes().to_vec());
    assert_eq!(c.crc(), 2882656334);
    assert_eq!(c.length(), 42);
}

#[test]
fn test_valid_chunk_from_bytes() {
    let bytes = chunk_bytes(42, b"RuSt", MESSAGE.as_bytes(), 2882656334);
    let chunk = Chunk::parse(&bytes).unwrap();
    assert_eq!(chunk.length(), 42);
    assert_eq!(chunk.chunk_type().to_string(), String::from("RuSt"));
    assert_eq!(chunk.data_as_string().unwrap(), String::from(MESSAGE));
    assert_eq!(chunk.crc(), 2882656334);
}

#[test]
fn test_invalid_chunk_from_bytes() {
    let bytes = chunk_bytes(42, b"RuSt", MESSAGE.as_bytes(), 2882656333);
    assert_eq!(Chunk::parse(&bytes).unwrap_err(), PngError::ChecksumMismatch);
}

#[test]
fn serialize_is_exact() {
    let c = Chunk::new(ChunkType::from_text("RuSt").unwrap(), MESSAGE.as_bytes().to_vec());
    assert_eq!(c.as_bytes(), chunk_bytes(42, b"RuSt", MESSAGE.as_bytes(), 2882656334));
}

#[test]
fn parse_of_serialized_chunk_round_trips() {
    for data in [Vec::new(), vec![0u8], vec![1, 2, 3, 255], MESSAGE.as_bytes().to_vec()] {
        let c = Chunk::new(ChunkType::from_text("ruSt").unwrap(), data.clone());
        let back = Chunk::parse(&c.as_bytes()).unwrap();
        assert_eq!(back.chunk_type(), c.chunk_type());
        assert_eq!(back.data(), &data[..]);
        assert_eq!(back.crc(), c.crc());
    }
}

#[test]
fn single_bit_flip_fails_checksum() {
    let c = Chunk::new(ChunkType::from_text("RuSt").unwrap(), MESSAGE.as_bytes().to_vec());
    let bytes = c.as_bytes();
    for pos in 4..bytes.len() - 4 {
        for bit in 0..8 {
            let mut flipped = bytes.clone();
            flipped[pos] ^= 1 << bit;
            assert_eq!(Chunk::parse(&flipped).unwrap_err(), PngError::ChecksumMismatch);
        }
    }
}

#[test]
fn short_input_is_truncated() {
    assert_eq!(Chunk::parse(&[]).unwrap_err(), PngError::Truncated);
    assert_eq!(Chunk::parse(&[0, 0, 0, 0, 82, 117, 83, 116, 1, 2, 3]).unwrap_err(), PngError::Truncated);
}

#[test]
fn declared_length_beyond_input_is_truncated() {
    let mut bytes = chunk_bytes(42, b"RuSt", MESSAGE.as_bytes(), 2882656334);
    bytes.truncate(30);
    assert_eq!(Chunk::parse(&bytes).unwrap_err(), PngError::Truncated);
    let huge = chunk_bytes(u32::MAX, b"RuSt", b"abc", 0);
    assert_eq!(Chunk::parse(&huge).unwrap_err(), PngError::Truncated);
}

#[test]
fn extra_bytes_after_chunk_are_refused() {
    let mut bytes = chunk_bytes(42, b"RuSt", MESSAGE.as_bytes(), 2882656334);
    bytes.push(0);
    assert_eq!(Chunk::parse(&bytes).unwrap_err(), PngError::TrailingBytes);
}

#[test]
fn empty_payload_is_not_text() {
    let c = Chunk::new(ChunkType::from_text("RuSt").unwrap(), Vec::new());
    assert_eq!(c.data_as_string(), Err(PngError::NotText));
    assert_eq!(c.length(), 0);
    assert_eq!(c.as_bytes().len(), 12);
}

#[test]
fn invalid_utf8_is_not_text() {
    let c = Chunk::new(ChunkType::from_text("RuSt").unwrap(), vec![0xff, 0xfe, 0x41]);
    assert_eq!(c.data_as_string(), Err(PngError::NotText));
}

#[test]
fn multibyte_utf8_is_text() {
    let c = Chunk::new(ChunkType::from_text("RuSt").unwrap(), "héllo".as_bytes().to_vec());
    assert_eq!(c.data_as_string().unwrap(), "héllo");
}

#[test]
fn checksum_covers_type_and_payload() {
    let a = ChunkType::from_text("RuSt").unwrap();
    let b = ChunkType::from_text("RuSh").unwrap();
    assert_ne!(pngme::chunk::checksum(&a, b"x"), pngme::chunk::checksum(&b, b"x"));
    assert_ne!(pngme::chunk::checksum(&a, b"x"), pngme::chunk::checksum(&a, b"y"));
    assert_eq!(pngme::chunk::checksum(&a, MESSAGE.as_bytes()), 2882656334);
}
