use pngme::{ChunkType, PngError};

#[test]
fn test_chunk_type_from_bytes() {
    let expected = [82, 117, 83, 116];
    let actual = ChunkType::from_bytes([82, 117, 83, 116]);
    assert_eq!(expected, actual.bytes());
}

#[test]
fn test_chunk_type_from_str() {
    let expected = ChunkType::from_bytes([82, 117, 83, 116]);
    let actual = ChunkType::from_text("RuSt").unwrap();
    assert_eq!(expected, actual);
}

#[test]
fn test_chunk_type_is_critical() {
    let chunk = ChunkType::from_text("RuSt").unwrap();
    assert!(chunk.is_critical());
}

#[test]
fn test_chunk_type_is_not_critical() {
    let chunk = ChunkType::from_text("ruSt").unwrap();
    assert!(!chunk.is_critical());
}

#[test]
fn test_chunk_type_is_public() {
    let chunk = ChunkType::from_text("RUSt").unwrap();
    assert!(chunk.is_public());
}

#[test]
fn test_chunk_type_is_not_public() {
    let chunk = ChunkType::from_text("RuSt").unwrap();
    assert!(!chunk.is_public());
}

#[test]
fn test_chunk_type_is_reserved_bit_valid() {
    let chunk = ChunkType::from_text("RuSt").unwrap();
    assert!(chunk.is_reserved_bit_valid());
}

#[test]
fn test_chunk_type_is_reserved_bit_invalid() {
    let chunk = ChunkType::from_bytes(*b"Rust");
    assert!(!chunk.is_reserved_bit_valid());
}

#[test]
fn test_chunk_type_is_safe_to_copy() {
    let chunk = ChunkType::from_text("RuSt").unwrap();
    assert!(chunk.is_safe_to_copy());
}

#[test]
fn test_chunk_type_is_unsafe_to_copy() {
    let chunk = ChunkType::from_text("RuST").unwrap();
    assert!(!chunk.is_safe_to_copy());
}

#[test]
fn test_valid_chunk_is_valid() {
    let chunk = ChunkType::from_text("RuSt").unwrap();
    assert!(chunk.is_valid());
}

#[test]
fn test_invalid_chunk_is_valid() {
    let chunk = ChunkType::from_bytes(*b"Rust");
    assert!(!chunk.is_valid());
    let chunk = ChunkType::from_bytes(*b"Ru1t");
    assert!(!chunk.is_valid());
}

#[test]
fn from_text_accepts_and_rejects() {
    assert!(ChunkType::from_text("RuSt").is_ok());
    assert_eq!(ChunkType::from_text("Rust"), Err(PngError::InvalidFormat));
    assert_eq!(ChunkType::from_text("Ru1t"), Err(PngError::InvalidFormat));
    assert_eq!(ChunkType::from_text("ab"), Err(PngError::InvalidFormat));
    assert_eq!(ChunkType::from_text("RuStx"), Err(PngError::InvalidFormat));
    assert_eq!(ChunkType::from_text(""), Err(PngError::InvalidFormat));
    assert_eq!(ChunkType::from_text("RéSt"), Err(PngError::InvalidFormat));
}

#[test]
fn test_chunk_type_string() {
    let chunk = ChunkType::from_text("RuSt").unwrap();
    assert_eq!(&chunk.to_string(), "RuSt");
}

#[test]
fn test_chunk_type_trait_impls() {
    let chunk_type_1 = ChunkType::from_bytes([82, 117, 83, 116]);
    let chunk_type_2 = ChunkType::from_text("RuSt").unwrap();
    assert_eq!(chunk_type_1.to_string(), chunk_type_2.to_string());
    assert!(chunk_type_1 == chunk_type_2);
}

#[test]
fn from_bytes_keeps_unusual_bytes() {
    let t = ChunkType::from_bytes([0, 255, 32, 10]);
    assert_eq!(t.bytes(), [0, 255, 32, 10]);
    assert!(!t.is_valid());
}
