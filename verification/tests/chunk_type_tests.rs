use pngme::chunk_type::ChunkType;
use pngme::error::PngError;

#[test]
pub fn test_chunk_type_from_bytes() {
    let expected = [82, 117, 83, 116];
    let actual = ChunkType::try_from([82, 117, 83, 116]).unwrap();

    assert_eq!(expected, actual.bytes());
}

#[test]
pub fn test_chunk_type_from_str() {
    let expected = ChunkType::try_from([82, 117, 83, 116]).unwrap();
    let actual = ChunkType::from_str("RuSt").unwrap();
    assert_eq!(expected, actual);
}

#[test]
pub fn test_chunk_type_is_critical() {
    let chunk = ChunkType::from_str("RuSt").unwrap();
    assert!(chunk.is_critical());
}

#[test]
pub fn test_chunk_type_is_not_critical() {
    let chunk = ChunkType::from_str("ruSt").unwrap();
    assert!(!chunk.is_critical());
}

#[test]
pub fn test_chunk_type_is_public() {
    let chunk = ChunkType::from_str("RUSt").unwrap();
    assert!(chunk.is_public());
}

#[test]
pub fn test_chunk_type_is_not_public() {
    let chunk = ChunkType::from_str("RuSt").unwrap();
    assert!(!chunk.is_public());
}

#[test]
pub fn test_chunk_type_is_reserved_bit_valid() {
    let chunk = ChunkType::from_str("RuSt").unwrap();
    assert!(chunk.is_reserved_bit_valid());
}

#[test]
pub fn test_chunk_type_is_reserved_bit_invalid() {
    let chunk = ChunkType::from_str("Rust").unwrap();
    assert!(!chunk.is_reserved_bit_valid());
}

#[test]
pub fn test_chunk_type_is_safe_to_copy() {
    let chunk = ChunkType::from_str("RuSt").unwrap();
    assert!(chunk.is_safe_to_copy());
}

#[test]
pub fn test_chunk_type_is_unsafe_to_copy() {
    let chunk = ChunkType::from_str("RuST").unwrap();
    assert!(!chunk.is_safe_to_copy());
}

#[test]
pub fn test_valid_chunk_is_valid() {
    let chunk = ChunkType::from_str("RuSt").unwrap();
    assert!(chunk.is_valid());
}

#[test]
pub fn test_invalid_chunk_is_valid() {
    let chunk = ChunkType::from_str("Rust").unwrap();
    assert!(!chunk.is_valid());

    let chunk = ChunkType::from_str("Ru1t");
    assert!(chunk.is_err());
}

#[test]
pub fn test_chunk_type_string() {
    let chunk = ChunkType::from_str("RuSt").unwrap();
    assert_eq!(&chunk.to_string(), "RuSt");
}

#[test]
pub fn test_chunk_type_trait_impls() {
    let chunk_type_1: ChunkType = ChunkType::try_from([82, 117, 83, 116]).unwrap();
    let chunk_type_2: ChunkType = ChunkType::from_str("RuSt").unwrap();
    let _chunk_string = format!("{}", chunk_type_1.to_string());
    let _are_chunks_equal = chunk_type_1 == chunk_type_2;
    assert!(_are_chunks_equal);
}

#[test]
pub fn test_chunk_type_bit_semantics_of_rust_tag() {
    let tag = ChunkType::from_str("RuSt").unwrap();
    assert!(tag.is_critical());
    assert!(!tag.is_public());
    assert!(tag.is_reserved_bit_valid());
    assert!(tag.is_safe_to_copy());
    assert!(tag.is_valid());
}

#[test]
pub fn test_chunk_type_errors() {
    assert_eq!(ChunkType::from_str("Ru1t").unwrap_err(), PngError::InvalidChunkType);
    assert_eq!(ChunkType::from_str("RuS").unwrap_err(), PngError::InvalidLength);
    assert_eq!(ChunkType::from_str("RuStt").unwrap_err(), PngError::InvalidLength);
    assert_eq!(ChunkType::from_str("").unwrap_err(), PngError::InvalidLength);
    assert_eq!(ChunkType::from_str("Ru\u{e9}").unwrap_err(), PngError::InvalidChunkType);
    assert_eq!(ChunkType::try_from([82, 117, 0, 116]).unwrap_err(), PngError::InvalidChunkType);
    assert_eq!(ChunkType::try_from([64, 65, 65, 65]).unwrap_err(), PngError::InvalidChunkType);
    assert_eq!(ChunkType::try_from([65, 91, 65, 65]).unwrap_err(), PngError::InvalidChunkType);
    assert_eq!(ChunkType::try_from([65, 65, 96, 65]).unwrap_err(), PngError::InvalidChunkType);
    assert_eq!(ChunkType::try_from([65, 65, 65, 123]).unwrap_err(), PngError::InvalidChunkType);
    assert!(ChunkType::try_from([65, 90, 97, 122]).is_ok());
}

#[test]
pub fn test_chunk_type_inequality() {
    let a = ChunkType::from_str("RuSt").unwrap();
    let b = ChunkType::from_str("RuSx").unwrap();
    assert!(a != b);
    assert!(a == a);
}
