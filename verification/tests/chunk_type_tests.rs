use rust_secret_png::chunk_type::ChunkType;
use rust_secret_png::error::PngError;

#[test]
pub fn test_chunk_type_from_bytes() {
    let expected = &[82, 117, 83, 116];
    let actual = ChunkType::try_from([82, 117, 83, 116]).unwrap();

    assert_eq!(expected, actual.bytes());
}

#[test]
pub fn test_chunk_type_from_str() {
    let expected = ChunkType::try_from([82, 117, 83, 116]).unwrap();
    let actual = ChunkType::from_str("RuSt").unwrap();
    assert_eq!(expected, actual);
}

#[test]
pub fn test_chunk_type_is_critical() {
    let chunk = ChunkType::from_str("RuSt").unwrap();
    assert!(chunk.is_critical());
}

#[test]
pub fn test_chunk_type_is_not_critical() {
    let chunk = ChunkType::from_str("ruSt").unwrap();
    assert!(!chunk.is_critical());
}

#[test]
pub fn test_chunk_type_is_public() {
    let chunk = ChunkType::from_str("RUSt").unwrap();
    assert!(chunk.is_public());
}

#[test]
pub fn test_chunk_type_is_not_public() {
    let chunk = ChunkType::from_str("RuSt").unwrap();
    assert!(!chunk.is_public());
}

#[test]
pub fn test_chunk_type_is_reserved_bit_valid() {
    let chunk = ChunkType::from_str("RuSt").unwrap();
    assert!(chunk.is_reserved_bit_valid());
}

#[test]
pub fn test_chunk_type_is_reserved_bit_invalid() {
    let chunk = ChunkType::from_str("Rust");
    assert!(chunk.is_err());
}

#[test]
pub fn test_chunk_type_is_safe_to_copy() {
    let chunk = ChunkType::from_str("RuSt").unwrap();
    assert!(chunk.is_safe_to_copy());
}

#[test]
pub fn test_chunk_type_is_unsafe_to_copy() {
    let chunk = ChunkType::from_str("RuST").unwrap();
    assert!(!chunk.is_safe_to_copy());
}

#[test]
pub fn test_valid_chunk_is_valid() {
    let chunk = ChunkType::from_str("RuSt").unwrap();
    assert!(chunk.is_valid());
}

#[test]
pub fn test_invalid_chunk_is_valid() {
    let chunk = ChunkType::from_str("Rust");
    assert!(chunk.is_err());

    let chunk = ChunkType::from_str("Ru1t");
    assert!(chunk.is_err());
}

#[test]
pub fn test_chunk_type_string() {
    let chunk = ChunkType::from_str("RuSt").unwrap();
    assert_eq!(&chunk.to_string(), "RuSt");
}

#[test]
fn rust_tag_has_every_property_but_public() {
    let tag = ChunkType::from_str("RuSt").unwrap();
    assert!(tag.is_valid());
    assert!(tag.is_critical());
    assert!(!tag.is_public());
    assert!(tag.is_reserved_bit_valid());
    assert!(tag.is_safe_to_copy());
}

#[test]
fn lower_case_first_letter_is_valid_but_not_critical() {
    let tag = ChunkType::from_str("ruSt").unwrap();
    assert!(tag.is_valid());
    assert!(!tag.is_critical());
}

#[test]
fn lower_case_third_letter_is_an_invalid_chunk_type() {
    assert_eq!(ChunkType::from_str("Rust"), Err(PngError::InvalidChunkType));
    assert_eq!(ChunkType::try_from(*b"Rust"), Err(PngError::InvalidChunkType));
}

#[test]
fn digit_in_name_is_not_ascii_letter() {
    assert_eq!(ChunkType::from_str("Ru1t"), Err(PngError::NotAscii));
    assert_eq!(ChunkType::from_str("R\u{e9}St"), Err(PngError::NotAscii));
}

#[test]
fn digit_in_bytes_is_an_invalid_chunk_type() {
    assert_eq!(ChunkType::try_from(*b"Ru1t"), Err(PngError::InvalidChunkType));
    assert_eq!(ChunkType::try_from([0, 0, 0, 0]), Err(PngError::InvalidChunkType));
    assert_eq!(ChunkType::try_from(*b"Ru[t"), Err(PngError::InvalidChunkType));
    assert_eq!(ChunkType::try_from(*b"@uSt"), Err(PngError::InvalidChunkType));
    assert_eq!(ChunkType::try_from(*b"RuS{"), Err(PngError::InvalidChunkType));
    assert_eq!(ChunkType::try_from(*b"R`St"), Err(PngError::InvalidChunkType));
}

#[test]
fn names_of_other_lengths_are_refused() {
    assert_eq!(ChunkType::from_str(""), Err(PngError::InvalidChunkType));
    assert_eq!(ChunkType::from_str("RuS"), Err(PngError::InvalidChunkType));
    assert_eq!(ChunkType::from_str("RuStx"), Err(PngError::InvalidChunkType));
    assert_eq!(ChunkType::from_str("RuSt1"), Err(PngError::NotAscii));
    assert_eq!(ChunkType::from_str("1"), Err(PngError::NotAscii));
}

#[test]
fn boundary_letters_are_letters() {
    assert!(ChunkType::try_from(*b"AZAz").is_ok());
    assert!(ChunkType::try_from(*b"azZa").is_ok());
    assert_eq!(ChunkType::from_str("AzZa").unwrap().bytes(), b"AzZa");
}

#[test]
fn unchecked_constructor_stores_any_bytes() {
    let tag = ChunkType::new([1, 2, 3, 4]);
    assert_eq!(tag.bytes(), &[1, 2, 3, 4]);
    assert!(!tag.is_valid());
    let tag = ChunkType::new(*b"Rust");
    assert!(!tag.is_valid());
    assert!(!tag.is_reserved_bit_valid());
    assert!(tag.is_critical());
}

#[test]
fn tags_compare_byte_by_byte() {
    let a = ChunkType::new(*b"RuSt");
    assert_eq!(a, ChunkType::new(*b"RuSt"));
    assert_ne!(a, ChunkType::new(*b"RuSu"));
    assert_ne!(a, ChunkType::new(*b"SuSt"));
    assert_ne!(a, ChunkType::new(*b"RvSt"));
    assert_ne!(a, ChunkType::new(*b"RuTt"));
}

#[test]
fn error_messages() {
    assert_eq!(PngError::InvalidChunkType.message(), "Invalid chunk type.");
    assert_eq!(PngError::NotAscii.message(), "Not an ascii character");
    assert_eq!(PngError::CrcMismatch.message(), "Invalid crc");
    assert_eq!(PngError::TruncatedChunk.message(), "Raw chunk data is truncated");
    assert_eq!(PngError::BadSignature.message(), "Not a PNG file: bad signature");
    assert_eq!(PngError::ChunkNotFound.message(), "Chunk not found");
    assert_eq!(
        PngError::UnrepresentableSize.message(),
        "Chunk data does not fit a 32-bit length"
    );
}
