use hackpng::chunk_type::{ChunkType, ChunkTypeError};
use std::convert::TryFrom;
use std::str::FromStr;

#[test]
pub fn test_chunk_type_from_bytes() {
    let expected = [82, 117, 83, 116];
    let actual = ChunkType::try_from([82, 117, 83, 116]).unwrap();

    assert_eq!(expected, actual.bytes());
}

#[test]
pub fn test_chunk_type_from_str() {
    let expected = ChunkType::try_from([82, 117, 83, 116]).unwrap();
    let actual = ChunkType::from_str("RuSt").unwrap();
    assert_eq!(expected, actual);
}

#[test]
pub fn test_chunk_type_is_critical() {
    let chunk = ChunkType::from_str("RuSt").unwrap();
    assert!(chunk.is_critical());
}

#[test]
pub fn test_chunk_type_is_not_critical() {
    let chunk = ChunkType::from_str("ruSt").unwrap();
    assert!(!chunk.is_critical());
}

#[test]
pub fn test_chunk_type_is_public() {
    let chunk = ChunkType::from_str("RUSt").unwrap();
    assert!(chunk.is_public());
}

#[test]
pub fn test_chunk_type_is_not_public() {
    let chunk = ChunkType::from_str("RuSt").unwrap();
    assert!(!chunk.is_public());
}

#[test]
pub fn test_chunk_type_is_reserved_bit_valid() {
    let chunk = ChunkType::from_str("RuSt").unwrap();
    assert!(chunk.is_reserved_bit_valid());
}

#[test]
pub fn test_chunk_type_is_reserved_bit_invalid() {
    let chunk = ChunkType::from_str("Rust").unwrap();
    assert!(!chunk.is_reserved_bit_valid());
}

#[test]
pub fn test_chunk_type_is_safe_to_copy() {
    let chunk = ChunkType::from_str("RuSt").unwrap();
    assert!(chunk.is_safe_to_copy());
}

#[test]
pub fn test_chunk_type_is_unsafe_to_copy() {
    let chunk = ChunkType::from_str("RuST").unwrap();
    assert!(!chunk.is_safe_to_copy());
}

#[test]
pub fn test_valid_chunk_is_valid() {
    let chunk = ChunkType::from_str("RuSt").unwrap();
    assert!(chunk.is_valid());
}

#[test]
pub fn test_invalid_chunk_is_valid() {
    let chunk = ChunkType::from_str("Rust").unwrap();
    assert!(!chunk.is_valid());

    let chunk = ChunkType::from_str("Ru1t");
    assert!(chunk.is_err());
}

#[test]
pub fn test_chunk_type_string() {
    let chunk = ChunkType::from_str("RuSt").unwrap();
    assert_eq!(&chunk.to_string().unwrap(), "RuSt");
}

#[test]
pub fn test_chunk_type_trait_impls() {
    let chunk_type_1: ChunkType = TryFrom::try_from([82, 117, 83, 116]).unwrap();
    let chunk_type_2: ChunkType = FromStr::from_str("RuSt").unwrap();
    let _chunk_string = chunk_type_1.to_string().unwrap();
    let _are_chunks_equal = chunk_type_1 == chunk_type_2;
}

#[test]
fn rust_flags_match_bit_five() {
    let t = ChunkType::from_str("RuSt").unwrap();
    assert!(t.is_critical());
    assert!(!t.is_public());
    assert!(t.is_reserved_bit_valid());
    assert!(t.is_safe_to_copy());
    assert!(t.is_valid());
}

#[test]
fn lowercase_third_letter_is_invalid_but_parses() {
    let t = ChunkType::from_str("Rust").unwrap();
    assert!(!t.is_valid());
    assert_eq!(ChunkType::from_str("Ru1t"), Err(ChunkTypeError::InvalidCharacter));
}

#[test]
fn wrong_length_text_is_rejected() {
    assert_eq!(ChunkType::from_str("RuS"), Err(ChunkTypeError::UnexpectedLength(3)));
    assert_eq!(ChunkType::from_str("RuStX"), Err(ChunkTypeError::UnexpectedLength(5)));
    assert_eq!(ChunkType::from_str(""), Err(ChunkTypeError::UnexpectedLength(0)));
    // two characters but four bytes: the length passes, the letters do not
    assert_eq!(ChunkType::from_str("éé"), Err(ChunkTypeError::InvalidCharacter));
    assert_eq!(ChunkType::from_str("éa"), Err(ChunkTypeError::UnexpectedLength(3)));
}

#[test]
fn from_bytes_keeps_non_letters() {
    let t = ChunkType::from_bytes([0x31, 0x32, 0x33, 0x34]);
    assert_eq!(t.bytes(), [0x31, 0x32, 0x33, 0x34]);
    assert!(!t.is_valid());
    assert_eq!(t.to_string().unwrap(), "1234");
}

#[test]
fn non_utf8_type_has_no_text() {
    let t = ChunkType::from_bytes([0xff, 0x41, 0x41, 0x41]);
    assert_eq!(t.to_string(), Err(ChunkTypeError::NotText));
}

#[test]
fn bit_five_helper() {
    assert!(ChunkType::is_bit5_zero(b'A'));
    assert!(!ChunkType::is_bit5_zero(b'a'));
    assert!(ChunkType::is_bit5_zero(0));
}
