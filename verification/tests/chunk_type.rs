use pngme::chunk_type::ChunkType;
use pngme::errors::Errors;

#[test]
fn chunk_type_from_bytes() {
    let expected = [82, 117, 83, 116];
    let actual = ChunkType::from_bytes([82, 117, 83, 116]).unwrap();
    assert_eq!(expected, actual.bytes());
}

#[test]
fn chunk_type_from_str() {
    let expected = ChunkType::from_bytes([82, 117, 83, 116]).unwrap();
    let actual = ChunkType::from_str("RuSt").unwrap();
    assert_eq!(expected, actual);
    assert_eq!(actual.bytes(), *b"RuSt");
}

#[test]
fn chunk_type_accepts_letters_only() {
    assert!(ChunkType::from_bytes(*b"RuSt").is_ok());
    assert_eq!(
        ChunkType::from_bytes(*b"Ru1t").unwrap_err(),
        Errors::InvalidChunkType
    );
    for b in 0..=255u8 {
        let letter = b.is_ascii_alphabetic();
        assert_eq!(ChunkType::from_bytes([b, b'u', b'S', b't']).is_ok(), letter);
        assert_eq!(ChunkType::from_bytes([b'R', b, b'S', b't']).is_ok(), letter);
        assert_eq!(ChunkType::from_bytes([b'R', b'u', b, b't']).is_ok(), letter);
        assert_eq!(ChunkType::from_bytes([b'R', b'u', b'S', b]).is_ok(), letter);
    }
}

#[test]
fn chunk_type_edges_of_the_alphabet() {
    assert!(ChunkType::from_bytes([65, 90, 97, 122]).is_ok());
    assert!(ChunkType::from_bytes([64, 90, 97, 122]).is_err());
    assert!(ChunkType::from_bytes([65, 91, 97, 122]).is_err());
    assert!(ChunkType::from_bytes([65, 90, 96, 122]).is_err());
    assert!(ChunkType::from_bytes([65, 90, 97, 123]).is_err());
}

#[test]
fn chunk_type_from_str_refuses_other_texts() {
    assert_eq!(ChunkType::from_str("Ru1t").unwrap_err(), Errors::InvalidChunkType);
    assert_eq!(ChunkType::from_str("fOO ").unwrap_err(), Errors::InvalidChunkType);
    assert_eq!(ChunkType::from_str("").unwrap_err(), Errors::InvalidChunkType);
    assert_eq!(ChunkType::from_str("RuS").unwrap_err(), Errors::InvalidChunkType);
    assert_eq!(ChunkType::from_str("RuStt").unwrap_err(), Errors::InvalidChunkType);
    assert_eq!(ChunkType::from_str("Ru\u{e9}").unwrap_err(), Errors::InvalidChunkType);
    assert_eq!(ChunkType::from_str("\u{1F600}").unwrap_err(), Errors::InvalidChunkType);
}

#[test]
fn chunk_type_is_critical() {
    let chunk = ChunkType::from_str("RuSt").unwrap();
    assert!(chunk.is_critical());
}

#[test]
fn chunk_type_is_not_critical() {
    let chunk = ChunkType::from_str("ruSt").unwrap();
    assert!(!chunk.is_critical());
}

#[test]
fn chunk_type_is_public() {
    let chunk = ChunkType::from_str("RUSt").unwrap();
    assert!(chunk.is_public());
}

#[test]
fn chunk_type_is_not_public() {
    let chunk = ChunkType::from_str("RuSt").unwrap();
    assert!(!chunk.is_public());
}

#[test]
fn chunk_type_is_reserved_bit_valid() {
    let chunk = ChunkType::from_str("RuSt").unwrap();
    assert!(chunk.is_reserved_bit_valid());
}

#[test]
fn chunk_type_is_reserved_bit_invalid() {
    let chunk = ChunkType::from_str("Rust").unwrap();
    assert!(!chunk.is_reserved_bit_valid());
}

#[test]
fn chunk_type_is_safe_to_copy() {
    let chunk = ChunkType::from_str("RuSt").unwrap();
    assert!(chunk.is_safe_to_copy());
}

#[test]
fn chunk_type_is_unsafe_to_copy() {
    let chunk = ChunkType::from_str("RuST").unwrap();
    assert!(!chunk.is_safe_to_copy());
}

#[test]
fn chunk_type_with_reserved_bit_set_is_still_built() {
    let chunk = ChunkType::from_bytes(*b"Rust");
    assert!(chunk.is_ok());
    assert_eq!(chunk.unwrap().bytes(), *b"Rust");
}

#[test]
fn chunk_type_to_text() {
    let chunk = ChunkType::from_bytes([82, 117, 83, 116]).unwrap();
    assert_eq!(chunk.to_text(), "RuSt");
    let other = ChunkType::from_str("IEND").unwrap();
    assert_eq!(other.to_text(), String::from("IEND"));
}

#[test]
fn chunk_type_equality_is_by_value() {
    let a = ChunkType::from_bytes([82, 117, 83, 116]).unwrap();
    let b = ChunkType::from_str("RuSt").unwrap();
    let c = ChunkType::from_str("RuSu").unwrap();
    let d = ChunkType::from_str("ruSt").unwrap();
    assert!(a == b);
    assert!(a != c);
    assert!(a != d);
    let copy = a;
    assert_eq!(copy, a);
}
