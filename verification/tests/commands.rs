use pngme::chunk::Chunk;
use pngme::chunk_type::ChunkType;
use pngme::commands::{decode, encode, remove};
use pngme::errors::Errors;
use pngme::png::{PngContainer, SIGNATURE};

fn small_file() -> Vec<u8> {
    let mut png = PngContainer::new();
    png.append_chunk(Chunk::new(ChunkType::from_str("IHDR").unwrap(), vec![0; 13]));
    png.append_chunk(Chunk::new(ChunkType::from_str("IEND").unwrap(), vec![]));
    png.serialize()
}

#[test]
fn encode_appends_the_message() {
    let file = small_file();
    let out = encode(&file, ChunkType::from_str("ruSt").unwrap(), "hello").unwrap();
    let mut expected = file.clone();
    expected.extend_from_slice(
        &Chunk::new(ChunkType::from_str("ruSt").unwrap(), b"hello".to_vec()).as_bytes(),
    );
    assert_eq!(out, expected);
    let png = PngContainer::parse(&out).unwrap();
    assert_eq!(png.chunks().len(), 3);
    assert_eq!(png.chunks()[2].data_as_string().unwrap(), "hello");
}

#[test]
fn encode_refuses_what_is_no_png() {
    let t = ChunkType::from_str("ruSt").unwrap();
    assert_eq!(encode(b"not a png at all", t, "hello").unwrap_err(), Errors::BadSignature);
    assert_eq!(encode(b"short", t, "hello").unwrap_err(), Errors::TruncatedInput);
}

#[test]
fn decode_finds_the_message() {
    let file = small_file();
    let out = encode(&file, ChunkType::from_str("ruSt").unwrap(), "hello").unwrap();
    let out = encode(&out, ChunkType::from_str("ruSt").unwrap(), "again").unwrap();
    assert_eq!(decode(&out, "ruSt").unwrap(), "hello");
}

#[test]
fn decode_errors() {
    let file = small_file();
    assert_eq!(decode(&file, "ruSt").unwrap_err(), Errors::ChunkNotFound);
    assert_eq!(decode(&file[..7], "ruSt").unwrap_err(), Errors::TruncatedInput);
    let mut png = PngContainer::new();
    png.append_chunk(Chunk::new(ChunkType::from_str("ruSt").unwrap(), vec![0xff]));
    assert_eq!(decode(&png.serialize(), "ruSt").unwrap_err(), Errors::InvalidText);
    let mut broken = file.clone();
    let last = broken.len() - 1;
    broken[last] ^= 1;
    assert_eq!(decode(&broken, "IEND").unwrap_err(), Errors::ChecksumMismatch);
}

#[test]
fn remove_takes_the_message_out() {
    let file = small_file();
    let with = encode(&file, ChunkType::from_str("ruSt").unwrap(), "hello").unwrap();
    assert_eq!(remove(&with, "ruSt").unwrap(), file);
    assert_eq!(remove(&file, "ruSt").unwrap_err(), Errors::ChunkNotFound);
    assert_eq!(remove(&SIGNATURE, "ruSt").unwrap_err(), Errors::ChunkNotFound);
    assert_eq!(remove(&[1, 2, 3, 4, 5, 6, 7, 8], "ruSt").unwrap_err(), Errors::BadSignature);
}
