use pngme::chunk::Chunk;
use pngme::chunk_type::ChunkType;
use pngme::errors::Errors;
use pngme::png::{PngContainer, SIGNATURE};

fn chunk_from_strings(chunk_type: &str, data: &str) -> Chunk {
    Chunk::new(ChunkType::from_str(chunk_type).unwrap(), data.as_bytes().to_vec())
}

fn testing_chunks() -> Vec<Chunk> {
    vec![
        chunk_from_strings("FrSt", "I am the first chunk"),
        chunk_from_strings("miDl", "I am another chunk"),
        chunk_from_strings("LASt", "I am the last chunk"),
    ]
}

fn container_of(chunks: Vec<Chunk>) -> PngContainer {
    let mut png = PngContainer::new();
    for chunk in chunks {
        png.append_chunk(chunk);
    }
    png
}

fn stream_of(chunks: &[Chunk]) -> Vec<u8> {
    let mut bytes = SIGNATURE.to_vec();
    for chunk in chunks {
        bytes.extend_from_slice(&chunk.as_bytes());
    }
    bytes
}

fn types_of(png: &PngContainer) -> Vec<String> {
    png.chunks().iter().map(|c| c.chunk_type().to_text()).collect()
}

#[test]
fn signature_is_the_png_signature() {
    assert_eq!(SIGNATURE, [0x89, 0x50, 0x4E, 0x47, 0x0D, 0x0A, 0x1A, 0x0A]);
}

#[test]
fn new_container_is_empty() {
    let png = PngContainer::new();
    assert_eq!(png.chunks().len(), 0);
    assert_eq!(png.serialize(), SIGNATURE.to_vec());
}

#[test]
fn parse_reads_all_chunks_in_order() {
    let bytes = stream_of(&testing_chunks());
    let png = PngContainer::parse(&bytes).unwrap();
    assert_eq!(png.chunks().len(), 3);
    assert_eq!(types_of(&png), vec!["FrSt", "miDl", "LASt"]);
    assert_eq!(png.chunks()[1].data_as_string().unwrap(), "I am another chunk");
}

#[test]
fn parse_of_signature_alone_is_empty() {
    let png = PngContainer::parse(&SIGNATURE).unwrap();
    assert_eq!(png.chunks().len(), 0);
}

#[test]
fn parse_refuses_short_buffer() {
    assert_eq!(PngContainer::parse(&[]).unwrap_err(), Errors::TruncatedInput);
    assert_eq!(
        PngContainer::parse(&SIGNATURE[..7]).unwrap_err(),
        Errors::TruncatedInput
    );
}

#[test]
fn parse_refuses_bad_signature() {
    let chunks = testing_chunks();
    let mut bytes = stream_of(&chunks);
    bytes[0] = 13;
    assert_eq!(PngContainer::parse(&bytes).unwrap_err(), Errors::BadSignature);
    for i in 0..8 {
        let mut bytes = stream_of(&chunks);
        bytes[i] ^= 0x01;
        assert_eq!(PngContainer::parse(&bytes).unwrap_err(), Errors::BadSignature);
    }
    let without: Vec<u8> = stream_of(&chunks)[8..].to_vec();
    assert_eq!(PngContainer::parse(&without).unwrap_err(), Errors::BadSignature);
    assert_eq!(
        PngContainer::parse(&[13, 80, 78, 71, 13, 10, 26, 10]).unwrap_err(),
        Errors::BadSignature
    );
}

#[test]
fn parse_is_all_or_nothing() {
    let chunks = testing_chunks();
    let good = stream_of(&chunks);

    let mut bad_crc = good.clone();
    let last = bad_crc.len() - 1;
    bad_crc[last] ^= 0x01;
    assert_eq!(PngContainer::parse(&bad_crc).unwrap_err(), Errors::ChecksumMismatch);

    let mut bad_type = good.clone();
    bad_type[8 + 4] = b'1';
    assert_eq!(PngContainer::parse(&bad_type).unwrap_err(), Errors::InvalidChunkType);

    let cut = &good[..good.len() - 3];
    assert_eq!(PngContainer::parse(cut).unwrap_err(), Errors::TruncatedInput);

    let mut trailing = good.clone();
    trailing.extend_from_slice(&[0, 0, 0]);
    assert_eq!(PngContainer::parse(&trailing).unwrap_err(), Errors::TruncatedInput);
}

#[test]
fn parse_reports_the_first_chunk_that_fails() {
    let chunks = testing_chunks();
    let mut bytes = stream_of(&chunks);
    let second = 8 + chunks[0].as_bytes().len();
    bytes[second + 4] = b'1';
    let last = bytes.len() - 1;
    bytes[last] ^= 0x01;
    assert_eq!(PngContainer::parse(&bytes).unwrap_err(), Errors::InvalidChunkType);
}

#[test]
fn serialize_is_signature_then_chunks() {
    let chunks = testing_chunks();
    let expected = stream_of(&chunks);
    let png = container_of(chunks);
    assert_eq!(png.serialize(), expected);
}

#[test]
fn container_round_trip() {
    let png = container_of(testing_chunks());
    let bytes = png.serialize();
    let back = PngContainer::parse(&bytes).unwrap();
    assert_eq!(back.chunks().len(), png.chunks().len());
    for (a, b) in back.chunks().iter().zip(png.chunks().iter()) {
        assert_eq!(a.chunk_type(), b.chunk_type());
        assert_eq!(a.data(), b.data());
        assert_eq!(a.length(), b.length());
        assert_eq!(a.crc(), b.crc());
    }
    assert_eq!(back.serialize(), bytes);
}

#[test]
fn append_chunk_puts_it_last() {
    let mut png = container_of(testing_chunks());
    png.append_chunk(chunk_from_strings("TeSt", "Message"));
    assert_eq!(types_of(&png), vec!["FrSt", "miDl", "LASt", "TeSt"]);
    png.append_chunk(chunk_from_strings("TeSt", "Message"));
    assert_eq!(png.chunks().len(), 5);
    let chunk = png.find_chunk_by_type("TeSt").unwrap();
    assert_eq!(chunk.chunk_type().to_text(), "TeSt");
    assert_eq!(chunk.data_as_string().unwrap(), "Message");
}

#[test]
fn find_returns_the_first_of_two() {
    let png = container_of(vec![
        chunk_from_strings("fOOd", "zero"),
        chunk_from_strings("ruSt", "one"),
        chunk_from_strings("ruSt", "two"),
    ]);
    let found = png.find_chunk_by_type("ruSt").unwrap();
    assert_eq!(found.data_as_string().unwrap(), "one");
    assert_eq!(png.find_chunk_by_type("fOOd").unwrap().data_as_string().unwrap(), "zero");
    assert!(png.find_chunk_by_type("zzzz").is_none());
}

#[test]
fn find_matches_the_whole_text_and_its_case() {
    let png = container_of(testing_chunks());
    assert!(png.find_chunk_by_type("FrSt").is_some());
    assert!(png.find_chunk_by_type("frst").is_none());
    assert!(png.find_chunk_by_type("FRST").is_none());
    assert!(png.find_chunk_by_type("FrS").is_none());
    assert!(png.find_chunk_by_type("FrStt").is_none());
    assert!(png.find_chunk_by_type("").is_none());
    assert!(png.find_chunk_by_type("fOO ").is_none());
    assert!(png.find_chunk_by_type("Fr\u{e9}").is_none());
}

#[test]
fn remove_takes_only_the_first_of_two() {
    let mut png = container_of(vec![
        chunk_from_strings("fOOd", "zero"),
        chunk_from_strings("ruSt", "one"),
        chunk_from_strings("miDl", "middle"),
        chunk_from_strings("ruSt", "two"),
    ]);
    let removed = png.remove_first_chunk_by_type("ruSt").unwrap();
    assert_eq!(removed.data_as_string().unwrap(), "one");
    assert_eq!(types_of(&png), vec!["fOOd", "miDl", "ruSt"]);
    assert_eq!(png.find_chunk_by_type("ruSt").unwrap().data_as_string().unwrap(), "two");
    let removed = png.remove_first_chunk_by_type("ruSt").unwrap();
    assert_eq!(removed.data_as_string().unwrap(), "two");
    assert_eq!(types_of(&png), vec!["fOOd", "miDl"]);
    assert_eq!(
        png.remove_first_chunk_by_type("ruSt").unwrap_err(),
        Errors::ChunkNotFound
    );
}

#[test]
fn remove_of_a_missing_type_changes_nothing() {
    let mut png = container_of(testing_chunks());
    let before = png.serialize();
    assert_eq!(
        png.remove_first_chunk_by_type("zzzz").unwrap_err(),
        Errors::ChunkNotFound
    );
    assert_eq!(png.serialize(), before);
    assert_eq!(png.chunks().len(), 3);
}

#[test]
fn chunks_are_in_stream_order() {
    let png = container_of(testing_chunks());
    let chunks = png.chunks();
    assert_eq!(chunks.len(), 3);
    assert_eq!(chunks[0].data_as_string().unwrap(), "I am the first chunk");
    assert_eq!(chunks[2].data_as_string().unwrap(), "I am the last chunk");
}
