use crate::chunk::{Chunk, ChunkView};
use crate::chunk_type::ChunkType;
use crate::errors::Errors;
use crate::png::{container_bytes, first_match, parse_container, PngContainer};
use vstd::prelude::*;
use vstd::slice::slice_to_vec;
use vstd::string::StringSliceAdditionalSpecFns;
use vstd::utf8::*;

verus! {

/// The PNG byte stream `file` with one more chunk at its end: a chunk of
/// type `chunk_type` whose payload is `message` in UTF-8. A stream that
/// cannot be read is refused with the error of reading it.
pub fn encode(file: &[u8], chunk_type: ChunkType, message: &str) -> (r: Result<Vec<u8>, Errors>)
    ensures
        match parse_container(file@) {
            Ok(chunks) => r is Ok && r->Ok_0@ == container_bytes(
                chunks.push(ChunkView { chunk_type: chunk_type@, data: message.spec_bytes() }),
            ),
            Err(e) => r == Err::<Vec<u8>, Errors>(e),
        },
{
    let chunk = Chunk::new(chunk_type, slice_to_vec(message.as_bytes()));
    match PngContainer::parse(file) {
        Ok(mut png) => {
            png.append_chunk(chunk);
            Ok(png.serialize())
        },
        Err(e) => Err(e),
    }
}

/// The message that the PNG byte stream `file` carries in its first chunk of
/// the type that `chunk_type` names. A stream that cannot be read is refused
/// with the error of reading it, one without such a chunk with
/// `ChunkNotFound`, and a payload that is not UTF-8 with `InvalidText`.
pub fn decode(file: &[u8], chunk_type: &str) -> (r: Result<String, Errors>)
    ensures
        match parse_container(file@) {
            Ok(chunks) => {
                let i = first_match(chunks, chunk_type@);
                if i == chunks.len() {
                    r == Err::<String, Errors>(Errors::ChunkNotFound)
                } else if !valid_utf8(chunks[i].data) {
                    r == Err::<String, Errors>(Errors::InvalidText)
                } else {
                    r is Ok && r->Ok_0@ == decode_utf8(chunks[i].data)
                }
            },
            Err(e) => r == Err::<String, Errors>(e),
        },
{
    let png = match PngContainer::parse(file) {
        Ok(png) => png,
        Err(e) => {
            return Err(e);
        },
    };
    match png.find_chunk_by_type(chunk_type) {
        Some(chunk) => chunk.data_as_string(),
        None => Err(Errors::ChunkNotFound),
    }
}

/// The PNG byte stream `file` without its first chunk of the type that
/// `chunk_type` names. A stream that cannot be read is refused with the
/// error of reading it, and one without such a chunk with `ChunkNotFound`.
pub fn remove(file: &[u8], chunk_type: &str) -> (r: Result<Vec<u8>, Errors>)
    ensures
        match parse_container(file@) {
            Ok(chunks) => {
                let i = first_match(chunks, chunk_type@);
                if i == chunks.len() {
                    r == Err::<Vec<u8>, Errors>(Errors::ChunkNotFound)
                } else {
                    r is Ok && r->Ok_0@ == container_bytes(chunks.remove(i))
                }
            },
            Err(e) => r == Err::<Vec<u8>, Errors>(e),
        },
{
    let mut png = match PngContainer::parse(file) {
        Ok(png) => png,
        Err(e) => {
            return Err(e);
        },
    };
    match png.remove_first_chunk_by_type(chunk_type) {
        Ok(_) => Ok(png.serialize()),
        Err(e) => Err(e),
    }
}

} // verus!
