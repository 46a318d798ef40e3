use crate::chunk::{
    lemma_parse_ignores_what_follows, lemma_to_bytes_of_parse, parse_chunk, Chunk, ChunkView,
};
use crate::chunk_type::valid_type_bytes;
use crate::errors::Errors;
use crate::text::{is_ascii_bytes, lemma_ascii_text};
use vstd::prelude::*;
use vstd::slice::slice_subrange;
use vstd::string::StringSliceAdditionalSpecFns;

verus! {

/// The eight bytes that every PNG byte stream begins with.
pub const SIGNATURE: [u8; 8] = [137, 80, 78, 71, 13, 10, 26, 10];

/// The signature as a sequence.
pub open spec fn signature() -> Seq<u8> {
    SIGNATURE@
}

/// The byte streams of the chunks, one after the other, with nothing in
/// between.
pub open spec fn chunks_bytes(chunks: Seq<ChunkView>) -> Seq<u8>
    decreases chunks.len(),
{
    if chunks.len() == 0 {
        Seq::empty()
    } else {
        chunks.first().to_bytes() + chunks_bytes(chunks.drop_first())
    }
}

/// A whole PNG byte stream: the signature, then the chunks.
pub open spec fn container_bytes(chunks: Seq<ChunkView>) -> Seq<u8> {
    signature() + chunks_bytes(chunks)
}

/// What reading chunks from the front of `bytes` until nothing is left
/// gives: all the chunks in order, or the error of the first one that cannot
/// be read.
pub open spec fn parse_chunks(bytes: Seq<u8>) -> Result<Seq<ChunkView>, Errors>
    decreases bytes.len(),
{
    if bytes.len() == 0 {
        Ok(Seq::empty())
    } else {
        match parse_chunk(bytes) {
            Err(e) => Err(e),
            Ok(first) => {
                // A chunk that was read ends within the bytes it was read
                // from, so this always holds; it is what makes the rest
                // shorter.
                if 12 + first.length() <= bytes.len() {
                    match parse_chunks(bytes.skip(12 + first.length() as int)) {
                        Err(e) => Err(e),
                        Ok(rest) => Ok(seq![first] + rest),
                    }
                } else {
                    Err(Errors::TruncatedInput)
                }
            },
        }
    }
}

/// What reading a whole PNG byte stream gives: its chunks in order, or why
/// it cannot be read.
pub open spec fn parse_container(bytes: Seq<u8>) -> Result<Seq<ChunkView>, Errors> {
    if bytes.len() < 8 {
        Err(Errors::TruncatedInput)
    } else if bytes.subrange(0, 8) != signature() {
        Err(Errors::BadSignature)
    } else {
        parse_chunks(bytes.skip(8))
    }
}

/// The position of the first chunk whose type code, written as text, is
/// `text`; the number of chunks if there is none.
pub open spec fn first_match(chunks: Seq<ChunkView>, text: Seq<char>) -> int
    decreases chunks.len(),
{
    if chunks.len() == 0 {
        0
    } else if chunks.first().has_type_text(text) {
        0
    } else {
        1 + first_match(chunks.drop_first(), text)
    }
}

/// `first_match` is the least position that holds a chunk of the type asked
/// for: no chunk before it has that type, and the chunk at it has, unless
/// it is the number of chunks.
pub proof fn lemma_first_match(chunks: Seq<ChunkView>, text: Seq<char>)
    ensures
        0 <= first_match(chunks, text) <= chunks.len(),
        forall|j: int|
            0 <= j < first_match(chunks, text) ==> !(#[trigger] chunks[j]).has_type_text(text),
        first_match(chunks, text) < chunks.len() ==> chunks[first_match(
            chunks,
            text,
        )].has_type_text(text),
    decreases chunks.len(),
{
    if chunks.len() > 0 && !chunks.first().has_type_text(text) {
        let rest = chunks.drop_first();
        lemma_first_match(rest, text);
        assert forall|j: int| 0 <= j < first_match(chunks, text) implies !(
        #[trigger] chunks[j]).has_type_text(text) by {
            if j > 0 {
                assert(chunks[j] == rest[j - 1]);
            }
        }
    }
}

/// A position that holds a chunk of the type asked for, or is the number of
/// chunks, and that no chunk of that type comes before, is `first_match`.
pub proof fn lemma_first_match_unique(chunks: Seq<ChunkView>, text: Seq<char>, i: int)
    requires
        0 <= i <= chunks.len(),
        forall|j: int| 0 <= j < i ==> !(#[trigger] chunks[j]).has_type_text(text),
        i < chunks.len() ==> chunks[i].has_type_text(text),
    ensures
        first_match(chunks, text) == i,
{
    lemma_first_match(chunks, text);
    let m = first_match(chunks, text);
    if m < i {
        assert(!chunks[m].has_type_text(text));
    }
}

/// Adding a chunk at the end adds its bytes at the end.
pub proof fn lemma_chunks_bytes_push(chunks: Seq<ChunkView>, last: ChunkView)
    ensures
        chunks_bytes(chunks.push(last)) == chunks_bytes(chunks) + last.to_bytes(),
    decreases chunks.len(),
{
    let all = chunks.push(last);
    if chunks.len() == 0 {
        assert(all.drop_first() =~= Seq::<ChunkView>::empty());
        assert(chunks_bytes(all.drop_first()) =~= Seq::<u8>::empty());
        assert(chunks_bytes(all) =~= last.to_bytes());
        assert(chunks_bytes(chunks) + last.to_bytes() =~= last.to_bytes());
    } else {
        assert(all.drop_first() =~= chunks.drop_first().push(last));
        lemma_chunks_bytes_push(chunks.drop_first(), last);
        assert(chunks_bytes(all) =~= chunks_bytes(chunks) + last.to_bytes());
    }
}

/// Reading back what was written gives the same chunks in the same order,
/// provided every type code is four letters and every payload fits its
/// length field.
pub proof fn lemma_parse_of_container_bytes(chunks: Seq<ChunkView>)
    requires
        forall|i: int|
            0 <= i < chunks.len() ==> valid_type_bytes((#[trigger] chunks[i]).chunk_type)
                && chunks[i].fits(),
    ensures
        parse_container(container_bytes(chunks)) == Ok::<Seq<ChunkView>, Errors>(chunks),
{
    let bytes = container_bytes(chunks);
    assert(bytes.subrange(0, 8) =~= signature());
    assert(bytes.skip(8) =~= chunks_bytes(chunks));
    lemma_parse_of_chunks_bytes(chunks);
}

proof fn lemma_parse_of_chunks_bytes(chunks: Seq<ChunkView>)
    requires
        forall|i: int|
            0 <= i < chunks.len() ==> valid_type_bytes((#[trigger] chunks[i]).chunk_type)
                && chunks[i].fits(),
    ensures
        parse_chunks(chunks_bytes(chunks)) == Ok::<Seq<ChunkView>, Errors>(chunks),
    decreases chunks.len(),
{
    if chunks.len() > 0 {
        let first = chunks.first();
        let rest = chunks.drop_first();
        let bytes = chunks_bytes(chunks);
        assert(valid_type_bytes(chunks[0].chunk_type) && chunks[0].fits());
        lemma_parse_ignores_what_follows(first, chunks_bytes(rest));
        assert(bytes.skip(12 + first.length() as int) =~= chunks_bytes(rest));
        assert forall|i: int| 0 <= i < rest.len() implies valid_type_bytes(
            (#[trigger] rest[i]).chunk_type,
        ) && rest[i].fits() by {
            assert(rest[i] == chunks[i + 1]);
        }
        lemma_parse_of_chunks_bytes(rest);
        assert(seq![first] + rest =~= chunks);
        assert(bytes.len() >= 12);
    } else {
        assert(chunks =~= Seq::<ChunkView>::empty());
    }
}

/// Writing down what was read gives the bytes that were read.
pub proof fn lemma_container_bytes_of_parse(bytes: Seq<u8>)
    requires
        parse_container(bytes) is Ok,
    ensures
        container_bytes(parse_container(bytes)->Ok_0) == bytes,
{
    lemma_chunks_bytes_of_parse(bytes.skip(8));
    assert(bytes =~= bytes.subrange(0, 8) + bytes.skip(8));
}

proof fn lemma_chunks_bytes_of_parse(bytes: Seq<u8>)
    requires
        parse_chunks(bytes) is Ok,
    ensures
        chunks_bytes(parse_chunks(bytes)->Ok_0) == bytes,
    decreases bytes.len(),
{
    if bytes.len() > 0 {
        let first = parse_chunk(bytes)->Ok_0;
        let tail = bytes.skip(12 + first.length() as int);
        let rest = parse_chunks(tail)->Ok_0;
        lemma_to_bytes_of_parse(bytes);
        lemma_chunks_bytes_of_parse(tail);
        let chunks = seq![first] + rest;
        assert(chunks.drop_first() =~= rest);
        assert(bytes =~= bytes.take(12 + first.length() as int) + tail);
    } else {
        assert(chunks_bytes(Seq::<ChunkView>::empty()) =~= bytes);
    }
}

/// A byte stream that is read as a container begins with the signature.
pub proof fn lemma_signature_required(bytes: Seq<u8>)
    requires
        parse_container(bytes) is Ok,
    ensures
        bytes.len() >= 8,
        bytes.subrange(0, 8) == signature(),
{
}

/// The chunks of a PNG byte stream, in the order of the stream.
#[derive(Debug)]
pub struct PngContainer {
    chunks: Vec<Chunk>,
}

impl View for PngContainer {
    type V = Seq<ChunkView>;

    closed spec fn view(&self) -> Seq<ChunkView> {
        self.chunks@.map_values(|c: Chunk| c@)
    }
}

impl PngContainer {
    /// A container without chunks.
    pub fn new() -> (r: PngContainer)
        ensures
            r@ == Seq::<ChunkView>::empty(),
    {
        let r = PngContainer { chunks: Vec::new() };
        assert(r@ =~= Seq::<ChunkView>::empty());
        r
    }

    /// Reads a whole PNG byte stream: the signature, then chunk after chunk
    /// until the stream is used up. Either every chunk is read or the
    /// stream is refused, with the error of the first chunk that cannot be
    /// read.
    pub fn parse(bytes: &[u8]) -> (r: Result<PngContainer, Errors>)
        ensures
            match r {
                Ok(png) => parse_container(bytes@) == Ok::<Seq<ChunkView>, Errors>(png@),
                Err(e) => parse_container(bytes@) == Err::<Seq<ChunkView>, Errors>(e),
            },
    {
        if bytes.len() < 8 {
            return Err(Errors::TruncatedInput);
        }
        let mut k: usize = 0;
        while k < 8
            invariant
                k <= 8 <= bytes.len(),
                forall|j: int| 0 <= j < k ==> bytes@[j] == signature()[j],
            decreases 8 - k,
        {
            if bytes[k] != SIGNATURE[k] {
                assert(bytes@.subrange(0, 8)[k as int] != signature()[k as int]);
                return Err(Errors::BadSignature);
            }
            k += 1;
        }
        assert(bytes@.subrange(0, 8) =~= signature());
        let mut chunks: Vec<Chunk> = Vec::new();
        let mut pos: usize = 8;
        assert(chunks@.map_values(|c: Chunk| c@) =~= Seq::<ChunkView>::empty());
        assert(Seq::<ChunkView>::empty() + parse_chunks(bytes@.skip(8))->Ok_0 =~= parse_chunks(
            bytes@.skip(8),
        )->Ok_0);
        while pos < bytes.len()
            invariant
                8 <= pos <= bytes.len(),
                parse_container(bytes@) == parse_chunks(bytes@.skip(8)),
                parse_chunks(bytes@.skip(8)) == match parse_chunks(bytes@.skip(pos as int)) {
                    Ok(rest) => Ok::<Seq<ChunkView>, Errors>(
                        chunks@.map_values(|c: Chunk| c@) + rest,
                    ),
                    Err(e) => Err::<Seq<ChunkView>, Errors>(e),
                },
            decreases bytes.len() - pos,
        {
            let ghost before = chunks@.map_values(|c: Chunk| c@);
            let ghost tail = bytes@.skip(pos as int);
            let chunk = match Chunk::parse(slice_subrange(bytes, pos, bytes.len())) {
                Ok(c) => c,
                Err(e) => {
                    assert(bytes@.subrange(pos as int, bytes@.len() as int) =~= tail);
                    return Err(e);
                },
            };
            proof {
                assert(bytes@.subrange(pos as int, bytes@.len() as int) =~= tail);
                lemma_to_bytes_of_parse(tail);
                assert(tail.skip(12 + chunk@.length() as int) =~= bytes@.skip(
                    pos + 12 + chunk@.length(),
                ));
            }
            pos = pos + 12 + chunk.length();
            chunks.push(chunk);
            proof {
                let after = chunks@.map_values(|c: Chunk| c@);
                assert(after =~= before.push(chunk@));
                match parse_chunks(bytes@.skip(pos as int)) {
                    Ok(rest) => {
                        assert(before + (seq![chunk@] + rest) =~= after + rest);
                    },
                    Err(_) => {},
                }
            }
        }
        proof {
            assert(bytes@.skip(pos as int) =~= Seq::<u8>::empty());
            assert(chunks@.map_values(|c: Chunk| c@) + Seq::<ChunkView>::empty()
                =~= chunks@.map_values(|c: Chunk| c@));
        }
        Ok(PngContainer { chunks })
    }

    /// The container as a byte stream: the signature, then every chunk's
    /// bytes in order.
    pub fn serialize(&self) -> (r: Vec<u8>)
        ensures
            r@ == container_bytes(self@),
    {
        let mut out: Vec<u8> = Vec::new();
        out.extend_from_slice(SIGNATURE.as_slice());
        assert(out@ =~= signature());
        let mut i: usize = 0;
        assert(self@.take(0) =~= Seq::<ChunkView>::empty());
        assert(out@ =~= signature() + chunks_bytes(self@.take(0)));
        while i < self.chunks.len()
            invariant
                i <= self.chunks.len(),
                self@.len() == self.chunks.len(),
                out@ == signature() + chunks_bytes(self@.take(i as int)),
            decreases self.chunks.len() - i,
        {
            let piece = self.chunks[i].as_bytes();
            proof {
                assert(self@.take(i + 1) =~= self@.take(i as int).push(self@[i as int]));
                lemma_chunks_bytes_push(self@.take(i as int), self@[i as int]);
            }
            out.extend_from_slice(piece.as_slice());
            i += 1;
        }
        assert(self@.take(i as int) =~= self@);
        out
    }

    /// Puts `chunk` after the chunks that are there.
    pub fn append_chunk(&mut self, chunk: Chunk)
        ensures
            final(self)@ == old(self)@.push(chunk@),
    {
        self.chunks.push(chunk);
        assert(self@ =~= old(self)@.push(chunk@));
    }

    /// True when the type code of `chunk`, written as text, is `type_text`.
    fn has_type(chunk: &Chunk, type_text: &str) -> (r: bool)
        ensures
            r == chunk@.has_type_text(type_text@),
    {
        let wanted = type_text.as_bytes();
        let code = chunk.chunk_type().bytes();
        proof {
            assert(is_ascii_bytes(code@));
            lemma_ascii_text(code@);
        }
        let r = wanted.len() == 4 && wanted[0] == code[0] && wanted[1] == code[1] && wanted[2]
            == code[2] && wanted[3] == code[3];
        proof {
            if r {
                assert(wanted@ =~= code@);
            }
        }
        r
    }

    /// The position of the first chunk of the type that `type_text` names;
    /// the number of chunks if there is none.
    fn position_of(&self, type_text: &str) -> (r: usize)
        ensures
            r == first_match(self@, type_text@),
            r <= self.chunks.len(),
            self@.len() == self.chunks.len(),
    {
        let mut i: usize = 0;
        while i < self.chunks.len()
            invariant
                i <= self.chunks.len(),
                self@.len() == self.chunks.len(),
                forall|j: int| 0 <= j < i ==> !(#[trigger] self@[j]).has_type_text(type_text@),
            decreases self.chunks.len() - i,
        {
            if Self::has_type(&self.chunks[i], type_text) {
                proof {
                    lemma_first_match_unique(self@, type_text@, i as int);
                }
                return i;
            }
            i += 1;
        }
        proof {
            lemma_first_match_unique(self@, type_text@, i as int);
        }
        i
    }

    /// The first chunk, in the order of the stream, whose type code written
    /// as text is exactly `type_text`.
    pub fn find_chunk_by_type(&self, type_text: &str) -> (r: Option<&Chunk>)
        ensures
            match r {
                Some(c) => first_match(self@, type_text@) < self@.len() && c@ == self@[first_match(
                    self@,
                    type_text@,
                )],
                None => first_match(self@, type_text@) == self@.len(),
            },
    {
        let i = self.position_of(type_text);
        if i < self.chunks.len() {
            Some(&self.chunks[i])
        } else {
            None
        }
    }

    /// Takes the first chunk of the type that `type_text` names out of the
    /// container and returns it. The other chunks keep their order. When
    /// there is no such chunk the container is left as it was.
    pub fn remove_first_chunk_by_type(&mut self, type_text: &str) -> (r: Result<Chunk, Errors>)
        ensures
            match r {
                Ok(c) => {
                    let i = first_match(old(self)@, type_text@);
                    &&& i < old(self)@.len()
                    &&& c@ == old(self)@[i]
                    &&& final(self)@ == old(self)@.remove(i)
                },
                Err(e) => {
                    &&& e == Errors::ChunkNotFound
                    &&& first_match(old(self)@, type_text@) == old(self)@.len()
                    &&& final(self)@ == old(self)@
                },
            },
    {
        let i = self.position_of(type_text);
        if i < self.chunks.len() {
            let c = self.chunks.remove(i);
            assert(self@ =~= old(self)@.remove(i as int));
            Ok(c)
        } else {
            Err(Errors::ChunkNotFound)
        }
    }

    /// The chunks, in the order of the stream.
    pub fn chunks(&self) -> (r: &[Chunk])
        ensures
            r@.map_values(|c: Chunk| c@) == self@,
    {
        self.chunks.as_slice()
    }
}

} // verus!
