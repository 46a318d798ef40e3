use crate::chunk_type::{is_letter, valid_type_bytes, ChunkType};
use crate::crc::{crc32, lemma_crc32_single_byte, lemma_crc_update_concat, Crc32, ALL_ONES};
use crate::endian::{
    be_bytes, be_value, lemma_be_bytes_of_value, lemma_be_value_of_bytes, u32_from_be_bytes,
    u32_to_be_bytes,
};
use crate::errors::Errors;
use crate::text::{
    ascii_string, ascii_text, byte_list, decimal, lemma_byte_list_is_ascii, lemma_decimal_is_ascii,
    push_byte_list, push_decimal, string_from_utf8,
};
use vstd::prelude::*;
use vstd::slice::{slice_subrange, slice_to_vec};
use vstd::string::StringExecFns;
use vstd::utf8::*;

verus! {

/// What a chunk is, apart from how it is held in memory: a type code and a
/// payload. The length and the checksum follow from these two.
pub struct ChunkView {
    pub chunk_type: Seq<u8>,
    pub data: Seq<u8>,
}

impl ChunkView {
    /// The number of payload bytes.
    pub open spec fn length(self) -> nat {
        self.data.len()
    }

    /// The CRC-32 over the type code followed by the payload.
    pub open spec fn crc(self) -> u32 {
        crc32(self.chunk_type + self.data)
    }

    /// The length as the four-byte length field can hold it.
    pub open spec fn length_field(self) -> u32 {
        (self.data.len() % 0x1_0000_0000) as u32
    }

    /// True when the payload is short enough for the length field to hold
    /// its length.
    pub open spec fn fits(self) -> bool {
        self.data.len() <= u32::MAX
    }

    /// True when the type code, written as text, is `text`.
    pub open spec fn has_type_text(self, text: Seq<char>) -> bool {
        ascii_text(self.chunk_type) == text
    }

    /// The chunk as a byte stream: length, type code, payload and checksum,
    /// the two numbers in big-endian order.
    #[verifier::opaque]
    pub open spec fn to_bytes(self) -> Seq<u8> {
        be_bytes(self.length_field()) + self.chunk_type + self.data + be_bytes(self.crc())
    }
}

/// A chunk described for a reader: its length, type code, payload and
/// checksum, one to a line, between braces.
pub open spec fn chunk_text(v: ChunkView) -> Seq<char> {
    "Chunk {\n  Length: "@ + ascii_text(decimal(v.length())) + "\n  Type: "@ + ascii_text(
        v.chunk_type,
    ) + "\n  Data: "@ + ascii_text(byte_list(v.data)) + " bytes\n  Crc: "@ + ascii_text(
        decimal(v.crc() as nat),
    ) + "\n}\n"@
}

/// The length that the first four bytes of a chunk's byte stream declare.
pub open spec fn declared_length(bytes: Seq<u8>) -> nat
    recommends
        bytes.len() >= 4,
{
    be_value(bytes.subrange(0, 4)) as nat
}

/// What reading one chunk from the front of `bytes` gives. The declared
/// length alone says where the payload ends; bytes after the checksum are
/// not looked at.
#[verifier::opaque]
pub open spec fn parse_chunk(bytes: Seq<u8>) -> Result<ChunkView, Errors> {
    if bytes.len() < 12 {
        Err(Errors::TruncatedInput)
    } else {
        let n = declared_length(bytes) as int;
        if bytes.len() < 12 + n {
            Err(Errors::TruncatedInput)
        } else {
            let chunk_type = bytes.subrange(4, 8);
            let data = bytes.subrange(8, 8 + n);
            let stored = be_value(bytes.subrange(8 + n, 12 + n));
            if !valid_type_bytes(chunk_type) {
                Err(Errors::InvalidChunkType)
            } else if crc32(chunk_type + data) != stored {
                Err(Errors::ChecksumMismatch)
            } else {
                Ok(ChunkView { chunk_type, data })
            }
        }
    }
}

/// Reading back what was written gives the chunk again, with the same type
/// code, payload, length and checksum, provided its type code is four
/// letters and its payload fits the length field.
pub proof fn lemma_parse_of_to_bytes(v: ChunkView)
    requires
        valid_type_bytes(v.chunk_type),
        v.fits(),
    ensures
        v.to_bytes().len() == 12 + v.length(),
        parse_chunk(v.to_bytes()) is Ok,
        ({
            let w = parse_chunk(v.to_bytes())->Ok_0;
            &&& w == v
            &&& w.chunk_type == v.chunk_type
            &&& w.data == v.data
            &&& w.length() == v.length()
            &&& w.crc() == v.crc()
        }),
{
    lemma_parse_ignores_what_follows(v, Seq::<u8>::empty());
    assert(v.to_bytes() + Seq::<u8>::empty() =~= v.to_bytes());
}

/// What follows a chunk in a stream has no part in reading the chunk.
pub proof fn lemma_parse_ignores_what_follows(v: ChunkView, rest: Seq<u8>)
    requires
        valid_type_bytes(v.chunk_type),
        v.fits(),
    ensures
        v.to_bytes().len() == 12 + v.length(),
        parse_chunk(v.to_bytes() + rest) == Ok::<ChunkView, Errors>(v),
{
    reveal(parse_chunk);
    reveal(ChunkView::to_bytes);
    let n = v.data.len() as int;
    lemma_be_value_of_bytes(v.length_field());
    lemma_be_value_of_bytes(v.crc());
    let bytes = v.to_bytes() + rest;
    assert(bytes.subrange(0, 4) =~= be_bytes(v.length_field()));
    assert(bytes.subrange(4, 8) =~= v.chunk_type);
    assert(bytes.subrange(8, 8 + n) =~= v.data);
    assert(bytes.subrange(8 + n, 12 + n) =~= be_bytes(v.crc()));
}

/// Writing down what was read gives the bytes that were read: the first
/// `12 + length` bytes of the input, which is all of it when nothing follows
/// the chunk.
pub proof fn lemma_to_bytes_of_parse(bytes: Seq<u8>)
    requires
        parse_chunk(bytes) is Ok,
    ensures
        ({
            let v = parse_chunk(bytes)->Ok_0;
            &&& valid_type_bytes(v.chunk_type)
            &&& v.fits()
            &&& v.length() == declared_length(bytes)
            &&& 12 + v.length() <= bytes.len()
            &&& v.to_bytes() == bytes.take(12 + v.length() as int)
        }),
{
    reveal(parse_chunk);
    reveal(ChunkView::to_bytes);
    let v = parse_chunk(bytes)->Ok_0;
    let n = declared_length(bytes) as int;
    lemma_be_bytes_of_value(bytes.subrange(0, 4));
    lemma_be_bytes_of_value(bytes.subrange(8 + n, 12 + n));
    assert(v.to_bytes() =~= bytes.take(12 + n));
}

/// The checksum guards everything behind the length field: change any one
/// byte of the type code, the payload or the stored checksum of a chunk that
/// can be read, and it can be read no more. A type code that is no longer
/// four letters is refused as such; every other change is refused as a
/// checksum mismatch.
pub proof fn lemma_single_byte_change_is_refused(bytes: Seq<u8>, i: int, b: u8)
    requires
        parse_chunk(bytes) is Ok,
        4 <= i < 12 + declared_length(bytes),
        b != bytes[i],
    ensures
        parse_chunk(bytes.update(i, b)) == Err::<ChunkView, Errors>(
            if i < 8 && !is_letter(b) {
                Errors::InvalidChunkType
            } else {
                Errors::ChecksumMismatch
            },
        ),
{
    reveal(parse_chunk);
    let n = declared_length(bytes) as int;
    let changed = bytes.update(i, b);
    let chunk_type = bytes.subrange(4, 8);
    let data = bytes.subrange(8, 8 + n);
    let stored = bytes.subrange(8 + n, 12 + n);
    assert(changed.subrange(0, 4) =~= bytes.subrange(0, 4));
    if i < 8 {
        let new_type = changed.subrange(4, 8);
        assert(changed.subrange(8, 8 + n) =~= data);
        assert(changed.subrange(8 + n, 12 + n) =~= stored);
        assert(new_type[i - 4] == b);
        if is_letter(b) {
            assert forall|j: int| 0 <= j < 4 implies is_letter(#[trigger] new_type[j]) by {
                if j != i - 4 {
                    assert(new_type[j] == chunk_type[j]);
                }
            }
            lemma_crc32_single_byte(chunk_type + data, new_type + data, i - 4);
        }
    } else if i < 8 + n {
        let new_data = changed.subrange(8, 8 + n);
        assert(changed.subrange(4, 8) =~= chunk_type);
        assert(changed.subrange(8 + n, 12 + n) =~= stored);
        assert(new_data[i - 8] == b);
        lemma_crc32_single_byte(chunk_type + data, chunk_type + new_data, i - 4);
    } else {
        let new_stored = changed.subrange(8 + n, 12 + n);
        assert(changed.subrange(4, 8) =~= chunk_type);
        assert(changed.subrange(8, 8 + n) =~= data);
        assert(new_stored[i - 8 - n] == b);
        assert(stored[i - 8 - n] == bytes[i]);
        lemma_be_bytes_of_value(stored);
        lemma_be_bytes_of_value(new_stored);
    }
}

/// One unit of a PNG byte stream: a type code and a payload, together with
/// the payload's length and the checksum over both.
#[derive(Debug)]
pub struct Chunk {
    length: usize,
    chunk_type: ChunkType,
    data: Vec<u8>,
    crc: u32,
}

impl View for Chunk {
    type V = ChunkView;

    closed spec fn view(&self) -> ChunkView {
        ChunkView { chunk_type: self.chunk_type@, data: self.data@ }
    }
}

impl Clone for Chunk {
    fn clone(&self) -> (r: Self)
        ensures
            r@ == self@,
    {
        proof {
            use_type_invariant(self);
        }
        Chunk {
            length: self.length,
            chunk_type: self.chunk_type,
            data: self.data.clone(),
            crc: self.crc,
        }
    }
}

impl TryFrom<&[u8]> for Chunk {
    type Error = Errors;

    /// The same as [`Chunk::parse`].
    fn try_from(value: &[u8]) -> (r: Result<Self, Errors>)
        ensures
            match r {
                Ok(c) => parse_chunk(value@) == Ok::<ChunkView, Errors>(c@),
                Err(e) => parse_chunk(value@) == Err::<ChunkView, Errors>(e),
            },
    {
        Chunk::parse(value)
    }
}

impl vstd::std_specs::convert::TryFromSpecImpl<&[u8]> for Chunk {
    /// What the conversion returns is stated on `try_from` itself, over the
    /// chunk's view.
    open spec fn obeys_try_from_spec() -> bool {
        false
    }

    open spec fn try_from_spec(v: &[u8]) -> Result<Self, Errors> {
        arbitrary()
    }
}

impl Chunk {
    /// The stored length and checksum are never anything but what the type
    /// code and the payload give.
    #[verifier::type_invariant]
    spec fn consistent(self) -> bool {
        &&& valid_type_bytes(self.chunk_type@)
        &&& self.length == self.data@.len()
        &&& self.crc == crc32(self.chunk_type@ + self.data@)
    }

    /// The checksum that `crc` computes over a type code followed by a
    /// payload, without joining the two in memory.
    fn checksum_of(crc: &Crc32, chunk_type: &[u8], data: &[u8]) -> (r: u32)
        ensures
            r == crc32(chunk_type@ + data@),
    {
        let after_type = crc.update(ALL_ONES, chunk_type);
        let after_data = crc.update(after_type, data);
        proof {
            lemma_crc_update_concat(ALL_ONES, chunk_type@, data@);
        }
        after_data ^ ALL_ONES
    }

    /// The chunk of the given type with the given payload. Its length is
    /// the payload's, and its checksum is computed here.
    pub fn new(chunk_type: ChunkType, data: Vec<u8>) -> (r: Chunk)
        ensures
            r@ == (ChunkView { chunk_type: chunk_type@, data: data@ }),
            valid_type_bytes(r@.chunk_type),
    {
        let calculator = Crc32::new();
        let type_bytes = chunk_type.bytes();
        let crc = Self::checksum_of(&calculator, type_bytes.as_slice(), data.as_slice());
        Chunk { length: data.len(), chunk_type, data, crc }
    }

    /// Reads one chunk from the front of `bytes`: four bytes of length, four
    /// of type code, as many bytes of payload as the length says, and four
    /// of checksum. Bytes after the checksum are not looked at.
    ///
    /// The input is refused when it ends before the checksum does, when the
    /// type code is not four letters, and when the stored checksum is not
    /// the one computed over type code and payload, in this order.
    pub fn parse(bytes: &[u8]) -> (r: Result<Chunk, Errors>)
        ensures
            match r {
                Ok(c) => parse_chunk(bytes@) == Ok::<ChunkView, Errors>(c@),
                Err(e) => parse_chunk(bytes@) == Err::<ChunkView, Errors>(e),
            },
    {
        proof {
            reveal(parse_chunk);
        }
        if bytes.len() < 12 {
            return Err(Errors::TruncatedInput);
        }
        let declared: u32 = u32_from_be_bytes([bytes[0], bytes[1], bytes[2], bytes[3]]);
        assert([bytes[0], bytes[1], bytes[2], bytes[3]]@ =~= bytes@.subrange(0, 4));
        if (bytes.len() as u64) < 12 + declared as u64 {
            return Err(Errors::TruncatedInput);
        }
        let length: usize = declared as usize;
        let type_bytes: [u8; 4] = [bytes[4], bytes[5], bytes[6], bytes[7]];
        assert(type_bytes@ =~= bytes@.subrange(4, 8));
        let chunk_type = match ChunkType::from_bytes(type_bytes) {
            Ok(t) => t,
            Err(e) => {
                return Err(e);
            },
        };
        let data = slice_to_vec(slice_subrange(bytes, 8, 8 + length));
        let end: usize = 8 + length;
        let stored: u32 = u32_from_be_bytes(
            [bytes[end], bytes[end + 1], bytes[end + 2], bytes[end + 3]],
        );
        assert([bytes[end as int], bytes[end + 1], bytes[end + 2], bytes[end + 3]]@
            =~= bytes@.subrange(8 + length, 12 + length));
        let calculator = Crc32::new();
        let computed = Self::checksum_of(&calculator, type_bytes.as_slice(), data.as_slice());
        if computed != stored {
            return Err(Errors::ChecksumMismatch);
        }
        Ok(Chunk { length, chunk_type, data, crc: stored })
    }

    /// The chunk as a byte stream: length, type code, payload and checksum.
    /// What [`Chunk::parse`] makes of these bytes is this chunk again, as
    /// long as the payload's length fits the four-byte length field.
    pub fn as_bytes(&self) -> (r: Vec<u8>)
        ensures
            r@ == self@.to_bytes(),
            r@.len() == 12 + self@.length(),
    {
        proof {
            use_type_invariant(self);
            reveal(ChunkView::to_bytes);
        }
        let field: u32 = (self.length as u64 % 0x1_0000_0000) as u32;
        let length_bytes = u32_to_be_bytes(field);
        let type_bytes = self.chunk_type.bytes();
        let crc_bytes = u32_to_be_bytes(self.crc);
        let mut out: Vec<u8> = Vec::new();
        out.extend_from_slice(length_bytes.as_slice());
        out.extend_from_slice(type_bytes.as_slice());
        out.extend_from_slice(self.data.as_slice());
        out.extend_from_slice(crc_bytes.as_slice());
        out
    }

    /// The checksum over type code and payload.
    pub fn crc(&self) -> (r: u32)
        ensures
            r == self@.crc(),
    {
        proof {
            use_type_invariant(self);
        }
        self.crc
    }

    /// The number of payload bytes.
    pub fn length(&self) -> (r: usize)
        ensures
            r == self@.length(),
    {
        proof {
            use_type_invariant(self);
        }
        self.length
    }

    /// The type code.
    pub fn chunk_type(&self) -> (r: ChunkType)
        ensures
            r@ == self@.chunk_type,
            valid_type_bytes(r@),
    {
        proof {
            use_type_invariant(self);
        }
        self.chunk_type
    }

    /// A copy of the payload.
    pub fn data(&self) -> (r: Vec<u8>)
        ensures
            r@ == self@.data,
    {
        self.data.clone()
    }

    /// The chunk described for a reader: its length, type code, payload and
    /// checksum, one to a line.
    pub fn to_text(&self) -> (r: String)
        ensures
            r@ == chunk_text(self@),
    {
        proof {
            use_type_invariant(self);
            lemma_decimal_is_ascii(self@.length());
            lemma_decimal_is_ascii(self@.crc() as nat);
            lemma_byte_list_is_ascii(self@.data);
        }
        let mut length: Vec<u8> = Vec::new();
        push_decimal(&mut length, self.length as u64);
        let mut data: Vec<u8> = Vec::new();
        push_byte_list(&mut data, self.data.as_slice());
        let mut crc: Vec<u8> = Vec::new();
        push_decimal(&mut crc, self.crc as u64);
        proof {
            assert(length@ =~= decimal(self@.length()));
            assert(data@ =~= byte_list(self@.data));
            assert(crc@ =~= decimal(self@.crc() as nat));
        }
        let mut out = String::from_str("Chunk {\n  Length: ");
        out.append(ascii_string(length).as_str());
        out.append("\n  Type: ");
        out.append(self.chunk_type.to_text().as_str());
        out.append("\n  Data: ");
        out.append(ascii_string(data).as_str());
        out.append(" bytes\n  Crc: ");
        out.append(ascii_string(crc).as_str());
        out.append("\n}\n");
        out
    }

    /// The payload as text, if it is valid UTF-8.
    pub fn data_as_string(&self) -> (r: Result<String, Errors>)
        ensures
            match r {
                Ok(s) => valid_utf8(self@.data) && s@ == decode_utf8(self@.data),
                Err(e) => !valid_utf8(self@.data) && e == Errors::InvalidText,
            },
    {
        match string_from_utf8(self.data.clone()) {
            Ok(s) => {
                proof {
                    encode_utf8_decode_utf8(s@);
                }
                Ok(s)
            },
            Err(_) => Err(Errors::InvalidText),
        }
    }
}

} // verus!
