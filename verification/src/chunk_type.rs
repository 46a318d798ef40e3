use crate::errors::Errors;
use crate::text::{ascii_string, ascii_text, is_ascii_bytes, lemma_ascii_text};
use vstd::prelude::*;
use vstd::slice::slice_to_vec;
use vstd::string::StringSliceAdditionalSpecFns;
use vstd::utf8::*;

verus! {

/// True for the ASCII codes of `A` to `Z`.
pub open spec fn is_upper(b: u8) -> bool {
    65 <= b <= 90
}

/// True for the ASCII codes of `a` to `z`.
pub open spec fn is_lower(b: u8) -> bool {
    97 <= b <= 122
}

/// True for the ASCII codes of the letters.
pub open spec fn is_letter(b: u8) -> bool {
    is_upper(b) || is_lower(b)
}

/// True for the byte sequences that are chunk type codes: four ASCII
/// letters.
pub open spec fn valid_type_bytes(s: Seq<u8>) -> bool {
    &&& s.len() == 4
    &&& forall|i: int| 0 <= i < 4 ==> is_letter(#[trigger] s[i])
}

/// Bit 5 of a byte, the one that tells a lower-case letter from an
/// upper-case one.
pub open spec fn bit5(b: u8) -> bool {
    b & 0x20 != 0
}

/// In a letter, bit 5 is set exactly when the letter is lower-case.
pub proof fn lemma_bit5_of_letter(b: u8)
    requires
        is_letter(b),
    ensures
        bit5(b) == is_lower(b),
        !bit5(b) == is_upper(b),
{
    assert((65 <= b <= 90 || 97 <= b <= 122) ==> ((b & 0x20 != 0) == (97 <= b <= 122)))
        by (bit_vector);
}

/// The four-letter code that says what a chunk is for.
#[derive(Clone, Copy, Debug)]
pub struct ChunkType {
    bytes: [u8; 4],
}

impl View for ChunkType {
    type V = Seq<u8>;

    /// The four bytes of the code.
    closed spec fn view(&self) -> Seq<u8> {
        self.bytes@
    }
}

impl PartialEq for ChunkType {
    fn eq(&self, other: &Self) -> (r: bool) {
        let r = self.bytes[0] == other.bytes[0] && self.bytes[1] == other.bytes[1] && self.bytes[2]
            == other.bytes[2] && self.bytes[3] == other.bytes[3];
        proof {
            if r {
                assert(self.bytes@ =~= other.bytes@);
                assert(self.bytes =~= other.bytes);
            }
        }
        r
    }
}

impl vstd::std_specs::cmp::PartialEqSpecImpl for ChunkType {
    open spec fn obeys_eq_spec() -> bool {
        true
    }

    open spec fn eq_spec(&self, other: &Self) -> bool {
        self@ == other@
    }
}

impl Eq for ChunkType {

}

impl ChunkType {
    #[verifier::type_invariant]
    spec fn letters_only(self) -> bool {
        valid_type_bytes(self.bytes@)
    }

    /// The type code made of the four bytes `b`, if they are all ASCII
    /// letters.
    pub fn from_bytes(b: [u8; 4]) -> (r: Result<ChunkType, Errors>)
        ensures
            match r {
                Ok(t) => valid_type_bytes(b@) && t@ == b@,
                Err(e) => !valid_type_bytes(b@) && e == Errors::InvalidChunkType,
            },
    {
        let mut i: usize = 0;
        while i < 4
            invariant
                i <= 4,
                forall|j: int| 0 <= j < i ==> is_letter(#[trigger] b@[j]),
            decreases 4 - i,
        {
            let x: u8 = b[i];
            if !((65 <= x && x <= 90) || (97 <= x && x <= 122)) {
                return Err(Errors::InvalidChunkType);
            }
            i += 1;
        }
        Ok(ChunkType { bytes: b })
    }

    /// The type code that the text `s` spells, if `s` is four ASCII letters.
    pub fn from_str(s: &str) -> (r: Result<ChunkType, Errors>)
        ensures
            match r {
                Ok(t) => is_type_text(s@) && valid_type_bytes(t@) && ascii_text(t@) == s@,
                Err(e) => !is_type_text(s@) && e == Errors::InvalidChunkType,
            },
    {
        let raw = s.as_bytes();
        proof {
            lemma_type_text(s@);
        }
        if raw.len() != 4 {
            return Err(Errors::InvalidChunkType);
        }
        let b: [u8; 4] = [raw[0], raw[1], raw[2], raw[3]];
        assert(b@ =~= raw@);
        Self::from_bytes(b)
    }

    /// The four bytes of the code, as they were given.
    pub fn bytes(&self) -> (r: [u8; 4])
        ensures
            r@ == self@,
            valid_type_bytes(r@),
    {
        proof {
            use_type_invariant(self);
        }
        self.bytes
    }

    /// The code as text: one character for each of its four letters.
    pub fn to_text(&self) -> (r: String)
        ensures
            r@ == ascii_text(self@),
    {
        proof {
            use_type_invariant(self);
        }
        ascii_string(slice_to_vec(self.bytes.as_slice()))
    }

    /// True when the chunk is needed to show the image: the first letter is
    /// upper-case (its bit 5 is clear).
    pub fn is_critical(&self) -> (r: bool)
        ensures
            r == !bit5(self@[0]),
            r == is_upper(self@[0]),
    {
        proof {
            use_type_invariant(self);
            lemma_bit5_of_letter(self.bytes@[0]);
        }
        self.bytes[0] & 0x20 == 0
    }

    /// True when the meaning of the chunk is publicly registered: the second
    /// letter is upper-case (its bit 5 is clear).
    pub fn is_public(&self) -> (r: bool)
        ensures
            r == !bit5(self@[1]),
            r == is_upper(self@[1]),
    {
        proof {
            use_type_invariant(self);
            lemma_bit5_of_letter(self.bytes@[1]);
        }
        self.bytes[1] & 0x20 == 0
    }

    /// True when the code keeps the reserved bit clear, as the current
    /// revision of the format asks: the third letter is upper-case.
    pub fn is_reserved_bit_valid(&self) -> (r: bool)
        ensures
            r == !bit5(self@[2]),
            r == is_upper(self@[2]),
    {
        proof {
            use_type_invariant(self);
            lemma_bit5_of_letter(self.bytes@[2]);
        }
        self.bytes[2] & 0x20 == 0
    }

    /// True when an editor that does not know the chunk may copy it
    /// unchanged: the fourth letter is lower-case (its bit 5 is set).
    pub fn is_safe_to_copy(&self) -> (r: bool)
        ensures
            r == bit5(self@[3]),
            r == is_lower(self@[3]),
    {
        proof {
            use_type_invariant(self);
            lemma_bit5_of_letter(self.bytes@[3]);
        }
        self.bytes[3] & 0x20 != 0
    }
}

/// True for the texts that spell a chunk type code: four ASCII letters.
pub open spec fn is_type_text(t: Seq<char>) -> bool {
    &&& t.len() == 4
    &&& forall|i: int|
        0 <= i < 4 ==> ('A' <= #[trigger] t[i] <= 'Z') || ('a' <= t[i] <= 'z')
}

/// A text spells a chunk type code exactly when its UTF-8 encoding is four
/// ASCII letters, and then it is the text of those four bytes.
pub proof fn lemma_type_text(t: Seq<char>)
    ensures
        is_type_text(t) == valid_type_bytes(encode_utf8(t)),
        is_type_text(t) ==> ascii_text(encode_utf8(t)) == t,
{
    let bytes = encode_utf8(t);
    if is_type_text(t) {
        assert(is_ascii_chars(t));
        is_ascii_chars_encode_utf8(t);
        assert forall|i: int| 0 <= i < 4 implies is_letter(#[trigger] bytes[i]) by {
            assert(t[i] as u8 == bytes[i]);
        }
        assert(ascii_text(bytes) =~= t) by {
            assert forall|i: int| 0 <= i < 4 implies ascii_text(bytes)[i] == t[i] by {
                assert(t[i] as u8 == bytes[i]);
            }
        }
    }
    if valid_type_bytes(bytes) {
        assert(is_ascii_bytes(bytes));
        lemma_ascii_text(bytes);
        assert(t == ascii_text(bytes));
        assert forall|i: int| 0 <= i < 4 implies ('A' <= #[trigger] t[i] <= 'Z') || ('a' <= t[i]
            <= 'z') by {
            assert(is_letter(bytes[i]));
        }
    }
}

} // verus!
