use vstd::prelude::*;
use vstd::utf8::*;

verus! {

/// `std::string::FromUtf8Error`, the error of `String::from_utf8`. Nothing
/// is claimed of what it holds; it is only passed on.
#[verifier::external_type_specification]
#[verifier::external_body]
pub struct ExFromUtf8Error(std::string::FromUtf8Error);

/// `String::from_utf8` of the standard library, taken on trust: it accepts
/// exactly the byte vectors that are valid UTF-8, and the string it then
/// returns is made of those very bytes.
#[verifier::external_body]
pub(crate) fn string_from_utf8(bytes: Vec<u8>) -> (r: Result<String, std::string::FromUtf8Error>)
    ensures
        r is Ok <==> valid_utf8(bytes@),
        r matches Ok(s) ==> encode_utf8(s@) == bytes@,
{
    String::from_utf8(bytes)
}

/// The characters that a sequence of ASCII bytes spells, one for each byte.
pub open spec fn ascii_text(bytes: Seq<u8>) -> Seq<char> {
    Seq::new(bytes.len(), |i: int| bytes[i] as char)
}

/// True when every byte is below 128.
pub open spec fn is_ascii_bytes(bytes: Seq<u8>) -> bool {
    forall|i: int| 0 <= i < bytes.len() ==> #[trigger] bytes[i] < 128
}

/// ASCII bytes are the UTF-8 encoding of the text they spell, and of no
/// other text.
pub proof fn lemma_ascii_text(bytes: Seq<u8>)
    requires
        is_ascii_bytes(bytes),
    ensures
        encode_utf8(ascii_text(bytes)) == bytes,
        valid_utf8(bytes),
        decode_utf8(bytes) == ascii_text(bytes),
        forall|t: Seq<char>| #[trigger] encode_utf8(t) == bytes ==> t == ascii_text(bytes),
{
    let text = ascii_text(bytes);
    assert(is_ascii_chars(text)) by {
        assert forall|i: int| 0 <= i < text.len() implies '\0' <= #[trigger] text[i]
            <= '\u{7f}' by {
            assert(bytes[i] < 128);
        }
    }
    is_ascii_chars_encode_utf8(text);
    assert(encode_utf8(text) =~= bytes) by {
        assert forall|i: int| 0 <= i < bytes.len() implies encode_utf8(text)[i] == bytes[i] by {
            assert(bytes[i] < 128);
            assert(text[i] as u8 == bytes[i]);
        }
    }
    encode_utf8_valid_utf8(text);
    encode_utf8_decode_utf8(text);
    assert forall|t: Seq<char>| #[trigger] encode_utf8(t) == bytes implies t == text by {
        encode_utf8_decode_utf8(t);
    }
}

/// The text that ASCII bytes spell.
pub(crate) fn ascii_string(bytes: Vec<u8>) -> (r: String)
    requires
        is_ascii_bytes(bytes@),
    ensures
        r@ == ascii_text(bytes@),
{
    proof {
        lemma_ascii_text(bytes@);
    }
    match string_from_utf8(bytes) {
        Ok(s) => s,
        Err(_) => vstd::pervasive::unreached(),
    }
}

/// The digits of `n` in base ten, as ASCII bytes, without leading zeros.
pub open spec fn decimal(n: nat) -> Seq<u8>
    decreases n,
{
    if n < 10 {
        seq![(48 + n) as u8]
    } else {
        decimal(n / 10).push((48 + n % 10) as u8)
    }
}

/// A list of bytes the way a programmer writes one: the numbers in base
/// ten, a comma and a space between two of them, square brackets around
/// all.
pub open spec fn byte_list(s: Seq<u8>) -> Seq<u8> {
    seq![91u8] + byte_list_items(s) + seq![93u8]
}

/// What stands between the brackets of [`byte_list`].
pub open spec fn byte_list_items(s: Seq<u8>) -> Seq<u8>
    decreases s.len(),
{
    if s.len() == 0 {
        Seq::empty()
    } else if s.len() == 1 {
        decimal(s[0] as nat)
    } else {
        byte_list_items(s.drop_last()) + seq![44u8, 32u8] + decimal(s.last() as nat)
    }
}

/// A number written in base ten is made of ASCII digits.
pub proof fn lemma_decimal_is_ascii(n: nat)
    ensures
        is_ascii_bytes(decimal(n)),
    decreases n,
{
    if n >= 10 {
        lemma_decimal_is_ascii(n / 10);
    }
}

/// A list of bytes is written with ASCII characters alone.
pub proof fn lemma_byte_list_is_ascii(s: Seq<u8>)
    ensures
        is_ascii_bytes(byte_list_items(s)),
        is_ascii_bytes(byte_list(s)),
    decreases s.len(),
{
    if s.len() == 1 {
        lemma_decimal_is_ascii(s[0] as nat);
    } else if s.len() > 1 {
        lemma_byte_list_is_ascii(s.drop_last());
        lemma_decimal_is_ascii(s.last() as nat);
    }
}

/// Appends the base-ten digits of `n` to `out`.
pub(crate) fn push_decimal(out: &mut Vec<u8>, n: u64)
    ensures
        final(out)@ == old(out)@ + decimal(n as nat),
{
    let mut digits: Vec<u8> = Vec::new();
    let mut m: u64 = n;
    while m >= 10
        invariant
            decimal(n as nat) == decimal(m as nat) + digits@.reverse(),
        decreases m,
    {
        let d: u8 = (m % 10) as u8;
        proof {
            assert(decimal(m as nat) == decimal((m / 10) as nat).push((48 + d) as u8));
            assert(decimal((m / 10) as nat).push((48 + d) as u8) + digits@.reverse() =~= decimal(
                (m / 10) as nat,
            ) + digits@.push((48 + d) as u8).reverse());
        }
        digits.push(48 + d);
        m = m / 10;
    }
    proof {
        assert(decimal(m as nat) + digits@.reverse() =~= digits@.push((48 + m) as u8).reverse());
    }
    digits.push(48 + m as u8);
    let mut k: usize = digits.len();
    while k > 0
        invariant
            k <= digits.len(),
            out@ == old(out)@ + digits@.reverse().take(digits.len() - k),
        decreases k,
    {
        k -= 1;
        proof {
            let r = digits@.reverse();
            assert(r.take(digits.len() - k) =~= r.take(digits.len() - k - 1).push(
                digits@[k as int],
            ));
        }
        out.push(digits[k]);
    }
    proof {
        assert(digits@.reverse().take(digits.len() as int) =~= digits@.reverse());
    }
}

/// Appends `s`, written as a list, to `out`.
pub(crate) fn push_byte_list(out: &mut Vec<u8>, s: &[u8])
    ensures
        final(out)@ == old(out)@ + byte_list(s@),
{
    out.push(91);
    let mut i: usize = 0;
    while i < s.len()
        invariant
            i <= s.len(),
            out@ == old(out)@ + seq![91u8] + byte_list_items(s@.take(i as int)),
        decreases s.len() - i,
    {
        if i > 0 {
            out.push(44);
            out.push(32);
        }
        push_decimal(out, s[i] as u64);
        proof {
            let before = s@.take(i as int);
            let after = s@.take(i + 1);
            assert(after.drop_last() =~= before);
            assert(after.last() == s@[i as int]);
            if i > 0 {
                assert(old(out)@ + seq![91u8] + byte_list_items(before) + seq![44u8] + seq![32u8]
                    + decimal(s@[i as int] as nat) =~= old(out)@ + seq![91u8] + (byte_list_items(
                    before,
                ) + seq![44u8, 32u8] + decimal(s@[i as int] as nat)));
            } else {
                assert(byte_list_items(before) =~= Seq::<u8>::empty());
                assert(old(out)@ + seq![91u8] + decimal(s@[i as int] as nat) =~= old(out)@
                    + seq![91u8] + byte_list_items(after));
            }
        }
        i += 1;
    }
    out.push(93);
    proof {
        assert(s@.take(i as int) =~= s@);
        assert(old(out)@ + seq![91u8] + byte_list_items(s@) + seq![93u8] =~= old(out)@
            + byte_list(s@));
    }
}

} // verus!
