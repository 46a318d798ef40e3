use vstd::prelude::*;

verus! {

/// The reflected form of the CRC-32 generator polynomial.
pub const POLYNOMIAL: u32 = 0xedb8_8320;

/// The value a running checksum starts from, and the mask applied to it at
/// the end.
pub const ALL_ONES: u32 = 0xffff_ffff;

/// One division step of the reflected CRC: the register moves right by one
/// bit, and the polynomial is folded in when the bit that fell out was set.
pub open spec fn crc_step(c: u32) -> u32 {
    if c & 1 != 0 {
        POLYNOMIAL ^ (c >> 1)
    } else {
        c >> 1
    }
}

/// Eight division steps in a row: the work done for one byte of input.
pub open spec fn crc_shift8(c: u32) -> u32 {
    crc_step(crc_step(crc_step(crc_step(crc_step(crc_step(crc_step(crc_step(c))))))))
}

/// `k` division steps in a row.
spec fn crc_steps(c: u32, k: nat) -> u32
    decreases k,
{
    if k == 0 {
        c
    } else {
        crc_step(crc_steps(c, (k - 1) as nat))
    }
}

proof fn lemma_eight_steps(c: u32)
    ensures
        crc_steps(c, 8) == crc_shift8(c),
{
    reveal_with_fuel(crc_steps, 9);
}

/// The running checksum after one more byte has been taken in.
pub open spec fn crc_byte(c: u32, b: u8) -> u32 {
    crc_shift8(c ^ (b as u32))
}

/// The running checksum after all of `s` has been taken in, byte by byte,
/// starting from the register value `c`.
pub open spec fn crc_update(c: u32, s: Seq<u8>) -> u32
    decreases s.len(),
{
    if s.len() == 0 {
        c
    } else {
        crc_byte(crc_update(c, s.drop_last()), s.last())
    }
}

/// The CRC-32 of a byte sequence: the register starts with every bit set and
/// is inverted once the last byte has been taken in.
pub open spec fn crc32(s: Seq<u8>) -> u32 {
    crc_update(ALL_ONES, s) ^ ALL_ONES
}

/// Taking in `a` and then `b` is the same as taking in their concatenation.
pub proof fn lemma_crc_update_concat(c: u32, a: Seq<u8>, b: Seq<u8>)
    ensures
        crc_update(c, a + b) == crc_update(crc_update(c, a), b),
    decreases b.len(),
{
    if b.len() == 0 {
        assert(a + b =~= a);
    } else {
        assert((a + b).drop_last() =~= a + b.drop_last());
        assert((a + b).last() == b.last());
        lemma_crc_update_concat(c, a, b.drop_last());
    }
}

/// A division step loses nothing: two registers that agree after it agreed
/// before it.
proof fn lemma_step_injective(c1: u32, c2: u32)
    requires
        crc_step(c1) == crc_step(c2),
    ensures
        c1 == c2,
{
    assert(crc_step(c1) == crc_step(c2) ==> c1 == c2) by (bit_vector);
}

proof fn lemma_shift8_injective(c1: u32, c2: u32)
    requires
        crc_shift8(c1) == crc_shift8(c2),
    ensures
        c1 == c2,
{
    let a1 = crc_step(c1);
    let a2 = crc_step(c2);
    let b1 = crc_step(a1);
    let b2 = crc_step(a2);
    let d1 = crc_step(b1);
    let d2 = crc_step(b2);
    let e1 = crc_step(d1);
    let e2 = crc_step(d2);
    let f1 = crc_step(e1);
    let f2 = crc_step(e2);
    let g1 = crc_step(f1);
    let g2 = crc_step(f2);
    let h1 = crc_step(g1);
    let h2 = crc_step(g2);
    lemma_step_injective(h1, h2);
    lemma_step_injective(g1, g2);
    lemma_step_injective(f1, f2);
    lemma_step_injective(e1, e2);
    lemma_step_injective(d1, d2);
    lemma_step_injective(b1, b2);
    lemma_step_injective(a1, a2);
    lemma_step_injective(c1, c2);
}

/// Taking in a byte is one-to-one in the register and in the byte.
proof fn lemma_crc_byte_injective(c1: u32, b1: u8, c2: u32, b2: u8)
    requires
        crc_byte(c1, b1) == crc_byte(c2, b2),
    ensures
        b1 == b2 ==> c1 == c2,
        c1 == c2 ==> b1 == b2,
{
    lemma_shift8_injective(c1 ^ (b1 as u32), c2 ^ (b2 as u32));
    assert(c1 ^ (b1 as u32) == c2 ^ (b2 as u32) ==> (b1 == b2 ==> c1 == c2) && (c1 == c2 ==> b1
        == b2)) by (bit_vector);
}

/// The checksum depends on the bytes alone and notices every change of a
/// single byte: two sequences of one length that agree everywhere but
/// perhaps at position `i` have the same CRC-32 exactly when they agree at
/// `i` too.
pub proof fn lemma_crc32_single_byte(a: Seq<u8>, b: Seq<u8>, i: int)
    requires
        a.len() == b.len(),
        0 <= i < a.len(),
        forall|j: int| 0 <= j < a.len() && j != i ==> a[j] == b[j],
    ensures
        (crc32(a) == crc32(b)) == (a[i] == b[i]),
{
    assert(b =~= a.update(i, b[i]));
    if a[i] == b[i] {
        assert(a =~= b);
    } else {
        lemma_crc_update_detects_byte_change(ALL_ONES, a, i, b[i]);
        let x = crc_update(ALL_ONES, b);
        let y = crc_update(ALL_ONES, a);
        assert(x != y ==> x ^ 0xffff_ffffu32 != y ^ 0xffff_ffffu32) by (bit_vector);
    }
}

proof fn lemma_crc_update_detects_byte_change(c: u32, s: Seq<u8>, i: int, b: u8)
    requires
        0 <= i < s.len(),
        b != s[i],
    ensures
        crc_update(c, s.update(i, b)) != crc_update(c, s),
    decreases s.len(),
{
    let t = s.update(i, b);
    if i == s.len() - 1 {
        assert(t.drop_last() =~= s.drop_last());
        if crc_update(c, t) == crc_update(c, s) {
            lemma_crc_byte_injective(
                crc_update(c, t.drop_last()),
                b,
                crc_update(c, s.drop_last()),
                s[i],
            );
        }
    } else {
        assert(t.drop_last() =~= s.drop_last().update(i, b));
        lemma_crc_update_detects_byte_change(c, s.drop_last(), i, b);
        if crc_update(c, t) == crc_update(c, s) {
            lemma_crc_byte_injective(
                crc_update(c, t.drop_last()),
                t.last(),
                crc_update(c, s.drop_last()),
                s.last(),
            );
        }
    }
}

/// Looking up the low byte and folding in the rest of the register does the
/// same as eight division steps on the whole register.
proof fn lemma_table_lookup(c: u32, b: u8)
    ensures
        crc_shift8((((c & 0xff) as u8) ^ b) as u32) ^ (c >> 8) == crc_byte(c, b),
{
    assert(crc_shift8((((c & 0xff) as u8) ^ b) as u32) ^ (c >> 8) == crc_shift8(c ^ (b as u32)))
        by (bit_vector);
}

/// The lookup table of the byte-at-a-time method: entry `n` is what eight
/// division steps make of `n`.
pub open spec fn crc_table() -> Seq<u32> {
    Seq::new(256, |n: int| crc_shift8(n as u32))
}

/// A CRC-32 calculator that works a byte at a time from a table of 256
/// entries, one for each value a byte can take.
pub struct Crc32 {
    table: [u32; 256],
}

impl View for Crc32 {
    type V = Seq<u32>;

    /// The calculator's table.
    closed spec fn view(&self) -> Seq<u32> {
        self.table@
    }
}

impl Crc32 {
    /// The table a calculator holds is never anything but [`crc_table`].
    #[verifier::type_invariant]
    spec fn table_is_computed(self) -> bool {
        self.table@ == crc_table()
    }

    /// A calculator with its table filled in.
    pub fn new() -> (r: Self)
        ensures
            r@ == crc_table(),
    {
        Crc32 { table: Self::make_crc_table() }
    }

    /// Fills the table: eight division steps for each byte value.
    fn make_crc_table() -> (table: [u32; 256])
        ensures
            table@ == crc_table(),
    {
        let mut table = [0u32;256];
        let mut n: usize = 0;
        while n < 256
            invariant
                n <= 256,
                forall|m: int| 0 <= m < n ==> #[trigger] table[m] == crc_shift8(m as u32),
            decreases 256 - n,
        {
            let mut c: u32 = n as u32;
            let mut k: usize = 0;
            while k < 8
                invariant
                    k <= 8,
                    c == crc_steps(n as u32, k as nat),
                decreases 8 - k,
            {
                if c & 1 != 0 {
                    c = POLYNOMIAL ^ (c >> 1);
                } else {
                    c = c >> 1;
                }
                k += 1;
            }
            proof {
                lemma_eight_steps(n as u32);
            }
            table[n] = c;
            n += 1;
        }
        table
    }

    /// Takes the bytes of `buf` into the running checksum `crc` and returns
    /// the new running checksum.
    pub fn update(&self, crc: u32, buf: &[u8]) -> (r: u32)
        ensures
            r == crc_update(crc, buf@),
    {
        proof {
            use_type_invariant(self);
        }
        let mut c: u32 = crc;
        let mut i: usize = 0;
        while i < buf.len()
            invariant
                i <= buf.len(),
                c == crc_update(crc, buf@.take(i as int)),
                self.table@ == crc_table(),
            decreases buf.len() - i,
        {
            let byte: u8 = buf[i];
            let low: u8 = (c & 0xff) as u8;
            let index: u8 = low ^ byte;
            proof {
                lemma_table_lookup(c, byte);
                assert(buf@.take(i + 1).drop_last() =~= buf@.take(i as int));
                assert(buf@.take(i + 1).last() == byte);
            }
            c = self.table[index as usize] ^ (c >> 8);
            i += 1;
        }
        proof {
            assert(buf@.take(i as int) =~= buf@);
        }
        c
    }

    /// The CRC-32 of `buf`.
    pub fn checksum(&self, buf: &[u8]) -> (r: u32)
        ensures
            r == crc32(buf@),
    {
        self.update(ALL_ONES, buf) ^ ALL_ONES
    }
}

} // verus!
