//! CRC-32 (IEEE 802.3, reflected, polynomial 0xEDB88320), the identity of a
//! ROM in the knowledge store, written as eight lower-case hex digits.
use vstd::prelude::*;
use crate::num::{hex, push_hex};
use crate::text::string_of;

verus! {

/// One bit of the reflected CRC register update.
pub open spec fn crc_shift(c: u32) -> u32 {
    if c & 1 == 1 {
        (c >> 1) ^ 0xEDB8_8320
    } else {
        c >> 1
    }
}

/// `n` bit steps of the register.
pub open spec fn crc_bits(c: u32, n: nat) -> u32
    decreases n,
{
    if n == 0 {
        c
    } else {
        crc_bits(crc_shift(c), (n - 1) as nat)
    }
}

/// The register after the bytes `bs`, starting from all ones.
pub open spec fn crc_register(bs: Seq<u8>) -> u32
    decreases bs.len(),
{
    if bs.len() == 0 {
        0xFFFF_FFFF
    } else {
        crc_bits(crc_register(bs.drop_last()) ^ (bs.last() as u32), 8)
    }
}

/// The CRC-32 of `bs`: the final register, inverted.
pub open spec fn crc32_spec(bs: Seq<u8>) -> u32 {
    crc_register(bs) ^ 0xFFFF_FFFF
}

/// The CRC-32 of a byte sequence.
pub fn crc32(bytes: &[u8]) -> (r: u32)
    ensures
        r == crc32_spec(bytes@),
{
    let mut c: u32 = 0xFFFF_FFFF;
    let mut i: usize = 0;
    while i < bytes.len()
        invariant
            i <= bytes.len(),
            c == crc_register(bytes@.take(i as int)),
        decreases bytes.len() - i,
    {
        assert(bytes@.take(i + 1).drop_last() =~= bytes@.take(i as int));
        let ghost start = c ^ (bytes@[i as int] as u32);
        c = c ^ (bytes[i] as u32);
        let mut k: u32 = 0;
        while k < 8
            invariant
                k <= 8,
                crc_bits(start, 8) == crc_bits(c, (8 - k) as nat),
            decreases 8 - k,
        {
            if c & 1 == 1 {
                c = (c >> 1) ^ 0xEDB8_8320;
            } else {
                c = c >> 1;
            }
            k += 1;
        }
        i += 1;
    }
    assert(bytes@.take(bytes.len() as int) =~= bytes@);
    c ^ 0xFFFF_FFFF
}

/// `n` zeros.
pub open spec fn zeros(n: int) -> Seq<char> {
    Seq::new(if n > 0 { n as nat } else { 0 }, |i: int| '0')
}

/// The CRC-32 of `bs` as eight lower-case hex digits (`{:08x}`).
pub open spec fn crc32_hex_spec(bs: Seq<u8>) -> Seq<char> {
    let h = hex(crc32_spec(bs) as nat);
    zeros(8 - h.len()) + h
}

/// The CRC-32 of a byte sequence, as eight lower-case hex digits.
pub fn crc32_hex(bytes: &[u8]) -> (r: String)
    ensures
        r@ == crc32_hex_spec(bytes@),
{
    let c = crc32(bytes);
    let mut digits: Vec<char> = Vec::new();
    push_hex(&mut digits, c);
    assert(digits@ =~= hex(c as nat));
    let mut out: Vec<char> = Vec::new();
    let mut k: usize = digits.len();
    while k < 8
        invariant
            digits.len() <= k <= 8 || (k == digits.len() && k >= 8),
            out@ == zeros(k - digits.len()),
        decreases 8 - k,
    {
        out.push('0');
        k += 1;
        assert(out@ =~= zeros(k - digits.len()));
    }
    assert(zeros(k - digits.len()) =~= zeros(8 - digits.len()));
    let mut i: usize = 0;
    let ghost pad = out@;
    while i < digits.len()
        invariant
            i <= digits.len(),
            out@ == pad + digits@.take(i as int),
        decreases digits.len() - i,
    {
        out.push(digits[i]);
        i += 1;
        assert(out@ =~= pad + digits@.take(i as int));
    }
    assert(digits@.take(digits.len() as int) =~= digits@);
    string_of(&out)
}

/// The register after feeding the bytes `s` into register `c`.
pub open spec fn crc_feed(c: u32, s: Seq<u8>) -> u32
    decreases s.len(),
{
    if s.len() == 0 {
        c
    } else {
        crc_bits(crc_feed(c, s.drop_last()) ^ (s.last() as u32), 8)
    }
}

proof fn lemma_register_split(p: Seq<u8>, s: Seq<u8>)
    ensures
        crc_register(p + s) == crc_feed(crc_register(p), s),
    decreases s.len(),
{
    if s.len() == 0 {
        assert(p + s =~= p);
    } else {
        lemma_register_split(p, s.drop_last());
        assert((p + s).drop_last() =~= p + s.drop_last());
        assert((p + s).last() == s.last());
    }
}

proof fn lemma_shift_injective(a: u32, b: u32)
    requires
        a != b,
    ensures
        crc_shift(a) != crc_shift(b),
{
    assert((if a & 1 == 1 { (a >> 1) ^ 0xEDB8_8320u32 } else { a >> 1 }) != (if b & 1 == 1 {
        (b >> 1) ^ 0xEDB8_8320u32
    } else {
        b >> 1
    })) by (bit_vector)
        requires
            a != b,
    ;
}

proof fn lemma_bits_injective(a: u32, b: u32, n: nat)
    requires
        a != b,
    ensures
        crc_bits(a, n) != crc_bits(b, n),
    decreases n,
{
    if n > 0 {
        lemma_shift_injective(a, b);
        lemma_bits_injective(crc_shift(a), crc_shift(b), (n - 1) as nat);
    }
}

proof fn lemma_xor_injective(a: u32, b: u32, x: u32)
    requires
        a != b,
    ensures
        a ^ x != b ^ x,
{
    assert(a ^ x != b ^ x) by (bit_vector)
        requires
            a != b,
    ;
}

proof fn lemma_feed_injective(a: u32, b: u32, s: Seq<u8>)
    requires
        a != b,
    ensures
        crc_feed(a, s) != crc_feed(b, s),
    decreases s.len(),
{
    if s.len() > 0 {
        lemma_feed_injective(a, b, s.drop_last());
        lemma_xor_injective(crc_feed(a, s.drop_last()), crc_feed(b, s.drop_last()), s.last() as u32);
        lemma_bits_injective(
            crc_feed(a, s.drop_last()) ^ (s.last() as u32),
            crc_feed(b, s.drop_last()) ^ (s.last() as u32),
            8,
        );
    }
}

/// The CRC-32 of some bytes and one more: the register of the bytes (the
/// CRC inverted back), the new byte folded in and its eight bit steps
/// taken, inverted again. The CRC follows every byte of the input, however
/// long.
pub proof fn lemma_crc32_push(bs: Seq<u8>, x: u8)
    ensures
        crc32_spec(bs.push(x)) == crc_bits((crc32_spec(bs) ^ 0xFFFF_FFFF) ^ (x as u32), 8) ^ 0xFFFF_FFFF,
{
    let r = crc_register(bs);
    assert((r ^ 0xFFFF_FFFFu32) ^ 0xFFFF_FFFFu32 == r) by (bit_vector);
    assert(bs.push(x).drop_last() =~= bs);
}

/// Changing any one byte of the input, wherever it is, changes the CRC-32.
pub proof fn lemma_crc32_sees_every_byte(bs: Seq<u8>, i: int, y: u8)
    requires
        0 <= i < bs.len(),
        bs[i] != y,
    ensures
        crc32_spec(bs.update(i, y)) != crc32_spec(bs),
{
    let p = bs.take(i);
    let s = bs.skip(i + 1);
    let x = bs[i];
    let cs = bs.update(i, y);
    assert(bs =~= p.push(x) + s);
    assert(cs =~= p.push(y) + s);
    lemma_register_split(p.push(x), s);
    lemma_register_split(p.push(y), s);
    assert(p.push(x).drop_last() =~= p);
    assert(p.push(y).drop_last() =~= p);
    let r = crc_register(p);
    assert((x as u32) != (y as u32));
    assert(r ^ (x as u32) != r ^ (y as u32)) by (bit_vector)
        requires
            (x as u32) != (y as u32),
    ;
    lemma_bits_injective(r ^ (x as u32), r ^ (y as u32), 8);
    lemma_feed_injective(crc_register(p.push(x)), crc_register(p.push(y)), s);
    lemma_xor_injective(crc_register(bs), crc_register(cs), 0xFFFF_FFFF);
}

} // verus!
