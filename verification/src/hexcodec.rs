//! Raw bytes as lower-case hex text: the encoding `ReadBytes` answers with
//! and the decoding `WriteBytes` takes.
use vstd::prelude::*;
use crate::num::{digit_char, digit_of, from_str_radix, parse_digits, parse_u32_radix, digit_to_char};
use crate::protocol::{Response, is_error_response};
use crate::text::{
    chars_of, char_width, is_ws, trim, trim_chars, trim_end, trim_start, utf8_len, utf8_length,
    utf8_width, string_of, string_from, append_str,
};

verus! {

/// How reading hex digit pairs ends.
pub enum PairsDecoded {
    /// Every pair was a hex number; these are the bytes.
    Bytes(Seq<u8>),
    /// A pair is not a hex number.
    BadDigit,
    /// A two-byte slice would cut a character in two (the slicing panics).
    SplitsChar,
}

/// The byte that the two characters `a b` read as in base 16
/// (`u8::from_str_radix`, which also takes `+b`).
pub open spec fn pair_value(a: char, b: char) -> Option<u8> {
    match from_str_radix(seq![a, b], 16) {
        Ok(n) => Some(n as u8),
        Err(_) => None,
    }
}

/// Prepends `bs` to a successful reading.
pub open spec fn prepend(bs: Seq<u8>, d: PairsDecoded) -> PairsDecoded {
    match d {
        PairsDecoded::Bytes(rest) => PairsDecoded::Bytes(bs + rest),
        other => other,
    }
}

/// Reads `t` two UTF-8 bytes at a time, stopping at the first pair that is
/// no hex number.
pub open spec fn decode_pairs(t: Seq<char>) -> PairsDecoded
    decreases t.len(),
{
    if t.len() == 0 {
        PairsDecoded::Bytes(seq![])
    } else if utf8_width(t[0]) == 1 {
        if t.len() >= 2 && utf8_width(t[1]) == 1 {
            match pair_value(t[0], t[1]) {
                Some(b) => prepend(seq![b], decode_pairs(t.skip(2))),
                None => PairsDecoded::BadDigit,
            }
        } else {
            PairsDecoded::SplitsChar
        }
    } else if utf8_width(t[0]) == 2 {
        PairsDecoded::BadDigit
    } else {
        PairsDecoded::SplitsChar
    }
}

/// Whether decoding `s` would slice a character in two, on which the
/// decoding panics.
pub open spec fn hex_decode_panics(s: Seq<char>) -> bool {
    let t = trim(s);
    utf8_len(t) % 2 == 0 && decode_pairs(t) is SplitsChar
}

/// What decoding the hex string `s` gives: its bytes, or the error message.
pub open spec fn hex_decode(s: Seq<char>) -> Result<Seq<u8>, Seq<char>> {
    let t = trim(s);
    if utf8_len(t) % 2 != 0 {
        Err("odd number of hex digits"@)
    } else {
        match decode_pairs(t) {
            PairsDecoded::Bytes(b) => Ok(b),
            _ => Err("invalid digit found in string"@),
        }
    }
}

/// The two lower-case hex digits of a byte (`{:02x}`).
pub open spec fn hex_byte(b: u8) -> Seq<char> {
    seq![digit_char((b / 16) as nat), digit_char((b % 16) as nat)]
}

/// The lower-case hex text of `bs`, two digits per byte.
pub open spec fn hex_encode(bs: Seq<u8>) -> Seq<char>
    decreases bs.len(),
{
    if bs.len() == 0 {
        seq![]
    } else {
        hex_encode(bs.drop_last()) + hex_byte(bs.last())
    }
}

proof fn lemma_pair_value_bound(a: char, b: char)
    ensures
        from_str_radix(seq![a, b], 16) matches Ok(n) ==> n < 256,
{
    let s = seq![a, b];
    if s[0] == '+' {
        let d = s.drop_first();
        assert(d.drop_first().len() == 0);
        assert(parse_digits(d.drop_first(), 16, digit_of(d[0])) == Ok::<nat, crate::num::IntErrorKind>(digit_of(d[0])));
    } else {
        assert(s.drop_first().drop_first().len() == 0);
        let n1 = digit_of(s[0]);
        if n1 < 16 {
            assert(parse_digits(s.drop_first(), 16, n1) == parse_digits(s.drop_first().drop_first(), 16, n1 * 16 + digit_of(s[1])) || digit_of(s[1]) >= 16 || n1 * 16 + digit_of(s[1]) > u32::MAX);
        }
    }
}

/// The byte the two characters read as, if they are a hex number.
fn pair_byte(a: char, b: char) -> (r: Option<u8>)
    ensures
        r == pair_value(a, b),
{
    let v = vec![a, b];
    assert(v@ =~= seq![a, b]);
    proof {
        lemma_pair_value_bound(a, b);
    }
    match parse_u32_radix(&v, 16) {
        Ok(n) => Some(n as u8),
        Err(_) => None,
    }
}

/// Decodes a hex string into bytes; an odd number of digits or a non-hex
/// pair is an error.
pub fn decode_hex(s: &str) -> (r: Result<Vec<u8>, String>)
    requires
        !hex_decode_panics(s@),
    ensures
        match r {
            Ok(b) => hex_decode(s@) == Ok::<Seq<u8>, Seq<char>>(b@),
            Err(e) => hex_decode(s@) == Err::<Seq<u8>, Seq<char>>(e@),
        },
{
    let raw = chars_of(s);
    let t = trim_chars(&raw);
    if utf8_length(&t) % 2 != 0 {
        return Err(string_from("odd number of hex digits"));
    }
    let mut out: Vec<u8> = Vec::new();
    let mut i: usize = 0;
    assert(t@.skip(0) == t@);
    while i < t.len()
        invariant
            i <= t.len(),
            t@ == trim(s@),
            utf8_len(t@) % 2 == 0,
            !(decode_pairs(t@) is SplitsChar),
            decode_pairs(t@) == prepend(out@, decode_pairs(t@.skip(i as int))),
        decreases t.len() - i,
    {
        let ghost rest = t@.skip(i as int);
        assert(rest[0] == t@[i as int]);
        let w = char_width(t[i]);
        if w == 1 {
            if i + 1 < t.len() && char_width(t[i + 1]) == 1 {
                assert(rest[1] == t@[i + 1]);
                match pair_byte(t[i], t[i + 1]) {
                    Some(b) => {
                        assert(rest.skip(2) =~= t@.skip(i + 2));
                        assert(out@.push(b) =~= out@ + seq![b]);
                        proof {
                            let tail = decode_pairs(t@.skip(i + 2));
                            match tail {
                                PairsDecoded::Bytes(x) => {
                                    assert(out@ + (seq![b] + x) =~= out@.push(b) + x);
                                },
                                _ => {},
                            }
                        }
                        out.push(b);
                        i += 2;
                    },
                    None => {
                        return Err(string_from("invalid digit found in string"));
                    },
                }
            } else {
                assert(false);
                return Err(string_from("invalid digit found in string"));
            }
        } else {
            return Err(string_from("invalid digit found in string"));
        }
    }
    assert(t@.skip(i as int).len() == 0);
    assert(out@ + seq![] =~= out@);
    Ok(out)
}

/// Whether decoding `s` would cut a character in two.
pub fn decode_would_split_char(s: &str) -> (r: bool)
    ensures
        r == hex_decode_panics(s@),
{
    let raw = chars_of(s);
    let t = trim_chars(&raw);
    if utf8_length(&t) % 2 != 0 {
        return false;
    }
    let mut i: usize = 0;
    assert(t@.skip(0) == t@);
    while i < t.len()
        invariant
            i <= t.len(),
            t@ == trim(s@),
            utf8_len(t@) % 2 == 0,
            (decode_pairs(t@) is SplitsChar) == (decode_pairs(t@.skip(i as int)) is SplitsChar),
        decreases t.len() - i,
    {
        let ghost rest = t@.skip(i as int);
        assert(rest[0] == t@[i as int]);
        let w = char_width(t[i]);
        if w == 1 {
            if i + 1 < t.len() && char_width(t[i + 1]) == 1 {
                assert(rest[1] == t@[i + 1]);
                match pair_byte(t[i], t[i + 1]) {
                    Some(b) => {
                        assert(rest.skip(2) =~= t@.skip(i + 2));
                        i += 2;
                    },
                    None => {
                        return false;
                    },
                }
            } else {
                return true;
            }
        } else {
            return w != 2;
        }
    }
    assert(t@.skip(i as int).len() == 0);
    false
}

/// The lower-case hex text of a byte sequence.
pub fn encode_hex(bytes: &[u8]) -> (r: String)
    ensures
        r@ == hex_encode(bytes@),
{
    let mut v: Vec<char> = Vec::new();
    let mut i: usize = 0;
    while i < bytes.len()
        invariant
            i <= bytes.len(),
            v@ == hex_encode(bytes@.take(i as int)),
        decreases bytes.len() - i,
    {
        let b = bytes[i];
        assert(bytes@.take(i + 1).drop_last() =~= bytes@.take(i as int));
        v.push(digit_to_char((b / 16) as u32));
        v.push(digit_to_char((b % 16) as u32));
        i += 1;
        assert(v@ =~= hex_encode(bytes@.take(i as int)));
    }
    assert(bytes@.take(bytes.len() as int) =~= bytes@);
    string_of(&v)
}

proof fn lemma_digit_char(d: nat)
    requires
        d < 16,
    ensures
        digit_of(digit_char(d)) == d,
        !is_ws(digit_char(d)),
        utf8_width(digit_char(d)) == 1,
        digit_char(d) != '+',
        digit_char(d) != '-',
{
    if d < 10 {
        assert(digit_char(d) as u32 == 48 + d);
    } else {
        assert(digit_char(d) as u32 == 87 + d);
    }
}

proof fn lemma_hex_encode_front(bs: Seq<u8>)
    requires
        bs.len() > 0,
    ensures
        hex_encode(bs) == hex_byte(bs[0]) + hex_encode(bs.drop_first()),
    decreases bs.len(),
{
    if bs.len() > 1 {
        lemma_hex_encode_front(bs.drop_last());
        assert(bs.drop_last().drop_first() =~= bs.drop_first().drop_last());
        assert(bs.drop_first().last() == bs.last());
        assert(bs.drop_last()[0] == bs[0]);
        assert(hex_encode(bs.drop_first()) == hex_encode(bs.drop_first().drop_last()) + hex_byte(bs.last()));
        assert(hex_encode(bs) =~= hex_byte(bs[0]) + hex_encode(bs.drop_first()));
    } else {
        assert(bs.drop_last().len() == 0);
        assert(bs.drop_first().len() == 0);
        assert(hex_encode(bs.drop_last()) =~= Seq::<char>::empty());
        assert(hex_encode(bs.drop_first()) =~= Seq::<char>::empty());
        assert(bs.last() == bs[0]);
        assert(hex_encode(bs) =~= hex_byte(bs[0]) + hex_encode(bs.drop_first()));
    }
}

proof fn lemma_hex_encode_chars(bs: Seq<u8>)
    ensures
        hex_encode(bs).len() == 2 * bs.len(),
        utf8_len(hex_encode(bs)) == 2 * bs.len(),
        forall|i: int| 0 <= i < hex_encode(bs).len() ==> !is_ws(#[trigger] hex_encode(bs)[i]),
    decreases bs.len(),
{
    if bs.len() > 0 {
        let b = bs.last();
        lemma_hex_encode_chars(bs.drop_last());
        lemma_digit_char((b / 16) as nat);
        lemma_digit_char((b % 16) as nat);
        let prev = hex_encode(bs.drop_last());
        crate::text::lemma_utf8_len_concat(prev, hex_byte(b));
        let hb = hex_byte(b);
        assert(hb.drop_last() =~= seq![hb[0]]);
        assert(seq![hb[0]].drop_last() =~= Seq::<char>::empty());
        assert(utf8_len(Seq::<char>::empty()) == 0);
        assert(utf8_len(seq![hb[0]]) == utf8_len(Seq::<char>::empty()) + utf8_width(hb[0]));
        assert(utf8_len(hb) == utf8_len(seq![hb[0]]) + utf8_width(hb[1]));
        assert(utf8_len(hb) == 2);
        assert forall|i: int| 0 <= i < hex_encode(bs).len() implies !is_ws(#[trigger] hex_encode(bs)[i]) by {
            if i >= prev.len() {
                assert(hex_encode(bs)[i] == hb[i - prev.len()]);
            } else {
                assert(hex_encode(bs)[i] == prev[i]);
            }
        }
    }
}

proof fn lemma_decode_hex_encode(bs: Seq<u8>)
    ensures
        decode_pairs(hex_encode(bs)) == PairsDecoded::Bytes(bs),
    decreases bs.len(),
{
    if bs.len() == 0 {
        assert(bs =~= Seq::<u8>::empty());
        assert(hex_encode(bs) =~= Seq::<char>::empty());
    } else {
        let b = bs[0];
        lemma_hex_encode_front(bs);
        lemma_hex_encode_chars(bs);
        lemma_decode_hex_encode(bs.drop_first());
        let t = hex_encode(bs);
        let hi = digit_char((b / 16) as nat);
        let lo = digit_char((b % 16) as nat);
        lemma_digit_char((b / 16) as nat);
        lemma_digit_char((b % 16) as nat);
        assert(t[0] == hi && t[1] == lo);
        assert(t.skip(2) =~= hex_encode(bs.drop_first()));
        let s = seq![hi, lo];
        assert(s.drop_first() =~= seq![lo]);
        assert(seq![lo].drop_first().len() == 0);
        assert(parse_digits(seq![lo], 16, digit_of(hi)) == parse_digits(seq![lo].drop_first(), 16, digit_of(hi) * 16 + digit_of(lo)));
        assert(digit_of(hi) * 16 + digit_of(lo) == b);
        assert(pair_value(hi, lo) == Some(b));
        assert(decode_pairs(t) == prepend(seq![b], decode_pairs(t.skip(2))));
        assert(seq![b] + bs.drop_first() =~= bs);
    }
}

proof fn lemma_trim_no_ws(s: Seq<char>)
    requires
        forall|i: int| 0 <= i < s.len() ==> !is_ws(#[trigger] s[i]),
    ensures
        trim(s) == s,
{
    assert(trim_start(s) == s);
    assert(trim_end(s) == s);
}

/// Decoding the hex text of some bytes gives those bytes back: what
/// `ReadBytes` answers, `WriteBytes` writes back unchanged.
pub proof fn lemma_hex_roundtrip(bs: Seq<u8>)
    ensures
        !hex_decode_panics(hex_encode(bs)),
        hex_decode(hex_encode(bs)) == Ok::<Seq<u8>, Seq<char>>(bs),
{
    lemma_hex_encode_chars(bs);
    lemma_trim_no_ws(hex_encode(bs));
    lemma_decode_hex_encode(bs);
}

/// An ASCII hex digit, in either case.
pub open spec fn is_hex_digit(c: char) -> bool {
    let u = c as u32;
    (48 <= u <= 57) || (97 <= u <= 102) || (65 <= u <= 70)
}

/// `char::to_ascii_lowercase`.
pub open spec fn ascii_lower(c: char) -> char {
    let u = c as u32;
    if 65 <= u <= 90 {
        (u + 32) as char
    } else {
        c
    }
}

/// `str::to_ascii_lowercase`.
pub open spec fn ascii_lower_text(s: Seq<char>) -> Seq<char> {
    s.map_values(|c: char| ascii_lower(c))
}

proof fn lemma_hex_digit_char(c: char)
    requires
        is_hex_digit(c),
    ensures
        digit_of(c) < 16,
        digit_char(digit_of(c)) == ascii_lower(c),
        utf8_width(c) == 1,
        c != '+',
{
    let u = c as u32;
    if 48 <= u <= 57 {
        assert(digit_char(digit_of(c)) as u32 == u);
    } else if 97 <= u <= 102 {
        assert(digit_char(digit_of(c)) as u32 == u);
    } else {
        assert(digit_char(digit_of(c)) as u32 == u + 32);
        assert(ascii_lower(c) as u32 == u + 32);
    }
}

proof fn lemma_decode_digits(t: Seq<char>)
    requires
        t.len() % 2 == 0,
        forall|i: int| 0 <= i < t.len() ==> is_hex_digit(#[trigger] t[i]),
    ensures
        utf8_len(t) == t.len(),
        decode_pairs(t) matches PairsDecoded::Bytes(b) && hex_encode(b) == ascii_lower_text(t),
    decreases t.len(),
{
    if t.len() == 0 {
        assert(ascii_lower_text(t) =~= Seq::<char>::empty());
        assert(hex_encode(Seq::<u8>::empty()) =~= Seq::<char>::empty());
    } else {
        let a = t[0];
        let c = t[1];
        let rest = t.skip(2);
        assert forall|i: int| 0 <= i < rest.len() implies is_hex_digit(#[trigger] rest[i]) by {
            assert(rest[i] == t[i + 2]);
        }
        lemma_decode_digits(rest);
        lemma_hex_digit_char(a);
        lemma_hex_digit_char(c);
        let da = digit_of(a);
        let dc = digit_of(c);
        let v = da * 16 + dc;
        let pair = seq![a, c];
        assert(pair.drop_first() =~= seq![c]);
        assert(seq![c].drop_first().len() == 0);
        assert(parse_digits(pair, 16, 0) == parse_digits(seq![c], 16, da));
        assert(parse_digits(seq![c], 16, da) == parse_digits(seq![c].drop_first(), 16, v));
        assert(from_str_radix(pair, 16) == Ok::<u32, crate::num::IntErrorKind>(v as u32));
        assert(pair_value(a, c) == Some(v as u8));
        let b = match decode_pairs(rest) {
            PairsDecoded::Bytes(b) => b,
            _ => Seq::<u8>::empty(),
        };
        let bs = seq![v as u8] + b;
        assert(decode_pairs(t) == PairsDecoded::Bytes(bs));
        lemma_hex_encode_front(bs);
        assert(bs[0] == v as u8);
        assert(bs.drop_first() =~= b);
        assert((v as u8) / 16 == da && (v as u8) % 16 == dc);
        assert(hex_byte(v as u8) =~= seq![ascii_lower(a), ascii_lower(c)]);
        assert(t =~= pair + rest);
        assert(ascii_lower_text(t) =~= seq![ascii_lower(a), ascii_lower(c)] + ascii_lower_text(rest));
        crate::text::lemma_utf8_len_concat(pair, rest);
        assert(pair.drop_last() =~= seq![a]);
        assert(seq![a].drop_last() =~= Seq::<char>::empty());
        assert(utf8_len(Seq::<char>::empty()) == 0);
        assert(utf8_len(seq![a]) == utf8_len(Seq::<char>::empty()) + utf8_width(a));
        assert(utf8_len(pair) == utf8_len(seq![a]) + utf8_width(c));
    }
}

/// Encoding what a hex string decodes to gives the string back, trimmed
/// and in lower case: what `WriteBytes` writes, `ReadBytes` answers with,
/// for a string of an even number of ASCII hex digits.
pub proof fn lemma_hex_text_roundtrip(s: Seq<char>)
    requires
        trim(s).len() % 2 == 0,
        forall|i: int| 0 <= i < trim(s).len() ==> is_hex_digit(#[trigger] trim(s)[i]),
    ensures
        !hex_decode_panics(s),
        hex_decode(s) matches Ok(b) && hex_encode(b) == ascii_lower_text(trim(s)),
{
    lemma_decode_digits(trim(s));
}

} // verus!
