//! Integer parsing (`u32::from_str_radix`) and formatting (`{}` and `{:x}`)
//! over sequences of characters.
use vstd::prelude::*;

verus! {

/// Why a string is not a `u32` (the kinds `u32::from_str_radix` reports).
#[derive(Debug, Clone, Copy, PartialEq, Eq, Structural)]
pub enum IntErrorKind {
    Empty,
    InvalidDigit,
    PosOverflow,
}

impl IntErrorKind {
    /// The message `ParseIntError` displays for this kind.
    pub fn message(&self) -> (r: String)
        ensures
            r@ == int_error_message(*self),
    {
        match self {
            IntErrorKind::Empty => String::from_str("cannot parse integer from empty string"),
            IntErrorKind::InvalidDigit => String::from_str("invalid digit found in string"),
            IntErrorKind::PosOverflow => String::from_str("number too large to fit in target type"),
        }
    }
}

/// The message of each error kind.
pub open spec fn int_error_message(k: IntErrorKind) -> Seq<char> {
    match k {
        IntErrorKind::Empty => "cannot parse integer from empty string"@,
        IntErrorKind::InvalidDigit => "invalid digit found in string"@,
        IntErrorKind::PosOverflow => "number too large to fit in target type"@,
    }
}

/// `char::to_digit(36)`: the value of an ASCII digit or letter, 36 for
/// anything else.
pub open spec fn digit_of(c: char) -> nat {
    let u = c as u32;
    if 48 <= u <= 57 {
        (u - 48) as nat
    } else if 97 <= u <= 122 {
        (u - 87) as nat
    } else if 65 <= u <= 90 {
        (u - 55) as nat
    } else {
        36
    }
}

/// Digits read left to right onto `acc`; the first bad digit or the first
/// overflow past `u32::MAX` ends the reading with an error.
pub open spec fn parse_digits(d: Seq<char>, radix: nat, acc: nat) -> Result<nat, IntErrorKind>
    decreases d.len(),
{
    if d.len() == 0 {
        Ok(acc)
    } else if digit_of(d[0]) >= radix {
        Err(IntErrorKind::InvalidDigit)
    } else {
        let n = acc * radix + digit_of(d[0]);
        if n > u32::MAX {
            Err(IntErrorKind::PosOverflow)
        } else {
            parse_digits(d.drop_first(), radix, n)
        }
    }
}

/// `u32::from_str_radix(s, radix)`: an optional `+`, then at least one digit.
pub open spec fn from_str_radix(s: Seq<char>, radix: nat) -> Result<u32, IntErrorKind> {
    if s.len() == 0 {
        Err(IntErrorKind::Empty)
    } else if s.len() == 1 && (s[0] == '+' || s[0] == '-') {
        Err(IntErrorKind::InvalidDigit)
    } else {
        let d = if s[0] == '+' {
            s.drop_first()
        } else {
            s
        };
        match parse_digits(d, radix, 0) {
            Ok(n) => Ok(n as u32),
            Err(e) => Err(e),
        }
    }
}

proof fn lemma_parse_digits_bound(d: Seq<char>, radix: nat, acc: nat)
    requires
        acc <= u32::MAX,
    ensures
        parse_digits(d, radix, acc) matches Ok(n) ==> n <= u32::MAX,
    decreases d.len(),
{
    if d.len() > 0 && digit_of(d[0]) < radix {
        let n = acc * radix + digit_of(d[0]);
        if n <= u32::MAX {
            lemma_parse_digits_bound(d.drop_first(), radix, n);
        }
    }
}

/// The value of one character as a digit (36 when it is none).
pub fn digit_value(c: char) -> (r: u32)
    ensures
        r == digit_of(c),
{
    let u = c as u32;
    if 48 <= u && u <= 57 {
        u - 48
    } else if 97 <= u && u <= 122 {
        u - 87
    } else if 65 <= u && u <= 90 {
        u - 55
    } else {
        36
    }
}

/// Parses `s` as `u32::from_str_radix` does.
pub fn parse_u32_radix(s: &Vec<char>, radix: u32) -> (r: Result<u32, IntErrorKind>)
    requires
        2 <= radix <= 36,
    ensures
        r == from_str_radix(s@, radix as nat),
{
    if s.len() == 0 {
        return Err(IntErrorKind::Empty);
    }
    if s.len() == 1 && (s[0] == '+' || s[0] == '-') {
        return Err(IntErrorKind::InvalidDigit);
    }
    let start: usize = if s[0] == '+' { 1 } else { 0 };
    let ghost d = if s@[0] == '+' { s@.drop_first() } else { s@ };
    assert(d == s@.skip(start as int));
    let mut acc: u32 = 0;
    let mut i: usize = start;
    while i < s.len()
        invariant
            start <= i <= s.len(),
            2 <= radix <= 36,
            d == s@.skip(start as int),
            s@.len() > 0,
            !(s@.len() == 1 && (s@[0] == '+' || s@[0] == '-')),
            d == (if s@[0] == '+' { s@.drop_first() } else { s@ }),
            parse_digits(d, radix as nat, 0) == parse_digits(s@.skip(i as int), radix as nat, acc as nat),
        decreases s.len() - i,
    {
        let ghost rest = s@.skip(i as int);
        assert(rest[0] == s@[i as int]);
        assert(rest.drop_first() == s@.skip(i + 1));
        let v = digit_value(s[i]);
        if v >= radix {
            return Err(IntErrorKind::InvalidDigit);
        }
        match acc.checked_mul(radix) {
            None => {
                assert(acc * radix + v > u32::MAX) by (nonlinear_arith)
                    requires acc * radix > u32::MAX, v >= 0;
                return Err(IntErrorKind::PosOverflow);
            },
            Some(m) => match m.checked_add(v) {
                None => {
                    return Err(IntErrorKind::PosOverflow);
                },
                Some(n) => {
                    acc = n;
                },
            },
        }
        i += 1;
    }
    assert(s@.skip(i as int).len() == 0);
    proof {
        lemma_parse_digits_bound(d, radix as nat, 0);
    }
    Ok(acc)
}

// ── Formatting ──────────────────────────────────────────────────────────────

/// The lower-case digit character for `d < 16`.
pub open spec fn digit_char(d: nat) -> char {
    if d < 10 {
        (48 + d) as char
    } else {
        (87 + d) as char
    }
}

/// Decimal representation of `n` (`format!("{n}")`).
pub open spec fn dec(n: nat) -> Seq<char>
    decreases n,
{
    if n < 10 {
        seq![digit_char(n)]
    } else {
        dec(n / 10).push(digit_char(n % 10))
    }
}

/// Lower-case hexadecimal representation of `n` (`format!("{n:x}")`).
pub open spec fn hex(n: nat) -> Seq<char>
    decreases n,
{
    if n < 16 {
        seq![digit_char(n)]
    } else {
        hex(n / 16).push(digit_char(n % 16))
    }
}

/// The character of one digit.
pub fn digit_to_char(d: u32) -> (c: char)
    requires
        d < 16,
    ensures
        c == digit_char(d as nat),
{
    if d < 10 {
        ((48 + d) as u8) as char
    } else {
        ((87 + d) as u8) as char
    }
}

/// Appends the decimal digits of `n`.
pub fn push_dec(out: &mut Vec<char>, n: u32)
    ensures
        final(out)@ == old(out)@ + dec(n as nat),
    decreases n,
{
    if n >= 10 {
        push_dec(out, n / 10);
    }
    out.push(digit_to_char(n % 10));
}

/// Appends the lower-case hexadecimal digits of `n`.
pub fn push_hex(out: &mut Vec<char>, n: u32)
    ensures
        final(out)@ == old(out)@ + hex(n as nat),
    decreases n,
{
    if n >= 16 {
        push_hex(out, n / 16);
    }
    out.push(digit_to_char(n % 16));
}

/// Reading one more digit after `s`.
proof fn lemma_parse_digits_push(s: Seq<char>, c: char, radix: nat, acc: nat)
    ensures
        parse_digits(s.push(c), radix, acc) == match parse_digits(s, radix, acc) {
            Ok(v) => if digit_of(c) >= radix {
                Err(IntErrorKind::InvalidDigit)
            } else if v * radix + digit_of(c) > u32::MAX {
                Err(IntErrorKind::PosOverflow)
            } else {
                Ok(v * radix + digit_of(c))
            },
            Err(e) => Err(e),
        },
    decreases s.len(),
{
    if s.len() == 0 {
        let t = s.push(c);
        assert(t.drop_first() =~= Seq::<char>::empty());
        assert(t[0] == c);
        assert(parse_digits(s, radix, acc) == Ok::<nat, IntErrorKind>(acc));
        if digit_of(c) < radix && acc * radix + digit_of(c) <= u32::MAX {
            assert(parse_digits(t.drop_first(), radix, acc * radix + digit_of(c)) == Ok::<nat, IntErrorKind>(acc * radix + digit_of(c)));
        }
    } else {
        assert(s.push(c).drop_first() =~= s.drop_first().push(c));
        assert(s.push(c)[0] == s[0]);
        if digit_of(s[0]) < radix {
            let n = acc * radix + digit_of(s[0]);
            if n <= u32::MAX {
                lemma_parse_digits_push(s.drop_first(), c, radix, n);
            }
        }
    }
}

proof fn lemma_digit_char_value(d: nat)
    requires
        d < 16,
    ensures
        digit_of(digit_char(d)) == d,
        digit_char(d) != '+',
        digit_char(d) != '-',
{
    if d < 10 {
        assert(digit_char(d) as u32 == 48 + d);
    } else {
        assert(digit_char(d) as u32 == 87 + d);
    }
}

proof fn lemma_parse_hex_digits(n: nat)
    requires
        n <= u32::MAX,
    ensures
        parse_digits(hex(n), 16, 0) == Ok::<nat, IntErrorKind>(n),
        hex(n).len() > 0,
        hex(n)[0] != '+',
        hex(n)[0] != '-',
    decreases n,
{
    lemma_digit_char_value(n % 16);
    if n < 16 {
        let s = seq![digit_char(n)];
        assert(s =~= Seq::<char>::empty().push(digit_char(n)));
        lemma_parse_digits_push(Seq::<char>::empty(), digit_char(n), 16, 0);
    } else {
        lemma_parse_hex_digits(n / 16);
        lemma_parse_digits_push(hex(n / 16), digit_char(n % 16), 16, 0);
        assert(hex(n)[0] == hex(n / 16)[0]);
    }
}

proof fn lemma_parse_dec_digits(n: nat)
    requires
        n <= u32::MAX,
    ensures
        parse_digits(dec(n), 10, 0) == Ok::<nat, IntErrorKind>(n),
        dec(n).len() > 0,
        dec(n)[0] != '+',
        dec(n)[0] != '-',
    decreases n,
{
    lemma_digit_char_value(n % 10);
    if n < 10 {
        let s = seq![digit_char(n)];
        assert(s =~= Seq::<char>::empty().push(digit_char(n)));
        lemma_parse_digits_push(Seq::<char>::empty(), digit_char(n), 10, 0);
    } else {
        lemma_parse_dec_digits(n / 10);
        lemma_parse_digits_push(dec(n / 10), digit_char(n % 10), 10, 0);
        assert(dec(n)[0] == dec(n / 10)[0]);
    }
}

/// Formatting a number and parsing it back gives the number, in decimal
/// and in hex.
pub proof fn lemma_format_parse_roundtrip(n: u32)
    ensures
        from_str_radix(dec(n as nat), 10) == Ok::<u32, IntErrorKind>(n),
        from_str_radix(hex(n as nat), 16) == Ok::<u32, IntErrorKind>(n),
{
    lemma_parse_dec_digits(n as nat);
    lemma_parse_hex_digits(n as nat);
}

} // verus!
