use vstd::prelude::*;

verus! {

/// Why `from_str_radix` refused its input (`std::num::IntErrorKind`, unsigned cases).
#[derive(Debug, Clone, Copy, PartialEq, Eq)]
pub enum IntErrorKind {
    Empty,
    InvalidDigit,
    PosOverflow,
}

/// The text that `ParseIntError` displays for each kind.
pub fn int_error_message(k: IntErrorKind) -> (r: String)
    ensures
        r@ == int_error_text(k),
{
    match k {
        IntErrorKind::Empty => crate::text::owned("cannot parse integer from empty string"),
        IntErrorKind::InvalidDigit => crate::text::owned("invalid digit found in string"),
        IntErrorKind::PosOverflow => crate::text::owned("number too large to fit in target type"),
    }
}

pub open spec fn int_error_text(k: IntErrorKind) -> Seq<char> {
    match k {
        IntErrorKind::Empty => "cannot parse integer from empty string"@,
        IntErrorKind::InvalidDigit => "invalid digit found in string"@,
        IntErrorKind::PosOverflow => "number too large to fit in target type"@,
    }
}

/// `char::to_digit` for the radixes used here (10 and 16).
pub open spec fn digit_value(c: char, radix: nat) -> Option<nat> {
    let u = c as u32;
    if 0x30 <= u <= 0x39 && (u - 0x30) < radix {
        Some((u - 0x30) as nat)
    } else if radix == 16 && 0x61 <= u <= 0x66 {
        Some((u - 0x61 + 10) as nat)
    } else if radix == 16 && 0x41 <= u <= 0x46 {
        Some((u - 0x41 + 10) as nat)
    } else {
        None
    }
}

/// Accumulates digits left to right, failing at the first invalid digit
/// or at the first step that exceeds `max`.
pub open spec fn parse_digits(acc: nat, s: Seq<char>, radix: nat, max: nat) -> Result<
    nat,
    IntErrorKind,
>
    decreases s.len(),
{
    if s.len() == 0 {
        Ok(acc)
    } else {
        match digit_value(s[0], radix) {
            None => Err(IntErrorKind::InvalidDigit),
            Some(d) => {
                let a = acc * radix + d;
                if a > max {
                    Err(IntErrorKind::PosOverflow)
                } else {
                    parse_digits(a, s.drop_first(), radix, max)
                }
            },
        }
    }
}

/// `from_str_radix` for an unsigned type whose largest value is `max`:
/// an optional leading `+`, then at least one digit.
pub open spec fn parse_uint(s: Seq<char>, radix: nat, max: nat) -> Result<nat, IntErrorKind> {
    if s.len() == 0 {
        Err(IntErrorKind::Empty)
    } else if s.len() == 1 && (s[0] == '+' || s[0] == '-') {
        Err(IntErrorKind::InvalidDigit)
    } else if s[0] == '+' {
        parse_digits(0, s.drop_first(), radix, max)
    } else {
        parse_digits(0, s, radix, max)
    }
}

pub proof fn lemma_parse_digits_bound(acc: nat, s: Seq<char>, radix: nat, max: nat)
    requires
        acc <= max,
    ensures
        parse_digits(acc, s, radix, max) matches Ok(v) ==> v <= max,
    decreases s.len(),
{
    if s.len() > 0 {
        if let Some(d) = digit_value(s[0], radix) {
            let a = acc * radix + d;
            if a <= max {
                lemma_parse_digits_bound(a, s.drop_first(), radix, max);
            }
        }
    }
}

pub proof fn lemma_parse_uint_bound(s: Seq<char>, radix: nat, max: nat)
    ensures
        parse_uint(s, radix, max) matches Ok(v) ==> v <= max,
{
    lemma_parse_digits_bound(0, s, radix, max);
    if s.len() > 0 {
        lemma_parse_digits_bound(0, s.drop_first(), radix, max);
    }
}

fn digit_of(c: char, radix: u32) -> (r: Option<u32>)
    requires
        radix == 10 || radix == 16,
    ensures
        match digit_value(c, radix as nat) {
            Some(d) => r == Some(d as u32),
            None => r is None,
        },
{
    let u = c as u32;
    if 0x30 <= u && u <= 0x39 && (u - 0x30) < radix {
        Some(u - 0x30)
    } else if radix == 16 && 0x61 <= u && u <= 0x66 {
        Some(u - 0x61 + 10)
    } else if radix == 16 && 0x41 <= u && u <= 0x46 {
        Some(u - 0x41 + 10)
    } else {
        None
    }
}

proof fn lemma_mul_bound(acc: nat, radix: nat, d: nat, max: nat)
    requires
        radix > 0,
        d < radix,
    ensures
        acc > max / radix ==> acc * radix + d > max,
        acc <= max / radix ==> acc * radix <= max,
{
    assert(acc > max / radix ==> acc * radix + d > max) by (nonlinear_arith)
        requires
            radix > 0,
    ;
    assert(acc <= max / radix ==> acc * radix <= max) by (nonlinear_arith)
        requires
            radix > 0,
    ;
}

/// Parses an unsigned integer as `from_str_radix` does, for a type whose
/// largest value is `max`.
pub fn parse_uint_chars(s: &[char], radix: u32, max: u128) -> (r: Result<u128, IntErrorKind>)
    requires
        radix == 10 || radix == 16,
    ensures
        match parse_uint(s@, radix as nat, max as nat) {
            Ok(v) => r == Ok::<u128, IntErrorKind>(v as u128),
            Err(e) => r == Err::<u128, IntErrorKind>(e),
        },
        r matches Ok(v) ==> v <= max,
        parse_uint(s@, radix as nat, max as nat) matches Ok(v) ==> v <= max,
{
    proof {
        lemma_parse_uint_bound(s@, radix as nat, max as nat);
    }
    let n = s.len();
    if n == 0 {
        return Err(IntErrorKind::Empty);
    }
    if n == 1 && (s[0] == '+' || s[0] == '-') {
        return Err(IntErrorKind::InvalidDigit);
    }
    let mut i: usize = if s[0] == '+' {
        1
    } else {
        0
    };
    let ghost start = i;
    let mut acc: u128 = 0;
    assert(s@.skip(i as int) =~= if s@[0] == '+' {
        s@.drop_first()
    } else {
        s@
    });
    while i < n
        invariant
            i <= n,
            n == s@.len(),
            radix == 10 || radix == 16,
            acc <= max,
            parse_uint(s@, radix as nat, max as nat) == parse_digits(
                acc as nat,
                s@.skip(i as int),
                radix as nat,
                max as nat,
            ),
        decreases n - i,
    {
        let ghost t = s@.skip(i as int);
        assert(t[0] == s@[i as int]);
        assert(t.drop_first() =~= s@.skip(i + 1));
        match digit_of(s[i], radix) {
            None => {
                return Err(IntErrorKind::InvalidDigit);
            },
            Some(d) => {
                proof {
                    lemma_mul_bound(acc as nat, radix as nat, d as nat, max as nat);
                }
                if acc > max / (radix as u128) {
                    return Err(IntErrorKind::PosOverflow);
                }
                let a = acc * (radix as u128);
                if (d as u128) > max - a {
                    return Err(IntErrorKind::PosOverflow);
                }
                acc = a + d as u128;
            },
        }
        i = i + 1;
    }
    assert(s@.skip(n as int) =~= Seq::<char>::empty());
    Ok(acc)
}

// ------------------------------------------------------------------
// Formatting
// ------------------------------------------------------------------

/// The lowercase digit character for `d < 16`.
pub open spec fn digit_char(d: nat) -> char {
    if d < 10 {
        (d + 0x30) as char
    } else {
        (d - 10 + 0x61) as char
    }
}

/// The decimal representation of `n` (`Display` for unsigned integers).
pub open spec fn decimal(n: nat) -> Seq<char>
    decreases n,
{
    if n < 10 {
        seq![digit_char(n)]
    } else {
        decimal(n / 10) + seq![digit_char(n % 10)]
    }
}

fn digit_char_exec(d: u8) -> (c: char)
    requires
        d < 16,
    ensures
        c == digit_char(d as nat),
{
    if d < 10 {
        (d + 0x30) as char
    } else {
        (d - 10 + 0x61) as char
    }
}

/// Formats `n` in decimal.
pub fn fmt_decimal(n: u128) -> (r: Vec<char>)
    ensures
        r@ == decimal(n as nat),
    decreases n,
{
    if n < 10 {
        let mut v: Vec<char> = Vec::new();
        v.push(digit_char_exec(n as u8));
        v
    } else {
        let mut v = fmt_decimal(n / 10);
        v.push(digit_char_exec((n % 10) as u8));
        v
    }
}

/// Two lowercase hexadecimal digits (`{:02x}` for a byte).
pub open spec fn hex2(b: u8) -> Seq<char> {
    seq![digit_char((b / 16) as nat), digit_char((b % 16) as nat)]
}

pub fn fmt_hex2(b: u8) -> (r: Vec<char>)
    ensures
        r@ == hex2(b),
{
    let mut v: Vec<char> = Vec::new();
    v.push(digit_char_exec(b / 16));
    v.push(digit_char_exec(b % 16));
    v
}

// ------------------------------------------------------------------
// Round trips
// ------------------------------------------------------------------

pub proof fn lemma_digit_roundtrip(d: nat, radix: nat)
    requires
        radix == 10 || radix == 16,
        d < radix,
    ensures
        digit_value(digit_char(d), radix) == Some(d),
        digit_char(d) != '+',
        digit_char(d) != '-',
{
}

pub proof fn lemma_parse_digits_append(acc: nat, a: Seq<char>, b: Seq<char>, radix: nat, max: nat)
    requires
        parse_digits(acc, a, radix, max) is Ok,
    ensures
        parse_digits(acc, a + b, radix, max) == parse_digits(
            parse_digits(acc, a, radix, max)->Ok_0,
            b,
            radix,
            max,
        ),
    decreases a.len(),
{
    if a.len() == 0 {
        assert(a + b =~= b);
    } else {
        assert((a + b)[0] == a[0]);
        assert((a + b).drop_first() =~= a.drop_first() + b);
        let d = digit_value(a[0], radix)->Some_0;
        lemma_parse_digits_append(acc * radix + d, a.drop_first(), b, radix, max);
    }
}

pub proof fn lemma_decimal_digits(n: nat, max: nat)
    requires
        n <= max,
    ensures
        parse_digits(0, decimal(n), 10, max) == Ok::<nat, IntErrorKind>(n),
        decimal(n).len() > 0,
        decimal(n)[0] != '+',
        decimal(n)[0] != '-',
    decreases n,
{
    if n < 10 {
        lemma_digit_roundtrip(n, 10);
        assert(decimal(n).drop_first() =~= Seq::<char>::empty());
        assert(parse_digits(n, Seq::<char>::empty(), 10, max) == Ok::<nat, IntErrorKind>(n));
    } else {
        assert(n / 10 <= max);
        lemma_decimal_digits(n / 10, max);
        lemma_digit_roundtrip(n % 10, 10);
        lemma_parse_digits_append(0, decimal(n / 10), seq![digit_char(n % 10)], 10, max);
        assert(seq![digit_char(n % 10)].drop_first() =~= Seq::<char>::empty());
        assert((n / 10) * 10 + n % 10 == n);
        assert(parse_digits(n, Seq::<char>::empty(), 10, max) == Ok::<nat, IntErrorKind>(n));
        assert(parse_digits(n / 10, seq![digit_char(n % 10)], 10, max) == Ok::<nat, IntErrorKind>(n));
        assert((decimal(n / 10) + seq![digit_char(n % 10)])[0] == decimal(n / 10)[0]);
    }
}

/// Formatting a number in decimal and parsing it back gives the number.
pub proof fn lemma_decimal_roundtrip(n: nat, max: nat)
    requires
        n <= max,
    ensures
        parse_uint(decimal(n), 10, max) == Ok::<nat, IntErrorKind>(n),
{
    lemma_decimal_digits(n, max);
}

/// A hexadecimal digit, in lower case (`{:x}`) or upper case (`{:X}`).
pub open spec fn hex_digit_char(d: nat, upper: bool) -> char {
    if d < 10 {
        (d + 0x30) as char
    } else if upper {
        (d - 10 + 0x41) as char
    } else {
        (d - 10 + 0x61) as char
    }
}

/// The hexadecimal representation of `n`, without leading zeros
/// (`{:x}`, or `{:X}` when `upper`).
pub open spec fn hex_text(n: nat, upper: bool) -> Seq<char>
    decreases n,
{
    if n < 16 {
        seq![hex_digit_char(n, upper)]
    } else {
        hex_text(n / 16, upper) + seq![hex_digit_char(n % 16, upper)]
    }
}

proof fn lemma_hex_digit_roundtrip(d: nat, upper: bool)
    requires
        d < 16,
    ensures
        digit_value(hex_digit_char(d, upper), 16) == Some(d),
        hex_digit_char(d, upper) != '+',
        hex_digit_char(d, upper) != '-',
{
}

proof fn lemma_hex_digits(n: nat, max: nat, upper: bool)
    requires
        n <= max,
    ensures
        parse_digits(0, hex_text(n, upper), 16, max) == Ok::<nat, IntErrorKind>(n),
        hex_text(n, upper).len() > 0,
        hex_text(n, upper)[0] != '+',
        hex_text(n, upper)[0] != '-',
    decreases n,
{
    if n < 16 {
        lemma_hex_digit_roundtrip(n, upper);
        assert(hex_text(n, upper).drop_first() =~= Seq::<char>::empty());
        assert(parse_digits(n, Seq::<char>::empty(), 16, max) == Ok::<nat, IntErrorKind>(n));
    } else {
        assert(n / 16 <= max);
        lemma_hex_digits(n / 16, max, upper);
        lemma_hex_digit_roundtrip(n % 16, upper);
        let last = seq![hex_digit_char(n % 16, upper)];
        lemma_parse_digits_append(0, hex_text(n / 16, upper), last, 16, max);
        assert(last.drop_first() =~= Seq::<char>::empty());
        assert((n / 16) * 16 + n % 16 == n);
        assert(parse_digits(n, Seq::<char>::empty(), 16, max) == Ok::<nat, IntErrorKind>(n));
        assert(parse_digits(n / 16, last, 16, max) == Ok::<nat, IntErrorKind>(n));
        assert((hex_text(n / 16, upper) + last)[0] == hex_text(n / 16, upper)[0]);
    }
}

/// Formatting a number in hexadecimal, in either case, and parsing it back
/// in radix 16 gives the number.
pub proof fn lemma_hex_roundtrip(n: nat, max: nat, upper: bool)
    requires
        n <= max,
    ensures
        parse_uint(hex_text(n, upper), 16, max) == Ok::<nat, IntErrorKind>(n),
{
    lemma_hex_digits(n, max, upper);
}

} // verus!
