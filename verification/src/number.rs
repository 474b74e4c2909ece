//! Reading numbers from text and writing them in decimal and hexadecimal.
use vstd::prelude::*;

use crate::text::{chars_of, push_text};

verus! {

/// Why a text is not a number.
#[derive(Clone, Copy, Debug, PartialEq, Eq, Structural)]
pub enum NumberFault {
    Empty,
    InvalidDigit,
    TooLarge,
}

impl NumberFault {
    /// The sentence that describes the fault.
    pub open spec fn text(self) -> Seq<char> {
        match self {
            NumberFault::Empty => "cannot parse integer from empty string"@,
            NumberFault::InvalidDigit => "invalid digit found in string"@,
            NumberFault::TooLarge => "number too large to fit in target type"@,
        }
    }

    /// The sentence that describes the fault.
    pub fn message(self) -> (r: &'static str)
        ensures
            r@ == self.text(),
    {
        match self {
            NumberFault::Empty => "cannot parse integer from empty string",
            NumberFault::InvalidDigit => "invalid digit found in string",
            NumberFault::TooLarge => "number too large to fit in target type",
        }
    }
}

// ---------------------------------------------------------------------------
// Reading

/// The value of a digit, where it is one in the given radix.
pub open spec fn digit_of(c: char, radix: nat) -> Option<nat> {
    let value: int = if '0' <= c <= '9' {
        c as int - '0' as int
    } else if 'a' <= c <= 'z' {
        c as int - 'a' as int + 10
    } else if 'A' <= c <= 'Z' {
        c as int - 'A' as int + 10
    } else {
        36
    };
    if value < radix {
        Some(value as nat)
    } else {
        None
    }
}

/// The number that the digits of `s` continue from `acc`, read from the left. The first digit
/// that is none, or that takes the number past `max`, ends the reading.
pub open spec fn read_digits(s: Seq<char>, radix: nat, max: nat, acc: nat) -> Result<
    nat,
    NumberFault,
>
    decreases s.len(),
{
    if s.len() == 0 {
        Ok(acc)
    } else {
        match digit_of(s[0], radix) {
            None => Err(NumberFault::InvalidDigit),
            Some(d) => if acc * radix + d > max {
                Err(NumberFault::TooLarge)
            } else {
                read_digits(s.drop_first(), radix, max, acc * radix + d)
            },
        }
    }
}

/// The number that `s` stands for: digits, after an optional plus sign.
pub open spec fn read_number(s: Seq<char>, radix: nat, max: nat) -> Result<nat, NumberFault> {
    if s.len() == 0 {
        Err(NumberFault::Empty)
    } else {
        let digits = if s[0] == '+' {
            s.drop_first()
        } else {
            s
        };
        if digits.len() == 0 {
            Err(NumberFault::InvalidDigit)
        } else {
            read_digits(digits, radix, max, 0)
        }
    }
}

/// A parsed number as a mathematical one.
pub open spec fn number_result(r: Result<u64, NumberFault>) -> Result<nat, NumberFault> {
    match r {
        Ok(n) => Ok(n as nat),
        Err(e) => Err(e),
    }
}

/// The value of a digit, where it is one in the given radix.
pub fn digit_value(c: char, radix: u64) -> (r: Option<u64>)
    requires
        2 <= radix <= 36,
    ensures
        match r {
            Some(d) => digit_of(c, radix as nat) == Some(d as nat),
            None => digit_of(c, radix as nat) is None,
        },
{
    let value: u64 = if '0' <= c && c <= '9' {
        (c as u64) - ('0' as u64)
    } else if 'a' <= c && c <= 'z' {
        (c as u64) - ('a' as u64) + 10
    } else if 'A' <= c && c <= 'Z' {
        (c as u64) - ('A' as u64) + 10
    } else {
        36
    };
    if value < radix {
        Some(value)
    } else {
        None
    }
}

fn parse_digits(s: &[char], from: usize, radix: u64, max: u64) -> (r: Result<u64, NumberFault>)
    requires
        from <= s@.len(),
        2 <= radix <= 36,
    ensures
        number_result(r) == read_digits(s@.skip(from as int), radix as nat, max as nat, 0),
{
    let mut acc: u64 = 0;
    let mut i: usize = from;
    while i < s.len()
        invariant
            from <= i <= s@.len(),
            2 <= radix <= 36,
            read_digits(s@.skip(from as int), radix as nat, max as nat, 0) == read_digits(
                s@.skip(i as int),
                radix as nat,
                max as nat,
                acc as nat,
            ),
        decreases s@.len() - i,
    {
        let ghost rest = s@.skip(i as int);
        assert(rest[0] == s@[i as int]);
        assert(rest.drop_first() =~= s@.skip(i + 1));
        match digit_value(s[i], radix) {
            None => {
                return Err(NumberFault::InvalidDigit);
            },
            Some(d) => {
                assert(acc * radix <= 0xffff_ffff_ffff_ffff * 36) by (nonlinear_arith)
                    requires
                        acc <= 0xffff_ffff_ffff_ffff,
                        radix <= 36,
                ;
                let next: u128 = (acc as u128) * (radix as u128) + (d as u128);
                assert(next == acc as nat * radix as nat + d as nat);
                if next > max as u128 {
                    return Err(NumberFault::TooLarge);
                }
                acc = next as u64;
            },
        }
        i = i + 1;
    }
    Ok(acc)
}

/// The number that a text stands for in the given radix, where it is at most `max`.
pub fn parse_number(s: &str, radix: u64, max: u64) -> (r: Result<u64, NumberFault>)
    requires
        2 <= radix <= 36,
    ensures
        number_result(r) == read_number(s@, radix as nat, max as nat),
{
    let a = chars_of(s);
    if a.len() == 0 {
        return Err(NumberFault::Empty);
    }
    let from: usize = if a[0] == '+' {
        1
    } else {
        0
    };
    if from == a.len() {
        return Err(NumberFault::InvalidDigit);
    }
    assert(a@.skip(0) =~= a@);
    assert(a@.skip(1) =~= a@.drop_first());
    parse_digits(a.as_slice(), from, radix, max)
}

/// The hexadecimal number of 64 bits that a text stands for.
pub fn parse_hex(s: &str) -> (r: Result<u64, NumberFault>)
    ensures
        number_result(r) == read_number(s@, 16, u64::MAX as nat),
{
    parse_number(s, 16, u64::MAX)
}

/// The decimal number of 64 bits that a text stands for.
pub fn parse_dec(s: &str) -> (r: Result<u64, NumberFault>)
    ensures
        number_result(r) == read_number(s@, 10, u64::MAX as nat),
{
    parse_number(s, 10, u64::MAX)
}

/// The signed hexadecimal number of 64 bits that `s` stands for: digits after an optional sign.
pub open spec fn read_signed_hex(s: Seq<char>) -> Option<int> {
    if s.len() > 0 && s[0] == '-' {
        if s.len() == 1 {
            None
        } else {
            match read_digits(s.drop_first(), 16, 0x8000_0000_0000_0000, 0) {
                Ok(n) => Some(-(n as int)),
                Err(_) => None,
            }
        }
    } else {
        match read_number(s, 16, 0x7fff_ffff_ffff_ffff) {
            Ok(n) => Some(n as int),
            Err(_) => None,
        }
    }
}

/// The digits read are never past the limit.
pub proof fn lemma_read_digits_bound(s: Seq<char>, radix: nat, max: nat, acc: nat)
    requires
        acc <= max,
    ensures
        match read_digits(s, radix, max, acc) {
            Ok(n) => n <= max,
            Err(_) => true,
        },
    decreases s.len(),
{
    if s.len() > 0 {
        if let Some(d) = digit_of(s[0], radix) {
            if acc * radix + d <= max {
                lemma_read_digits_bound(s.drop_first(), radix, max, acc * radix + d);
            }
        }
    }
}

/// A number that was read is within its limit.
pub proof fn lemma_read_number_bound(s: Seq<char>, radix: nat, max: nat)
    ensures
        match read_number(s, radix, max) {
            Ok(n) => n <= max,
            Err(_) => true,
        },
{
    if s.len() > 0 {
        lemma_read_digits_bound(s, radix, max, 0);
        lemma_read_digits_bound(s.drop_first(), radix, max, 0);
    }
}

/// The signed hexadecimal number of 64 bits that a text stands for.
pub fn parse_signed_hex(s: &str) -> (r: Option<i64>)
    ensures
        match r {
            Some(n) => read_signed_hex(s@) == Some(n as int),
            None => read_signed_hex(s@) is None,
        },
{
    let a = chars_of(s);
    if a.len() > 0 && a[0] == '-' {
        if a.len() == 1 {
            return None;
        }
        assert(a@.skip(1) =~= a@.drop_first());
        proof {
            lemma_read_digits_bound(a@.drop_first(), 16, 0x8000_0000_0000_0000, 0);
        }
        match parse_digits(a.as_slice(), 1, 16, 0x8000_0000_0000_0000) {
            Ok(n) => if n == 0x8000_0000_0000_0000 {
                Some(i64::MIN)
            } else {
                Some(-(n as i64))
            },
            Err(_) => None,
        }
    } else {
        proof {
            if a@.len() > 0 {
                lemma_read_digits_bound(a@, 16, 0x7fff_ffff_ffff_ffff, 0);
                lemma_read_digits_bound(a@.drop_first(), 16, 0x7fff_ffff_ffff_ffff, 0);
            }
        }
        match parse_number(s, 16, 0x7fff_ffff_ffff_ffff) {
            Ok(n) => Some(n as i64),
            Err(_) => None,
        }
    }
}

// ---------------------------------------------------------------------------
// Writing

/// The character of a digit below 36, with small letters.
pub open spec fn digit_char_of(d: int) -> char {
    if d < 10 {
        (('0' as u8) + d) as u8 as char
    } else {
        (('a' as u8) + (d - 10)) as u8 as char
    }
}

/// The digits of a number in a radix, without leading zeros.
pub open spec fn digits_of(n: nat, radix: nat) -> Seq<char>
    decreases n,
{
    if n < radix || radix < 2 {
        seq![digit_char_of(n as int)]
    } else {
        proof {
            assert(n / radix < n) by (nonlinear_arith)
                requires
                    n >= radix,
                    radix >= 2,
            ;
        }
        digits_of(n / radix, radix).push(digit_char_of((n % radix) as int))
    }
}

/// The small hexadecimal digits of a number.
pub open spec fn hex_of(n: nat) -> Seq<char> {
    digits_of(n, 16)
}

/// The decimal digits of a number.
pub open spec fn dec_of(n: nat) -> Seq<char> {
    digits_of(n, 10)
}

/// The decimal form of a number with a sign.
pub open spec fn signed_dec_of(n: int) -> Seq<char> {
    if n < 0 {
        seq!['-'] + dec_of((-n) as nat)
    } else {
        dec_of(n as nat)
    }
}

/// `n` times the character `c`.
pub open spec fn fill_of(c: char, n: int) -> Seq<char> {
    Seq::new(
        if n < 0 {
            0
        } else {
            n as nat
        },
        |i: int| c,
    )
}

/// A text with fill characters put before it up to a width.
pub open spec fn pad_start_of(s: Seq<char>, width: int, c: char) -> Seq<char> {
    fill_of(c, width - s.len()) + s
}

/// A text with fill characters put after it up to a width.
pub open spec fn pad_end_of(s: Seq<char>, width: int, c: char) -> Seq<char> {
    s + fill_of(c, width - s.len())
}

/// The hexadecimal digits of a number, with zeros put before them up to a width.
pub open spec fn hex_padded_of(n: nat, width: int) -> Seq<char> {
    pad_start_of(hex_of(n), width, '0')
}

fn push_digits(out: &mut String, n: u64, radix: u64)
    requires
        2 <= radix <= 36,
    ensures
        final(out)@ == old(out)@ + digits_of(n as nat, radix as nat),
    decreases n,
{
    let ghost before = out@;
    if n >= radix {
        assert(n / radix < n) by (nonlinear_arith)
            requires
                n >= radix,
                radix >= 2,
        ;
        push_digits(out, n / radix, radix);
    }
    let d: u64 = n % radix;
    assert(d < radix) by (nonlinear_arith)
        requires
            d == n % radix,
            radix >= 2,
    ;
    let c: char = if d < 10 {
        (48u8 + d as u8) as char
    } else {
        (97u8 + (d - 10) as u8) as char
    };
    assert(n < radix ==> d == n) by (nonlinear_arith)
        requires
            d == n % radix,
            radix >= 2,
    ;
    assert(c == digit_char_of(d as int));
    out.push(c);
    assert(out@ =~= before + digits_of(n as nat, radix as nat));
}

/// Appends the hexadecimal digits of a number.
pub fn push_hex(out: &mut String, n: u64)
    ensures
        final(out)@ == old(out)@ + hex_of(n as nat),
{
    push_digits(out, n, 16);
}

/// Appends the decimal digits of a number.
pub fn push_dec(out: &mut String, n: u64)
    ensures
        final(out)@ == old(out)@ + dec_of(n as nat),
{
    push_digits(out, n, 10);
}

/// Appends the decimal form of a number with a sign.
pub fn push_signed_dec(out: &mut String, n: i64)
    ensures
        final(out)@ == old(out)@ + signed_dec_of(n as int),
{
    let ghost before = out@;
    if n < 0 {
        out.push('-');
        let magnitude: u64 = if n == i64::MIN {
            0x8000_0000_0000_0000
        } else {
            (-n) as u64
        };
        push_dec(out, magnitude);
        assert(out@ =~= before + signed_dec_of(n as int));
    } else {
        push_dec(out, n as u64);
    }
}

/// Appends `n` times the character `c`.
pub fn push_fill(out: &mut String, c: char, n: usize)
    ensures
        final(out)@ == old(out)@ + fill_of(c, n as int),
{
    let ghost before = out@;
    assert(out@ =~= before + fill_of(c, 0));
    for i in 0..n
        invariant
            out@ == before + fill_of(c, i as int),
    {
        out.push(c);
        assert(out@ =~= before + fill_of(c, i + 1));
    }
}

/// Appends a text with fill characters put before it up to a width.
pub fn push_padded_start(out: &mut String, s: &str, width: usize, c: char)
    ensures
        final(out)@ == old(out)@ + pad_start_of(s@, width as int, c),
{
    let ghost before = out@;
    let len: usize = s.unicode_len();
    if len < width {
        push_fill(out, c, width - len);
    }
    push_text(out, s);
    assert(out@ =~= before + pad_start_of(s@, width as int, c));
}

/// Appends a text with fill characters put after it up to a width.
pub fn push_padded_end(out: &mut String, s: &str, width: usize, c: char)
    ensures
        final(out)@ == old(out)@ + pad_end_of(s@, width as int, c),
{
    let ghost before = out@;
    let len: usize = s.unicode_len();
    push_text(out, s);
    if len < width {
        push_fill(out, c, width - len);
    }
    assert(out@ =~= before + pad_end_of(s@, width as int, c));
}

/// The hexadecimal digits of a number.
pub fn hex(n: u64) -> (r: String)
    ensures
        r@ == hex_of(n as nat),
{
    let mut out = String::new();
    push_hex(&mut out, n);
    assert(out@ =~= hex_of(n as nat));
    out
}

/// The decimal digits of a number.
pub fn dec(n: u64) -> (r: String)
    ensures
        r@ == dec_of(n as nat),
{
    let mut out = String::new();
    push_dec(&mut out, n);
    assert(out@ =~= dec_of(n as nat));
    out
}

/// Appends the hexadecimal digits of a number, with zeros before them up to a width.
pub fn push_hex_padded(out: &mut String, n: u64, width: usize)
    ensures
        final(out)@ == old(out)@ + hex_padded_of(n as nat, width as int),
{
    let digits = hex(n);
    push_padded_start(out, digits.as_str(), width, '0');
}

// ---------------------------------------------------------------------------
// What is written can be read

proof fn lemma_digit_char(d: nat, radix: nat)
    requires
        d < radix <= 36,
    ensures
        digit_of(digit_char_of(d as int), radix) == Some(d),
        digit_char_of(d as int) != '+',
        digit_char_of(d as int) != '-',
        digit_char_of(d as int) != '#',
{
}

proof fn lemma_read_append(s: Seq<char>, c: char, radix: nat, max: nat, acc: nat)
    ensures
        read_digits(s.push(c), radix, max, acc) == match read_digits(s, radix, max, acc) {
            Ok(n) => read_digits(seq![c], radix, max, n),
            Err(e) => Err(e),
        },
    decreases s.len(),
{
    if s.len() == 0 {
        assert(s.push(c) =~= seq![c]);
    } else {
        assert(s.push(c).drop_first() =~= s.drop_first().push(c));
        if let Some(d) = digit_of(s[0], radix) {
            if acc * radix + d <= max {
                lemma_read_append(s.drop_first(), c, radix, max, acc * radix + d);
            }
        }
    }
}

proof fn lemma_read_written_digits(n: nat, radix: nat, max: nat)
    requires
        2 <= radix <= 36,
        n <= max,
    ensures
        digits_of(n, radix).len() > 0,
        digits_of(n, radix)[0] != '+',
        digits_of(n, radix)[0] != '-',
        read_digits(digits_of(n, radix), radix, max, 0) == Ok::<nat, NumberFault>(n),
    decreases n,
{
    reveal_with_fuel(read_digits, 2);
    if n < radix {
        lemma_digit_char(n, radix);
        assert(digits_of(n, radix).drop_first() =~= Seq::<char>::empty());
        assert(0 * radix + n == n) by (nonlinear_arith);
    } else {
        let high = n / radix;
        let low = n % radix;
        assert(high < n && low < radix && high * radix + low == n) by (nonlinear_arith)
            requires
                n >= radix,
                radix >= 2,
                high == n / radix,
                low == n % radix,
        ;
        lemma_read_written_digits(high, radix, max);
        lemma_digit_char(low, radix);
        let c = digit_char_of(low as int);
        lemma_read_append(digits_of(high, radix), c, radix, max, 0);
        assert(seq![c].drop_first() =~= Seq::<char>::empty());
    }
}

/// A number written in hexadecimal reads back as itself.
pub proof fn lemma_hex_reads_back(n: u64)
    ensures
        read_number(hex_of(n as nat), 16, u64::MAX as nat) == Ok::<nat, NumberFault>(n as nat),
{
    lemma_read_written_digits(n as nat, 16, u64::MAX as nat);
}

/// A number written in decimal reads back as itself.
pub proof fn lemma_dec_reads_back(n: u64)
    ensures
        read_number(dec_of(n as nat), 10, u64::MAX as nat) == Ok::<nat, NumberFault>(n as nat),
{
    lemma_read_written_digits(n as nat, 10, u64::MAX as nat);
}

/// A number written in decimal reads back as itself under any limit that it keeps.
pub proof fn lemma_dec_reads_back_within(n: nat, max: nat)
    requires
        n <= max,
    ensures
        read_number(dec_of(n), 10, max) == Ok::<nat, NumberFault>(n),
{
    lemma_read_written_digits(n, 10, max);
}

/// A number written in hexadecimal reads back as itself under any limit that it keeps.
pub proof fn lemma_hex_reads_back_within(n: nat, max: nat)
    requires
        n <= max,
    ensures
        read_number(hex_of(n), 16, max) == Ok::<nat, NumberFault>(n),
{
    lemma_read_written_digits(n, 16, max);
}

/// Digits that a number is written with are digits.
proof fn lemma_written_with_digits(n: nat, radix: nat)
    requires
        2 <= radix <= 16,
    ensures
        digits_of(n, radix).len() > 0,
        forall|i: int|
            0 <= i < digits_of(n, radix).len() ==> digit_of(#[trigger] digits_of(n, radix)[i], 16)
                is Some,
    decreases n,
{
    if n >= radix {
        assert(n / radix < n) by (nonlinear_arith)
            requires
                n >= radix,
                radix >= 2,
        ;
        lemma_written_with_digits(n / radix, radix);
    }
    assert(0 <= n % radix < radix) by (nonlinear_arith)
        requires
            radix >= 2,
    ;
}

/// A number in hexadecimal starts with a digit.
pub proof fn lemma_hex_starts(n: nat)
    ensures
        hex_of(n).len() > 0,
        hex_of(n)[0] != '-',
{
    lemma_written_with_digits(n, 16);
    assert(digit_of(hex_of(n)[0], 16) is Some);
}

/// A number in decimal holds no colon.
pub proof fn lemma_dec_has_no_colon(n: nat)
    ensures
        !dec_of(n).contains(':'),
{
    lemma_written_with_digits(n, 10);
    assert forall|i: int| 0 <= i < dec_of(n).len() implies dec_of(n)[i] != ':' by {
        assert(digit_of(dec_of(n)[i], 16) is Some);
    }
}

/// A number in hexadecimal holds no hyphen.
pub proof fn lemma_hex_has_no_hyphen(n: nat)
    ensures
        !hex_of(n).contains('-'),
{
    lemma_written_with_digits(n, 16);
    assert forall|i: int| 0 <= i < hex_of(n).len() implies hex_of(n)[i] != '-' by {
        assert(digit_of(hex_of(n)[i], 16) is Some);
    }
}

} // verus!
