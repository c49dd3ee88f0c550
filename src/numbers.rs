//! Parsing of hexadecimal and decimal numeric fields.

use vstd::prelude::*;
use vstd::slice::slice_subrange;
use vstd::string::StringSliceAdditionalSpecFns;

verus! {

/// Why a numeric field could not be parsed.
#[derive(Debug, Clone, Copy, PartialEq, Eq, Structural)]
pub enum NumberError {
    /// No digits where a number was expected.
    Empty,
    /// A character that is not a digit of the radix.
    InvalidDigit,
    /// The value does not fit the result type.
    Overflow,
}

/// The value of an ASCII digit or letter digit (`0`-`9`, `a`-`f`, `A`-`F`).
pub open spec fn digit_value(b: u8) -> Option<nat> {
    if 48 <= b <= 57 {
        Some((b - 48) as nat)
    } else if 97 <= b <= 102 {
        Some((b - 87) as nat)
    } else if 65 <= b <= 70 {
        Some((b - 55) as nat)
    } else {
        None
    }
}

/// `b` is a digit of `radix`.
pub open spec fn is_digit(b: u8, radix: nat) -> bool {
    digit_value(b) matches Some(d) && d < radix
}

/// Every byte of `s` is a digit of `radix`.
pub open spec fn all_digits(s: Seq<u8>, radix: nat) -> bool {
    forall|i: int| 0 <= i < s.len() ==> is_digit(#[trigger] s[i], radix)
}

/// The value of the digit string `s` in `radix`, most significant digit first.
pub open spec fn digits_value(s: Seq<u8>, radix: nat) -> nat
    decreases s.len(),
{
    if s.len() == 0 {
        0
    } else {
        digits_value(s.drop_last(), radix) * radix + digit_value(s.last()).unwrap_or(0)
    }
}

fn digit_of(b: u8) -> (r: Option<u64>)
    ensures
        r matches Some(d) ==> digit_value(b) == Some(d as nat),
        r is None ==> digit_value(b) is None,
{
    if 48 <= b && b <= 57 {
        Some((b - 48) as u64)
    } else if 97 <= b && b <= 102 {
        Some((b - 87) as u64)
    } else if 65 <= b && b <= 70 {
        Some((b - 55) as u64)
    } else {
        None
    }
}

proof fn lemma_value_grows(s: Seq<u8>, radix: nat, k: int)
    requires
        radix >= 1,
        0 <= k <= s.len(),
    ensures
        digits_value(s.subrange(0, k), radix) <= digits_value(s, radix),
    decreases s.len() - k,
{
    if k < s.len() {
        lemma_value_grows(s.drop_last(), radix, k);
        assert(s.drop_last().subrange(0, k) =~= s.subrange(0, k));
        let v = digits_value(s.drop_last(), radix);
        assert(v * radix >= v) by (nonlinear_arith)
            requires
                radix >= 1,
        ;
    } else {
        assert(s.subrange(0, k) =~= s);
    }
}

/// Reads `digits` in `radix`: `Err(InvalidDigit)` if a byte is not a digit of
/// the radix, else `Err(Overflow)` if the value exceeds `u64::MAX`.
fn read_digits(digits: &[u8], radix: u64) -> (r: Result<u64, NumberError>)
    requires
        2 <= radix <= 16,
    ensures
        r is Ok <==> all_digits(digits@, radix as nat) && digits_value(digits@, radix as nat)
            <= u64::MAX,
        r matches Ok(v) ==> v == digits_value(digits@, radix as nat),
        r == Err::<u64, NumberError>(NumberError::InvalidDigit) <==> !all_digits(
            digits@,
            radix as nat,
        ),
        r == Err::<u64, NumberError>(NumberError::Overflow) <==> all_digits(digits@, radix as nat)
            && digits_value(digits@, radix as nat) > u64::MAX,
{
    let mut k: usize = 0;
    while k < digits.len()
        invariant
            k <= digits@.len(),
            forall|i: int| 0 <= i < k ==> is_digit(#[trigger] digits@[i], radix as nat),
        decreases digits@.len() - k,
    {
        match digit_of(digits[k]) {
            Some(d) => {
                if d >= radix {
                    return Err(NumberError::InvalidDigit);
                }
            },
            None => {
                return Err(NumberError::InvalidDigit);
            },
        }
        k = k + 1;
    }
    let mut value: u64 = 0;
    let mut k: usize = 0;
    while k < digits.len()
        invariant
            2 <= radix <= 16,
            k <= digits@.len(),
            all_digits(digits@, radix as nat),
            value == digits_value(digits@.subrange(0, k as int), radix as nat),
        decreases digits@.len() - k,
    {
        let ghost pre = digits@.subrange(0, k as int);
        assert(digits@.subrange(0, k + 1).drop_last() =~= pre);
        let d = match digit_of(digits[k]) {
            Some(d) => d,
            None => 0,
        };
        assert(is_digit(digits@[k as int], radix as nat));
        let ghost next_value = digits_value(digits@.subrange(0, k + 1), radix as nat);
        assert(next_value == value * radix + d);
        let limit: u64 = (u64::MAX - d) / radix;
        let ghost room: int = u64::MAX - d;
        if value > limit {
            assert(value * radix + d > u64::MAX) by (nonlinear_arith)
                requires
                    value > limit,
                    limit == room / (radix as int),
                    room == u64::MAX - d,
                    radix >= 2,
            ;
            proof {
                lemma_value_grows(digits@, radix as nat, k + 1);
            }
            return Err(NumberError::Overflow);
        }
        assert(value * radix + d <= u64::MAX) by (nonlinear_arith)
            requires
                value <= limit,
                limit == room / (radix as int),
                room == u64::MAX - d,
                radix >= 2,
        ;
        value = value * radix + d;
        k = k + 1;
    }
    assert(digits@.subrange(0, digits@.len() as int) =~= digits@);
    Ok(value)
}

/// The digits of a hexadecimal field: the bytes after an optional `0x` or
/// `0X` prefix.
pub open spec fn hex_digits(b: Seq<u8>) -> Seq<u8> {
    if b.len() >= 2 && b[0] == 48 && (b[1] == 120 || b[1] == 88) {
        b.subrange(2, b.len() as int)
    } else {
        b
    }
}

/// The result of parsing the hexadecimal field `b`; a field without digits
/// reads as 0.
pub open spec fn hex_parse(b: Seq<u8>) -> Result<u64, NumberError> {
    let d = hex_digits(b);
    if !all_digits(d, 16) {
        Err(NumberError::InvalidDigit)
    } else if digits_value(d, 16) > u64::MAX {
        Err(NumberError::Overflow)
    } else {
        Ok(digits_value(d, 16) as u64)
    }
}

/// Parses a hexadecimal field with an optional `0x` prefix; letter digits may
/// be of either case, and an empty field is 0.
pub fn hex_str_to_uint(pstr: &str) -> (r: Result<u64, NumberError>)
    ensures
        r == hex_parse(pstr.spec_bytes()),
{
    let b = pstr.as_bytes();
    let digits = if b.len() >= 2 && b[0] == 48u8 && (b[1] == 120u8 || b[1] == 88u8) {
        slice_subrange(b, 2, b.len())
    } else {
        b
    };
    assert(digits@ == hex_digits(b@));
    read_digits(digits, 16)
}

/// Whether a decimal field starts with a minus sign.
pub open spec fn dec_negative(b: Seq<u8>) -> bool {
    b.len() > 0 && b[0] == 45
}

/// The digits of a decimal field: the bytes after an optional minus sign.
pub open spec fn dec_digits(b: Seq<u8>) -> Seq<u8> {
    if dec_negative(b) {
        b.subrange(1, b.len() as int)
    } else {
        b
    }
}

/// The largest magnitude a decimal field of this sign may have.
pub open spec fn dec_limit(negative: bool) -> nat {
    if negative {
        0x8000_0000_0000_0000
    } else {
        0x7fff_ffff_ffff_ffff
    }
}

/// The result of parsing the decimal field `b`.
pub open spec fn dec_parse(b: Seq<u8>) -> Result<i64, NumberError> {
    let d = dec_digits(b);
    if d.len() == 0 {
        Err(NumberError::Empty)
    } else if !all_digits(d, 10) {
        Err(NumberError::InvalidDigit)
    } else if digits_value(d, 10) > dec_limit(dec_negative(b)) {
        Err(NumberError::Overflow)
    } else if dec_negative(b) {
        Ok((-digits_value(d, 10)) as i64)
    } else {
        Ok(digits_value(d, 10) as i64)
    }
}

/// Parses a decimal field with an optional leading minus sign.
pub fn dec_str_to_uint(pstr: &str) -> (r: Result<i64, NumberError>)
    ensures
        r == dec_parse(pstr.spec_bytes()),
{
    let b = pstr.as_bytes();
    let negative = b.len() > 0 && b[0] == 45u8;
    let digits = if negative {
        slice_subrange(b, 1, b.len())
    } else {
        b
    };
    assert(digits@ == dec_digits(b@));
    if digits.len() == 0 {
        return Err(NumberError::Empty);
    }
    let magnitude = read_digits(digits, 10)?;
    if negative {
        if magnitude > 0x8000_0000_0000_0000u64 {
            Err(NumberError::Overflow)
        } else if magnitude == 0x8000_0000_0000_0000u64 {
            Ok(i64::MIN)
        } else {
            Ok(-(magnitude as i64))
        }
    } else if magnitude > 0x7fff_ffff_ffff_ffffu64 {
        Err(NumberError::Overflow)
    } else {
        Ok(magnitude as i64)
    }
}

} // verus!
