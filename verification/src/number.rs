//! Numbers as keys. A number is held as the 64-bit pattern of its IEEE 754
//! double-precision form: one sign bit, then eleven exponent bits, then fifty-two
//! fraction bits. Reading decimal text into such a pattern and multiplying two numbers is
//! the caller's work; which text is read, by what the result is multiplied, what stands in
//! for text that is no number, and how two patterns are ordered is decided here.
use vstd::prelude::*;
use crate::text::chars_of;

verus! {

/// The pattern that holds the sign bit alone.
pub const SIGN_BIT: u64 = 0x8000_0000_0000_0000;

/// The pattern of positive infinity. A pattern whose magnitude lies above it is not a
/// number.
pub const INFINITY: u64 = 0x7ff0_0000_0000_0000;

/// The pattern of the least finite number: negative, with the greatest finite magnitude.
/// It stands in for a key that does not read as a number.
pub const LEAST_FINITE: u64 = 0xffef_ffff_ffff_ffff;

/// The pattern of positive zero.
pub const ZERO: u64 = 0;

/// The pattern without its sign bit.
pub open spec fn magnitude(bits: u64) -> int {
    if bits >= SIGN_BIT {
        bits - SIGN_BIT
    } else {
        bits as int
    }
}

/// Whether the pattern is one of those that stand for no number.
pub open spec fn is_nan(bits: u64) -> bool {
    magnitude(bits) > INFINITY
}

/// Where the pattern's number stands on the number line, as an integer that grows with
/// the number: the magnitude, negated under the sign bit. Both zeros stand at 0.
pub open spec fn position(bits: u64) -> int {
    if bits >= SIGN_BIT {
        -magnitude(bits)
    } else {
        magnitude(bits)
    }
}

/// Whether the number of `a` is less than the number of `b`. Nothing is less than, and
/// nothing is greater than, a pattern that is not a number.
pub open spec fn number_lt(a: u64, b: u64) -> bool {
    !is_nan(a) && !is_nan(b) && position(a) < position(b)
}

/// Tests a pattern for standing for no number.
pub fn is_not_a_number(bits: u64) -> (r: bool)
    ensures
        r == is_nan(bits),
{
    let m: u64 = if bits >= SIGN_BIT {
        bits - SIGN_BIT
    } else {
        bits
    };
    m > INFINITY
}

/// Decides `number_lt`.
pub fn number_less(a: u64, b: u64) -> (r: bool)
    ensures
        r == number_lt(a, b),
{
    if is_not_a_number(a) || is_not_a_number(b) {
        return false;
    }
    let pa: i64 = if a >= SIGN_BIT {
        -((a - SIGN_BIT) as i64)
    } else {
        a as i64
    };
    let pb: i64 = if b >= SIGN_BIT {
        -((b - SIGN_BIT) as i64)
    } else {
        b as i64
    };
    pa < pb
}

/// The value of a key under plain numeric order, given what the key read as: the pattern
/// read, or `LEAST_FINITE` where the key is no number.
pub open spec fn numeric_value_of(reading: Option<u64>) -> u64 {
    match reading {
        Some(bits) => bits,
        None => LEAST_FINITE,
    }
}

/// The value of a key under plain numeric order. `reading` is the pattern that the whole
/// key read as, or `None` where the key does not read as a number.
pub fn numeric_value(reading: Option<u64>) -> (value: u64)
    ensures
        value == numeric_value_of(reading),
{
    match reading {
        Some(bits) => bits,
        None => LEAST_FINITE,
    }
}

/// The factor that a trailing character stands for: a thousand for `K`, a million for
/// `M`, a thousand millions for `G`, in either case of the letter; 1 for any other
/// character.
pub open spec fn suffix_factor(last: char) -> u32 {
    if last == 'K' || last == 'k' {
        1_000
    } else if last == 'M' || last == 'm' {
        1_000_000
    } else if last == 'G' || last == 'g' {
        1_000_000_000
    } else {
        1
    }
}

/// The part of a key that is read as a number under suffix order: a key of at most one
/// character whole, a longer key without its last character.
pub open spec fn suffix_text(key: Seq<char>) -> Seq<char> {
    if key.len() <= 1 {
        key
    } else {
        key.drop_last()
    }
}

/// The factor by which the number read from `suffix_text(key)` is multiplied: 1 for a key
/// of at most one character, else the factor of the key's last character.
pub open spec fn suffix_scale(key: Seq<char>) -> u32 {
    if key.len() <= 1 {
        1
    } else {
        suffix_factor(key.last())
    }
}

/// The value of a key under suffix order, given the scaled reading of its numeric part.
/// Where that part read as a number, the scaled number. Where it did not: a key of at
/// most one character has the value `LEAST_FINITE`, a longer key the value `ZERO`, since
/// its numeric part then counts as zero and zero times any factor is zero.
pub open spec fn suffix_value_of(key: Seq<char>, reading: Option<u64>) -> u64 {
    match reading {
        Some(bits) => bits,
        None => if key.len() <= 1 {
            LEAST_FINITE
        } else {
            ZERO
        },
    }
}

/// What is to be read and multiplied to value a key under one of the numeric orders.
/// The reading that answers a request is the pattern of the number that `text` reads as,
/// multiplied by `scale`; or `None` where `text` does not read as a number.
#[derive(Clone, Debug, PartialEq, Eq)]
pub struct ReadRequest {
    /// The text to read as a decimal number.
    pub text: String,
    /// The factor to multiply the number by: 1, a thousand, a million or a thousand
    /// millions.
    pub scale: u32,
}

/// The factor that a trailing character stands for.
pub fn factor_of(last: char) -> (factor: u32)
    ensures
        factor == suffix_factor(last),
{
    if last == 'K' || last == 'k' {
        1_000
    } else if last == 'M' || last == 'm' {
        1_000_000
    } else if last == 'G' || last == 'g' {
        1_000_000_000
    } else {
        1
    }
}

/// What to read for a key under plain numeric order: the key itself, unscaled.
pub fn numeric_request(key: &str) -> (request: ReadRequest)
    ensures
        request.text@ == key@,
        request.scale == 1,
{
    ReadRequest { text: key.to_owned(), scale: 1 }
}

/// Splits a key for suffix order into the text to read and the factor to multiply by.
pub fn suffix_request(key: &str) -> (request: ReadRequest)
    ensures
        request.text@ == suffix_text(key@),
        request.scale == suffix_scale(key@),
{
    let chars = chars_of(key);
    let n = chars.len();
    if n <= 1 {
        ReadRequest { text: key.to_owned(), scale: 1 }
    } else {
        assert(key@.subrange(0, n - 1) =~= key@.drop_last());
        ReadRequest {
            text: key.substring_char(0, n - 1).to_owned(),
            scale: factor_of(chars[n - 1]),
        }
    }
}

/// The value under suffix order of a key that is held as a vector of characters.
/// `reading` is the scaled reading of the key's numeric part.
pub fn suffix_value(key: &Vec<char>, reading: Option<u64>) -> (value: u64)
    ensures
        value == suffix_value_of(key@, reading),
{
    match reading {
        Some(bits) => bits,
        None => if key.len() <= 1 {
            LEAST_FINITE
        } else {
            ZERO
        },
    }
}

/// The value of a key under suffix order. `reading` is the pattern of the number that the
/// text of `suffix_request(key)` read as, multiplied by that request's scale, or `None`
/// where the text does not read as a number.
pub fn parse_with_suffix(key: &str, reading: Option<u64>) -> (value: u64)
    ensures
        value == suffix_value_of(key@, reading),
{
    match reading {
        Some(bits) => bits,
        None => suffix_value(&chars_of(key), None),
    }
}

} // verus!
