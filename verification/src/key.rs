//! The key that names a shared region: `0x` followed by hexadecimal digits.

use vstd::prelude::*;
use vstd::slice::slice_subrange;
use crate::ipc::IpcError;

verus! {

/// Why the digits of a key could not be read as a 32-bit number.
#[derive(Debug, Clone, Copy, PartialEq, Eq)]
pub enum KeyParseError {
    /// No digit follows the prefix.
    Empty,
    /// A character after the prefix is not a hexadecimal digit.
    InvalidDigit,
    /// The digits denote a number that does not fit in 32 bits.
    Overflow,
}

impl KeyParseError {
    /// The text that `message` returns.
    pub open spec fn message_spec(self) -> Seq<char> {
        match self {
            KeyParseError::Empty => "cannot parse integer from empty string"@,
            KeyParseError::InvalidDigit => "invalid digit found in string"@,
            KeyParseError::Overflow => "number too large to fit in target type"@,
        }
    }

    /// What went wrong, in words.
    pub fn message(&self) -> (text: &'static str)
        ensures
            text@ == self.message_spec(),
    {
        match self {
            KeyParseError::Empty => "cannot parse integer from empty string",
            KeyParseError::InvalidDigit => "invalid digit found in string",
            KeyParseError::Overflow => "number too large to fit in target type",
        }
    }
}

/// `c` is one of `0`-`9`, `a`-`f`, `A`-`F`.
pub open spec fn is_hex_digit(c: char) -> bool {
    ('0' <= c <= '9') || ('a' <= c <= 'f') || ('A' <= c <= 'F')
}

/// The number that a hexadecimal digit stands for.
pub open spec fn hex_digit_value(c: char) -> nat
    recommends
        is_hex_digit(c),
{
    if '0' <= c <= '9' {
        (c as nat - '0' as nat) as nat
    } else if 'a' <= c <= 'f' {
        (c as nat - 'a' as nat + 10) as nat
    } else {
        (c as nat - 'A' as nat + 10) as nat
    }
}

/// Every character of `digits` is a hexadecimal digit.
pub open spec fn all_hex_digits(digits: Seq<char>) -> bool {
    forall|i: int| 0 <= i < digits.len() ==> is_hex_digit(#[trigger] digits[i])
}

/// The number that a sequence of hexadecimal digits denotes, most
/// significant digit first.
pub open spec fn hex_value(digits: Seq<char>) -> nat
    decreases digits.len(),
{
    if digits.len() == 0 {
        0
    } else {
        16 * hex_value(digits.drop_last()) + hex_digit_value(digits.last())
    }
}

/// What the characters after the prefix of a key are read as.
pub open spec fn parse_hex_spec(digits: Seq<char>) -> Result<u32, KeyParseError> {
    if digits.len() == 0 {
        Err(KeyParseError::Empty)
    } else if !all_hex_digits(digits) {
        Err(KeyParseError::InvalidDigit)
    } else if hex_value(digits) > u32::MAX {
        Err(KeyParseError::Overflow)
    } else {
        Ok(hex_value(digits) as u32)
    }
}

/// Appending one digit multiplies the value by sixteen and adds the digit.
pub proof fn lemma_hex_value_push(digits: Seq<char>, c: char)
    ensures
        hex_value(digits.push(c)) == 16 * hex_value(digits) + hex_digit_value(c),
{
    assert(digits.push(c).drop_last() =~= digits);
}

/// The value of one hexadecimal digit, if `c` is one.
pub fn hex_digit(c: char) -> (d: Option<u32>)
    ensures
        d == if is_hex_digit(c) {
            Some(hex_digit_value(c) as u32)
        } else {
            None
        },
{
    if '0' <= c && c <= '9' {
        Some(c as u32 - '0' as u32)
    } else if 'a' <= c && c <= 'f' {
        Some(c as u32 - 'a' as u32 + 10)
    } else if 'A' <= c && c <= 'F' {
        Some(c as u32 - 'A' as u32 + 10)
    } else {
        None
    }
}

/// Reads a sequence of hexadecimal digits as a 32-bit number.
pub fn parse_hex(digits: &[char]) -> (result: Result<u32, KeyParseError>)
    ensures
        result == parse_hex_spec(digits@),
{
    if digits.len() == 0 {
        return Err(KeyParseError::Empty);
    }
    let mut value: u32 = 0;
    let mut overflowed = false;
    let mut i: usize = 0;
    while i < digits.len()
        invariant
            i <= digits.len(),
            all_hex_digits(digits@.take(i as int)),
            overflowed ==> hex_value(digits@.take(i as int)) > u32::MAX,
            !overflowed ==> value == hex_value(digits@.take(i as int)),
        decreases digits.len() - i,
    {
        proof {
            assert(digits@.take(i + 1) =~= digits@.take(i as int).push(digits@[i as int]));
            lemma_hex_value_push(digits@.take(i as int), digits@[i as int]);
        }
        match hex_digit(digits[i]) {
            None => {
                return Err(KeyParseError::InvalidDigit);
            },
            Some(d) => {
                if !overflowed {
                    let next: u64 = value as u64 * 16 + d as u64;
                    if next > u32::MAX as u64 {
                        overflowed = true;
                    } else {
                        value = next as u32;
                    }
                }
            },
        }
        i += 1;
    }
    assert(digits@.take(i as int) =~= digits@);
    if overflowed {
        Err(KeyParseError::Overflow)
    } else {
        Ok(value)
    }
}

/// The key starts with the two characters `0x`.
pub open spec fn has_key_prefix(key: Seq<char>) -> bool {
    key.len() >= 2 && key[0] == '0' && key[1] == 'x'
}

/// What a key is read as: the number that the digits after the prefix
/// denote, or the reason why there is none.
pub open spec fn parse_key_spec(key: Seq<char>) -> Result<u32, IpcError> {
    if !has_key_prefix(key) {
        Err(IpcError::InvalidKeyFormat)
    } else {
        match parse_hex_spec(key.skip(2)) {
            Ok(number) => Ok(number),
            Err(e) => Err(IpcError::ParseError(e)),
        }
    }
}

/// Reads a key.
pub fn parse_key(key: &str) -> (result: Result<u32, IpcError>)
    ensures
        result == parse_key_spec(key@),
{
    let chars = chars_of(key);
    if chars.len() < 2 || chars[0] != '0' || chars[1] != 'x' {
        return Err(IpcError::InvalidKeyFormat);
    }
    let digits = slice_subrange(chars.as_slice(), 2, chars.len());
    assert(digits@ =~= key@.skip(2));
    match parse_hex(digits) {
        Ok(number) => Ok(number),
        Err(e) => Err(IpcError::ParseError(e)),
    }
}

/// The characters of `text`, in order.
pub fn chars_of(text: &str) -> (chars: Vec<char>)
    ensures
        chars@ == text@,
{
    let mut chars: Vec<char> = Vec::new();
    for c in it: text.chars()
        invariant
            it.seq() == text@,
            chars@ == it.seq().take(it.index()),
    {
        chars.push(c);
    }
    chars
}

} // verus!
