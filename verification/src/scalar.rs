//! Scalar coercion: one loosely typed value to the payload of one primitive
//! parameter type.
use crate::framing::{hex_bytes, is_hex, remove_hex_prefix, without_prefix};
use crate::types::{CoderError, Value, ValueView};
use crate::words::{
    all_digits, be_value, decimal_value, fits_signed, fits_unsigned, is_digit, lemma_limits,
    lemma_pow256_monotone, parse_decimal, signed_limit, signed_value, signed_word,
    unsigned_limit, valid_bits, word_from_magnitude,
};
use ethabi::token::{LenientTokenizer, Tokenizer};
use vstd::prelude::*;
use vstd::string::*;

verus! {

/// The greatest whole number that a host number holds exactly: two to the
/// power 53, less one.
pub const MAX_SAFE_INTEGER: i64 = 9_007_199_254_740_991;

/// Why `ethabi`'s tokenizer turned a text down.
enum Rejection {
    /// The text is not an even number of hexadecimal digits.
    NotHex,
    /// The text denotes a byte string of another length than asked for.
    WrongLength,
}

/// Whether `text` is at least one decimal digit and nothing else.
pub open spec fn is_decimal(text: Seq<char>) -> bool {
    text.len() > 0 && all_digits(text)
}

/// Whether `text` begins with a minus sign.
pub open spec fn has_minus(text: Seq<char>) -> bool {
    text.len() > 0 && text[0] == '-'
}

/// The address that a value is coerced to: the twenty bytes that its forty
/// hexadecimal digits denote.
pub open spec fn coerce_address(value: ValueView) -> Result<Seq<u8>, CoderError> {
    match value {
        ValueView::Text(text) => {
            if text.len() < 2 || !is_hex(without_prefix(text)) {
                Err(CoderError::MalformedInput)
            } else if without_prefix(text).len() != 40 {
                Err(CoderError::Range)
            } else {
                Ok(hex_bytes(without_prefix(text)))
            }
        },
        _ => Err(CoderError::TypeMismatch),
    }
}

/// The byte string that a value is coerced to: the bytes that its
/// hexadecimal digits denote.
pub open spec fn coerce_bytes(value: ValueView) -> Result<Seq<u8>, CoderError> {
    match value {
        ValueView::Text(text) => {
            if text.len() < 2 || !is_hex(without_prefix(text)) {
                Err(CoderError::MalformedInput)
            } else {
                Ok(hex_bytes(without_prefix(text)))
            }
        },
        _ => Err(CoderError::TypeMismatch),
    }
}

/// The byte string of a fixed width that a value is coerced to.
pub open spec fn coerce_fixed_bytes(value: ValueView, width: nat) -> Result<Seq<u8>, CoderError> {
    match value {
        ValueView::Text(text) => {
            if text.len() < 2 || !is_hex(without_prefix(text)) {
                Err(CoderError::MalformedInput)
            } else if without_prefix(text).len() != 2 * width {
                Err(CoderError::Range)
            } else {
                Ok(hex_bytes(without_prefix(text)))
            }
        },
        _ => Err(CoderError::TypeMismatch),
    }
}

/// The text that a value is coerced to: itself.
pub open spec fn coerce_string(value: ValueView) -> Result<Seq<char>, CoderError> {
    match value {
        ValueView::Text(text) => Ok(text),
        _ => Err(CoderError::TypeMismatch),
    }
}

/// The truth value that a value is coerced to: itself.
pub open spec fn coerce_bool(value: ValueView) -> Result<bool, CoderError> {
    match value {
        ValueView::Bool(b) => Ok(b),
        _ => Err(CoderError::TypeMismatch),
    }
}

/// The number that a value is coerced to for an unsigned integer of `bits`
/// bits: a whole number that the host holds exactly, or the number that
/// decimal text denotes, if it is within the range of the type.
pub open spec fn coerce_uint(value: ValueView, bits: nat) -> Result<nat, CoderError> {
    match value {
        ValueView::Number(n) => {
            if 0 <= n <= MAX_SAFE_INTEGER && n < unsigned_limit(bits) {
                Ok(n as nat)
            } else {
                Err(CoderError::Range)
            }
        },
        ValueView::Inexact => Err(CoderError::Range),
        ValueView::Text(text) => {
            if !is_decimal(text) {
                Err(CoderError::MalformedInput)
            } else if decimal_value(text) < unsigned_limit(bits) {
                Ok(decimal_value(text))
            } else {
                Err(CoderError::Range)
            }
        },
        _ => Err(CoderError::TypeMismatch),
    }
}

/// The integer that signed decimal text denotes: its digits, negated after a
/// minus sign.
pub open spec fn signed_decimal_value(text: Seq<char>) -> int {
    if has_minus(text) {
        -(decimal_value(text.skip(1)) as int)
    } else {
        decimal_value(text) as int
    }
}

/// Whether `text` is decimal text with at most one minus sign in front.
pub open spec fn is_signed_decimal(text: Seq<char>) -> bool {
    if has_minus(text) {
        is_decimal(text.skip(1))
    } else {
        is_decimal(text)
    }
}

/// The number that a value is coerced to for a signed integer of `bits`
/// bits.
pub open spec fn coerce_int(value: ValueView, bits: nat) -> Result<int, CoderError> {
    match value {
        ValueView::Number(n) => {
            if -MAX_SAFE_INTEGER <= n <= MAX_SAFE_INTEGER && -signed_limit(bits) <= n
                < signed_limit(bits) {
                Ok(n)
            } else {
                Err(CoderError::Range)
            }
        },
        ValueView::Inexact => Err(CoderError::Range),
        ValueView::Text(text) => {
            if !is_signed_decimal(text) {
                Err(CoderError::MalformedInput)
            } else if -signed_limit(bits) <= signed_decimal_value(text) < signed_limit(bits) {
                Ok(signed_decimal_value(text))
            } else {
                Err(CoderError::Range)
            }
        },
        _ => Err(CoderError::TypeMismatch),
    }
}

/// `LenientTokenizer::tokenize_address` of `ethabi`: decodes hexadecimal
/// text and accepts exactly twenty bytes.
#[verifier::external_body]
fn lenient_address(text: &str) -> (r: Result<[u8; 20], Rejection>)
    ensures
        match r {
            Ok(address) => is_hex(text@) && text@.len() == 40 && address@ == hex_bytes(text@),
            Err(Rejection::NotHex) => !is_hex(text@),
            Err(Rejection::WrongLength) => is_hex(text@) && text@.len() != 40,
        },
{
    match LenientTokenizer::tokenize_address(text) {
        Ok(address) => Ok(address),
        Err(ethabi::Error::Hex(_)) => Err(Rejection::NotHex),
        Err(_) => Err(Rejection::WrongLength),
    }
}

/// `LenientTokenizer::tokenize_bytes` of `ethabi`: decodes hexadecimal text
/// of any even length.
#[verifier::external_body]
fn lenient_bytes(text: &str) -> (r: Option<Vec<u8>>)
    ensures
        match r {
            Some(bytes) => is_hex(text@) && bytes@ == hex_bytes(text@),
            None => !is_hex(text@),
        },
{
    LenientTokenizer::tokenize_bytes(text).ok()
}

/// `LenientTokenizer::tokenize_fixed_bytes` of `ethabi`: decodes hexadecimal
/// text and accepts exactly `width` bytes.
#[verifier::external_body]
fn lenient_fixed_bytes(text: &str, width: usize) -> (r: Result<Vec<u8>, Rejection>)
    ensures
        match r {
            Ok(bytes) => is_hex(text@) && text@.len() == 2 * width && bytes@ == hex_bytes(text@),
            Err(Rejection::NotHex) => !is_hex(text@),
            Err(Rejection::WrongLength) => is_hex(text@) && text@.len() != 2 * width,
        },
{
    match LenientTokenizer::tokenize_fixed_bytes(text, width) {
        Ok(bytes) => Ok(bytes),
        Err(ethabi::Error::Hex(_)) => Err(Rejection::NotHex),
        Err(_) => Err(Rejection::WrongLength),
    }
}

/// Whether `text` is at least one decimal digit and nothing else.
pub fn is_decimal_text(text: &str) -> (r: bool)
    ensures
        r == is_decimal(text@),
{
    if !text.is_ascii() {
        return false;
    }
    let bytes = text.as_bytes();
    proof {
        is_ascii_spec_bytes(text);
    }
    let len: usize = bytes.len();
    if len == 0 {
        return false;
    }
    let mut i: usize = 0;
    while i < len
        invariant
            i <= len == text@.len(),
            len == bytes@.len(),
            is_ascii(text),
            forall|j: int| 0 <= j < len ==> #[trigger] bytes@[j] == text@[j] as u8,
            forall|j: int| 0 <= j < i ==> is_digit(#[trigger] text@[j]),
        decreases len - i,
    {
        let b: u8 = bytes[i];
        if b < 48 || b > 57 {
            assert(!is_digit(text@[i as int]));
            return false;
        }
        i += 1;
    }
    true
}

/// Coerces a value to the word of an unsigned integer of `bits` bits.
pub fn tokenize_uint(value: &Value, bits: usize) -> (r: Result<[u8; 32], CoderError>)
    requires
        valid_bits(bits as nat),
    ensures
        match r {
            Ok(word) => coerce_uint(value@, bits as nat) == Ok::<nat, CoderError>(
                be_value(word@),
            ),
            Err(e) => coerce_uint(value@, bits as nat) == Err::<nat, CoderError>(e),
        },
{
    proof {
        lemma_limits(bits as nat);
        lemma_pow256_monotone(bits as nat / 8, 32);
    }
    let word = match value {
        Value::Number(n) => {
            if *n < 0 || *n > MAX_SAFE_INTEGER {
                return Err(CoderError::Range);
            }
            word_from_magnitude(*n as u64)
        },
        Value::Inexact => { return Err(CoderError::Range); },
        Value::Text(text) => {
            if !is_decimal_text(text.as_str()) {
                return Err(CoderError::MalformedInput);
            }
            match parse_decimal(text.as_str()) {
                Some(word) => word,
                None => { return Err(CoderError::Range); },
            }
        },
        _ => { return Err(CoderError::TypeMismatch); },
    };
    if fits_unsigned(&word, bits) {
        Ok(word)
    } else {
        Err(CoderError::Range)
    }
}

/// Coerces a value to the twos-complement word of a signed integer of `bits`
/// bits.
pub fn tokenize_int(value: &Value, bits: usize) -> (r: Result<[u8; 32], CoderError>)
    requires
        valid_bits(bits as nat),
    ensures
        match r {
            Ok(word) => coerce_int(value@, bits as nat) == Ok::<int, CoderError>(
                signed_value(word@),
            ),
            Err(e) => coerce_int(value@, bits as nat) == Err::<int, CoderError>(e),
        },
{
    proof {
        lemma_limits(bits as nat);
        lemma_limits(256);
        lemma_pow256_monotone((bits as nat / 8 - 1) as nat, 31);
    }
    let word = match value {
        Value::Number(n) => {
            if *n < -MAX_SAFE_INTEGER || *n > MAX_SAFE_INTEGER {
                return Err(CoderError::Range);
            }
            let negative = *n < 0;
            let magnitude = if negative {
                word_from_magnitude((-*n) as u64)
            } else {
                word_from_magnitude(*n as u64)
            };
            signed_word(&magnitude, negative)
        },
        Value::Inexact => { return Err(CoderError::Range); },
        Value::Text(text) => {
            let len: usize = text.as_str().unicode_len();
            let negative = len > 0 && text.as_str().get_char(0) == '-';
            let digits = if negative {
                text.as_str().substring_char(1, len)
            } else {
                text.as_str()
            };
            assert(negative ==> digits@ =~= text@.skip(1));
            if !is_decimal_text(digits) {
                return Err(CoderError::MalformedInput);
            }
            match parse_decimal(digits) {
                Some(magnitude) => signed_word(&magnitude, negative),
                None => { return Err(CoderError::Range); },
            }
        },
        _ => { return Err(CoderError::TypeMismatch); },
    };
    match word {
        Some(word) => {
            if fits_signed(&word, bits) {
                Ok(word)
            } else {
                Err(CoderError::Range)
            }
        },
        None => Err(CoderError::Range),
    }
}

/// Coerces a value to an address: hexadecimal text of forty digits, with or
/// without `0x` in front.
pub fn tokenize_address(value: &Value) -> (r: Result<[u8; 20], CoderError>)
    ensures
        match r {
            Ok(address) => coerce_address(value@) == Ok::<Seq<u8>, CoderError>(address@),
            Err(e) => coerce_address(value@) == Err::<Seq<u8>, CoderError>(e),
        },
{
    match value {
        Value::Text(text) => {
            let stripped = match remove_hex_prefix(text.as_str()) {
                Ok(stripped) => stripped,
                Err(e) => { return Err(e); },
            };
            match lenient_address(stripped) {
                Ok(address) => Ok(address),
                Err(Rejection::NotHex) => Err(CoderError::MalformedInput),
                Err(Rejection::WrongLength) => Err(CoderError::Range),
            }
        },
        _ => Err(CoderError::TypeMismatch),
    }
}

/// Coerces a value to text: a text value as it is.
pub fn tokenize_string(value: &Value) -> (r: Result<String, CoderError>)
    ensures
        match r {
            Ok(text) => coerce_string(value@) == Ok::<Seq<char>, CoderError>(text@),
            Err(e) => coerce_string(value@) == Err::<Seq<char>, CoderError>(e),
        },
{
    match value {
        Value::Text(text) => Ok(text.clone()),
        _ => Err(CoderError::TypeMismatch),
    }
}

/// Coerces a value to a truth value: a boolean as it is.
pub fn tokenize_bool(value: &Value) -> (r: Result<bool, CoderError>)
    ensures
        r == coerce_bool(value@),
{
    match value {
        Value::Bool(b) => Ok(*b),
        _ => Err(CoderError::TypeMismatch),
    }
}

/// Coerces a value to a byte string: hexadecimal text of any even length,
/// with or without `0x` in front.
pub fn tokenize_bytes(value: &Value) -> (r: Result<Vec<u8>, CoderError>)
    ensures
        match r {
            Ok(bytes) => coerce_bytes(value@) == Ok::<Seq<u8>, CoderError>(bytes@),
            Err(e) => coerce_bytes(value@) == Err::<Seq<u8>, CoderError>(e),
        },
{
    match value {
        Value::Text(text) => {
            let stripped = match remove_hex_prefix(text.as_str()) {
                Ok(stripped) => stripped,
                Err(e) => { return Err(e); },
            };
            match lenient_bytes(stripped) {
                Some(bytes) => Ok(bytes),
                None => Err(CoderError::MalformedInput),
            }
        },
        _ => Err(CoderError::TypeMismatch),
    }
}

/// Coerces a value to a byte string of `width` bytes.
pub fn tokenize_fixed_bytes(value: &Value, width: usize) -> (r: Result<Vec<u8>, CoderError>)
    ensures
        match r {
            Ok(bytes) => coerce_fixed_bytes(value@, width as nat) == Ok::<Seq<u8>, CoderError>(
                bytes@,
            ),
            Err(e) => coerce_fixed_bytes(value@, width as nat) == Err::<Seq<u8>, CoderError>(e),
        },
{
    match value {
        Value::Text(text) => {
            let stripped = match remove_hex_prefix(text.as_str()) {
                Ok(stripped) => stripped,
                Err(e) => { return Err(e); },
            };
            match lenient_fixed_bytes(stripped, width) {
                Ok(bytes) => Ok(bytes),
                Err(Rejection::NotHex) => Err(CoderError::MalformedInput),
                Err(Rejection::WrongLength) => Err(CoderError::Range),
            }
        },
        _ => Err(CoderError::TypeMismatch),
    }
}

} // verus!
