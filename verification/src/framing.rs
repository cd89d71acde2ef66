//! Hexadecimal text at the boundary: the digits, the optional `0x` prefix and
//! the four-byte selector in front of call data.
use crate::types::CoderError;
use vstd::prelude::*;
use vstd::string::*;

verus! {

/// Whether `c` is a hexadecimal digit of either case.
pub open spec fn is_hex_digit(c: char) -> bool {
    ('0' <= c && c <= '9') || ('a' <= c && c <= 'f') || ('A' <= c && c <= 'F')
}

/// The number that a hexadecimal digit stands for.
pub open spec fn hex_digit_value(c: char) -> nat {
    if '0' <= c && c <= '9' {
        (c as u32 - '0' as u32) as nat
    } else if 'a' <= c && c <= 'f' {
        (c as u32 - 'a' as u32 + 10) as nat
    } else {
        (c as u32 - 'A' as u32 + 10) as nat
    }
}

/// The lower-case hexadecimal digit for a number below sixteen.
pub open spec fn hex_digit(n: nat) -> char {
    if n < 10 {
        ('0' as u32 + n as u32) as char
    } else {
        ('a' as u32 + (n - 10) as u32) as char
    }
}

/// Whether `text` is an even number of hexadecimal digits.
pub open spec fn is_hex(text: Seq<char>) -> bool {
    text.len() % 2 == 0 && forall|i: int| 0 <= i < text.len() ==> is_hex_digit(#[trigger] text[i])
}

/// The bytes that hexadecimal text denotes, two digits to a byte.
pub open spec fn hex_bytes(text: Seq<char>) -> Seq<u8> {
    Seq::new(
        text.len() / 2,
        |i: int| (16 * hex_digit_value(text[2 * i]) + hex_digit_value(text[2 * i + 1])) as u8,
    )
}

/// The lower-case hexadecimal text of a byte string, two digits to a byte.
pub open spec fn hex_text(bytes: Seq<u8>) -> Seq<char> {
    Seq::new(
        2 * bytes.len(),
        |i: int|
            if i % 2 == 0 {
                hex_digit((bytes[i / 2] / 16) as nat)
            } else {
                hex_digit((bytes[i / 2] % 16) as nat)
            },
    )
}

/// Whether `text` begins with `0x`.
pub open spec fn has_prefix(text: Seq<char>) -> bool {
    text.len() >= 2 && text[0] == '0' && text[1] == 'x'
}

/// `text` without a leading `0x`, if it has one.
pub open spec fn without_prefix(text: Seq<char>) -> Seq<char> {
    if has_prefix(text) {
        text.skip(2)
    } else {
        text
    }
}

/// `0x` in front of `text`.
pub open spec fn with_prefix(text: Seq<char>) -> Seq<char> {
    seq!['0', 'x'] + text
}

/// Strips an optional `0x` from the front of `data_hex`. Text of fewer than
/// two characters is malformed.
pub fn remove_hex_prefix<'a>(data_hex: &'a str) -> (r: Result<&'a str, CoderError>)
    ensures
        match r {
            Ok(rest) => data_hex@.len() >= 2 && rest@ == without_prefix(data_hex@),
            Err(e) => e == CoderError::MalformedInput && data_hex@.len() < 2,
        },
        data_hex@.len() <= usize::MAX,
{
    let len: usize = data_hex.unicode_len();
    if len < 2 {
        return Err(CoderError::MalformedInput);
    }
    if data_hex.get_char(0) == '0' && data_hex.get_char(1) == 'x' {
        let rest = data_hex.substring_char(2, len);
        assert(rest@ =~= data_hex@.skip(2));
        Ok(rest)
    } else {
        Ok(data_hex)
    }
}

/// Strips an optional `0x` and then the eight hexadecimal characters of the
/// selector from the front of `data_hex`.
pub fn remove_bytes4<'a>(data_hex: &'a str) -> (r: Result<&'a str, CoderError>)
    ensures
        match r {
            Ok(rest) => data_hex@.len() >= 2 && without_prefix(data_hex@).len() >= 8 && rest@
                == without_prefix(data_hex@).skip(8),
            Err(e) => e == CoderError::MalformedInput && (data_hex@.len() < 2 || without_prefix(
                data_hex@,
            ).len() < 8),
        },
        data_hex@.len() <= usize::MAX,
{
    let stripped = match remove_hex_prefix(data_hex) {
        Ok(stripped) => stripped,
        Err(e) => { return Err(e); },
    };
    let len: usize = stripped.unicode_len();
    if len < 8 {
        return Err(CoderError::MalformedInput);
    }
    let rest = stripped.substring_char(8, len);
    assert(rest@ =~= stripped@.skip(8));
    Ok(rest)
}

/// `hex::encode`: the lower-case hexadecimal text of the bytes, two digits
/// for each byte, in order.
#[verifier::external_body]
pub(crate) fn hex_encode(bytes: &[u8]) -> (text: String)
    ensures
        text@ == hex_text(bytes@),
{
    hex::encode(bytes)
}

/// `hex::decode`: succeeds exactly on an even number of hexadecimal digits of
/// either case, and then gives one byte for each pair of digits, in order.
#[verifier::external_body]
pub(crate) fn hex_decode(text: &str) -> (bytes: Option<Vec<u8>>)
    ensures
        match bytes {
            Some(bytes) => is_hex(text@) && bytes@ == hex_bytes(text@),
            None => !is_hex(text@),
        },
{
    hex::decode(text).ok()
}

/// Whether `c` is a decimal digit or a lower-case letter from `a` to `f`.
pub open spec fn is_lower_hex_digit(c: char) -> bool {
    ('0' <= c && c <= '9') || ('a' <= c && c <= 'f')
}

/// Hexadecimal text made from bytes holds lower-case digits only, two for
/// each byte.
pub proof fn lemma_hex_text_is_lower_case(bytes: Seq<u8>)
    ensures
        hex_text(bytes).len() == 2 * bytes.len(),
        forall|i: int|
            0 <= i < hex_text(bytes).len() ==> is_lower_hex_digit(#[trigger] hex_text(bytes)[i]),
{
}

/// Each lower-case digit stands for the number it was made from.
pub proof fn lemma_hex_digit_value(n: nat)
    requires
        n < 16,
    ensures
        is_hex_digit(hex_digit(n)),
        hex_digit_value(hex_digit(n)) == n,
{
}

/// Hexadecimal text made from bytes is well formed and denotes those bytes.
pub proof fn lemma_hex_round_trip(bytes: Seq<u8>)
    ensures
        is_hex(hex_text(bytes)),
        hex_bytes(hex_text(bytes)) == bytes,
{
    let text = hex_text(bytes);
    assert forall|i: int| 0 <= i < text.len() implies is_hex_digit(#[trigger] text[i]) by {
        lemma_hex_digit_value((bytes[i / 2] / 16) as nat);
        lemma_hex_digit_value((bytes[i / 2] % 16) as nat);
    }
    assert forall|i: int| 0 <= i < bytes.len() implies hex_bytes(text)[i] == bytes[i] by {
        lemma_hex_digit_value((bytes[i] / 16) as nat);
        lemma_hex_digit_value((bytes[i] % 16) as nat);
        assert(text[2 * i] == hex_digit((bytes[i] / 16) as nat));
        assert(text[2 * i + 1] == hex_digit((bytes[i] % 16) as nat));
    }
    assert(hex_bytes(text) =~= bytes);
}

} // verus!
