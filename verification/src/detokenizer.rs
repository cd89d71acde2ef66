//! The structural detokenizer: turns a typed token back into a loosely typed
//! value.
use crate::framing::{hex_encode, hex_text, with_prefix};
use crate::types::{token_views, value_views, TokenView, TypedToken, Value, ValueView};
use crate::words::{
    decimal_text, lemma_be_value_bound, lemma_pow256_positive, lemma_sign_bit, negate_word,
    print_decimal, signed_decimal_text, signed_value,
};
use vstd::prelude::*;
use vstd::string::*;

verus! {

/// The value that a token is shown as: truth values and text as they are,
/// addresses and byte strings as `0x` and lower-case hexadecimal digits,
/// numbers as decimal text, and sequences member by member.
pub open spec fn detokenized(token: TokenView) -> ValueView
    decreases token,
{
    match token {
        TokenView::Address(bytes) => ValueView::Text(with_prefix(hex_text(bytes))),
        TokenView::Bool(b) => ValueView::Bool(b),
        TokenView::String(text) => ValueView::Text(text),
        TokenView::Bytes(bytes) => ValueView::Text(with_prefix(hex_text(bytes))),
        TokenView::FixedBytes(bytes) => ValueView::Text(with_prefix(hex_text(bytes))),
        TokenView::Uint(number) => ValueView::Text(decimal_text(number)),
        TokenView::Int(number) => ValueView::Text(signed_decimal_text(number)),
        TokenView::Array(items) => ValueView::List(detokenized_all(items)),
        TokenView::FixedArray(items) => ValueView::List(detokenized_all(items)),
        TokenView::Tuple(items) => ValueView::List(detokenized_all(items)),
    }
}

/// The values that a sequence of tokens is shown as, in order.
pub open spec fn detokenized_all(tokens: Seq<TokenView>) -> Seq<ValueView>
    decreases tokens,
{
    Seq::new(
        tokens.len(),
        |i: int|
            if 0 <= i < tokens.len() {
                detokenized(tokens[i])
            } else {
                arbitrary()
            },
    )
}

/// `0x` and the lower-case hexadecimal digits of `bytes`.
fn prefixed_hex(bytes: &[u8]) -> (text: String)
    ensures
        text@ == with_prefix(hex_text(bytes@)),
{
    let digits = hex_encode(bytes);
    proof {
        reveal_strlit("0x");
    }
    let text = String::from_str("0x").concat(digits.as_str());
    assert(text@ =~= with_prefix(hex_text(bytes@)));
    text
}

/// The decimal text of the twos-complement number in `word`.
fn signed_decimal(word: &[u8; 32]) -> (text: String)
    ensures
        text@ == signed_decimal_text(signed_value(word@)),
{
    if word[0] >= 128 {
        let magnitude = negate_word(word);
        proof {
            reveal_strlit("-");
            lemma_be_value_bound(word@);
            lemma_sign_bit(word@);
            lemma_pow256_positive(31);
        }
        let digits = print_decimal(&magnitude);
        let text = String::from_str("-").concat(digits.as_str());
        assert(text@ =~= seq!['-'] + digits@);
        text
    } else {
        print_decimal(word)
    }
}

/// Turns a token into the value it is shown as.
#[verifier::loop_isolation(false)]
pub fn detokenize(token: &TypedToken) -> (value: Value)
    ensures
        value@ == detokenized(token@),
    decreases token,
{
    match token {
        TypedToken::Bool(b) => Value::Bool(*b),
        TypedToken::String(text) => Value::Text(text.clone()),
        TypedToken::Address(bytes) => Value::Text(prefixed_hex(bytes.as_slice())),
        TypedToken::Bytes(bytes) => Value::Text(prefixed_hex(bytes.as_slice())),
        TypedToken::FixedBytes(bytes) => Value::Text(prefixed_hex(bytes.as_slice())),
        TypedToken::Uint(word) => Value::Text(print_decimal(word)),
        TypedToken::Int(word) => Value::Text(signed_decimal(word)),
        TypedToken::Array(items) => Value::List(detokenize_all(items)),
        TypedToken::FixedArray(items) => Value::List(detokenize_all(items)),
        TypedToken::Tuple(items) => Value::List(detokenize_all(items)),
    }
}

/// Turns each token of a sequence into the value it is shown as.
#[verifier::loop_isolation(false)]
pub fn detokenize_all(tokens: &Vec<TypedToken>) -> (values: Vec<Value>)
    ensures
        value_views(values@) == detokenized_all(token_views(tokens@)),
    decreases tokens,
{
    let mut values: Vec<Value> = Vec::new();
    let mut i: usize = 0;
    while i < tokens.len()
        invariant
            i <= tokens@.len(),
            values@.len() == i,
            forall|j: int| 0 <= j < i ==> (#[trigger] values@[j])@ == detokenized(tokens@[j]@),
        decreases tokens@.len() - i,
    {
        let value = detokenize(&tokens[i]);
        values.push(value);
        i += 1;
    }
    assert(value_views(values@) =~= detokenized_all(token_views(tokens@)));
    values
}

} // verus!
