//! The canonical head/tail byte layout, as the `ethabi` crate computes it.
use crate::layout::layout_fault;
use crate::types::{
    all_sized, token_views, type_views, ParameterType, ParameterTypeView, TokenView, TypedToken,
};
use vstd::prelude::*;
use vstd::utf8::encode_utf8;

verus! {

#[verifier::external_type_specification]
#[verifier::external_body]
pub struct ExOutsideToken(ethabi::Token);

#[verifier::external_type_specification]
#[verifier::external_body]
pub struct ExOutsideParamType(ethabi::ParamType);

/// The bytes that `ethabi::encode` lays out for a sequence of tokens.
pub uninterp spec fn abi_encoding(tokens: Seq<TokenView>) -> Seq<u8>;

/// The tokens that `ethabi::decode` reads from `data` for a sequence of
/// parameter types, if it accepts the data.
pub uninterp spec fn abi_decoding(types: Seq<ParameterTypeView>, data: Seq<u8>) -> Option<
    Seq<TokenView>,
>;

/// The four bytes that `ethabi::short_signature` derives from a function's
/// name and input types.
pub uninterp spec fn selector(name: Seq<char>, inputs: Seq<ParameterTypeView>) -> Seq<u8>;

/// Changes a parameter type into `ethabi::ParamType`, variant for variant.
#[verifier::external_body]
fn outside_type(ty: &ParameterType) -> ethabi::ParamType {
    match ty {
        ParameterType::Address => ethabi::ParamType::Address,
        ParameterType::Bool => ethabi::ParamType::Bool,
        ParameterType::String => ethabi::ParamType::String,
        ParameterType::Bytes => ethabi::ParamType::Bytes,
        ParameterType::FixedBytes(width) => ethabi::ParamType::FixedBytes(*width),
        ParameterType::Uint(bits) => ethabi::ParamType::Uint(*bits),
        ParameterType::Int(bits) => ethabi::ParamType::Int(*bits),
        ParameterType::Array(e) => ethabi::ParamType::Array(Box::new(outside_type(e))),
        ParameterType::FixedArray(e, n) => ethabi::ParamType::FixedArray(Box::new(outside_type(e)), *n),
        ParameterType::Tuple(ms) => ethabi::ParamType::Tuple(ms.iter().map(outside_type).collect()),
    }
}

/// Changes an `ethabi::ParamType` into a parameter type, variant for variant.
#[verifier::external_body]
pub(crate) fn type_from_outside(ty: &ethabi::ParamType) -> ParameterType {
    match ty {
        ethabi::ParamType::Address => ParameterType::Address,
        ethabi::ParamType::Bool => ParameterType::Bool,
        ethabi::ParamType::String => ParameterType::String,
        ethabi::ParamType::Bytes => ParameterType::Bytes,
        ethabi::ParamType::FixedBytes(width) => ParameterType::FixedBytes(*width),
        ethabi::ParamType::Uint(bits) => ParameterType::Uint(*bits),
        ethabi::ParamType::Int(bits) => ParameterType::Int(*bits),
        ethabi::ParamType::Array(e) => ParameterType::Array(Box::new(type_from_outside(e))),
        ethabi::ParamType::FixedArray(e, n) => ParameterType::FixedArray(Box::new(type_from_outside(e)), *n),
        ethabi::ParamType::Tuple(ms) => ParameterType::Tuple(ms.iter().map(type_from_outside).collect()),
    }
}

/// Changes a token that holds other tokens into `ethabi::Token`, variant
/// for variant; any other goes to [`outside_scalar`].
#[verifier::external_body]
fn outside_token(token: &TypedToken) -> ethabi::Token {
    match token {
        TypedToken::Array(items) => ethabi::Token::Array(items.iter().map(outside_token).collect()),
        TypedToken::FixedArray(items) => ethabi::Token::FixedArray(items.iter().map(outside_token).collect()),
        TypedToken::Tuple(items) => ethabi::Token::Tuple(items.iter().map(outside_token).collect()),
        scalar => outside_scalar(scalar),
    }
}

/// Changes a token that holds no other token into `ethabi::Token`, variant
/// for variant; any other goes to [`outside_token`].
#[verifier::external_body]
fn outside_scalar(token: &TypedToken) -> ethabi::Token {
    match token {
        TypedToken::Address(bytes) => ethabi::Token::Address((*bytes).into()),
        TypedToken::Bool(b) => ethabi::Token::Bool(*b),
        TypedToken::String(text) => ethabi::Token::String(text.clone()),
        TypedToken::Bytes(bytes) => ethabi::Token::Bytes(bytes.clone()),
        TypedToken::FixedBytes(bytes) => ethabi::Token::FixedBytes(bytes.clone()),
        TypedToken::Uint(word) => ethabi::Token::Uint((*word).into()),
        TypedToken::Int(word) => ethabi::Token::Int((*word).into()),
        composite => outside_token(composite),
    }
}

/// Changes an `ethabi::Token` that holds other tokens into a token, variant
/// for variant; any other goes to [`scalar_from_outside`].
#[verifier::external_body]
fn token_from_outside(token: ethabi::Token) -> TypedToken {
    match token {
        ethabi::Token::Array(items) => TypedToken::Array(items.into_iter().map(token_from_outside).collect()),
        ethabi::Token::FixedArray(items) => TypedToken::FixedArray(items.into_iter().map(token_from_outside).collect()),
        ethabi::Token::Tuple(items) => TypedToken::Tuple(items.into_iter().map(token_from_outside).collect()),
        scalar => scalar_from_outside(scalar),
    }
}

/// Changes an `ethabi::Token` that holds no other token into a token,
/// variant for variant; any other goes to [`token_from_outside`].
#[verifier::external_body]
fn scalar_from_outside(token: ethabi::Token) -> TypedToken {
    match token {
        ethabi::Token::Address(address) => TypedToken::Address(address.into()),
        ethabi::Token::Bool(b) => TypedToken::Bool(b),
        ethabi::Token::String(text) => TypedToken::String(text),
        ethabi::Token::Bytes(bytes) => TypedToken::Bytes(bytes),
        ethabi::Token::FixedBytes(bytes) => TypedToken::FixedBytes(bytes),
        ethabi::Token::Uint(number) => TypedToken::Uint(number.into()),
        ethabi::Token::Int(number) => TypedToken::Int(number.into()),
        composite => token_from_outside(composite),
    }
}

/// An upper bound on the number of bytes that a token takes in the layout,
/// its head slot included.
pub open spec fn encoded_bound(token: TokenView) -> nat
    decreases token, 0nat,
{
    match token {
        TokenView::FixedBytes(bytes) => 32 + bytes.len(),
        TokenView::Bytes(bytes) => 96 + bytes.len(),
        TokenView::String(text) => 96 + encode_utf8(text).len(),
        TokenView::Array(items) => 64 + encoded_bound_sum(items, items.len()),
        TokenView::FixedArray(items) => 32 + encoded_bound_sum(items, items.len()),
        TokenView::Tuple(items) => 32 + encoded_bound_sum(items, items.len()),
        _ => 32,
    }
}

/// The sum of the bounds of the first `n` tokens.
pub open spec fn encoded_bound_sum(tokens: Seq<TokenView>, n: nat) -> nat
    decreases tokens, n,
{
    if n == 0 || n > tokens.len() {
        0
    } else {
        encoded_bound_sum(tokens, (n - 1) as nat) + encoded_bound(tokens[n - 1])
    }
}

/// The greatest bound that the layout can address: its offsets and lengths
/// are 32-bit numbers.
pub const MAX_ENCODED: u32 = 0xffff_ffff;

/// The sum of `a` and `b`, if it is within the greatest bound.
fn add_bound(a: u32, b: usize) -> (r: Option<u32>)
    ensures
        match r {
            Some(sum) => sum == a + b,
            None => a + b > MAX_ENCODED,
        },
{
    let room: u32 = MAX_ENCODED - a;
    if b > room as usize {
        None
    } else {
        Some(a + b as u32)
    }
}

/// The sums of the bounds of the prefixes of a sequence do not decrease.
pub proof fn lemma_bound_sum_monotone(tokens: Seq<TokenView>, n: nat, m: nat)
    requires
        n <= m <= tokens.len(),
    ensures
        encoded_bound_sum(tokens, n) <= encoded_bound_sum(tokens, m),
    decreases m,
{
    if n < m {
        lemma_bound_sum_monotone(tokens, n, (m - 1) as nat);
    }
}

/// The bound of a token, if it is within the greatest bound.
pub fn token_bound(token: &TypedToken) -> (r: Option<u32>)
    ensures
        match r {
            Some(n) => n == encoded_bound(token@),
            None => encoded_bound(token@) > MAX_ENCODED,
        },
    decreases token, 0nat,
{
    let (items, own): (&Vec<TypedToken>, usize) = match token {
        TypedToken::FixedBytes(bytes) => { return add_bound(32, bytes.len()); },
        TypedToken::Bytes(bytes) => { return add_bound(96, bytes.len()); },
        TypedToken::String(text) => { return add_bound(96, text.as_str().as_bytes().len()); },
        TypedToken::Array(items) => (items, 64),
        TypedToken::FixedArray(items) => (items, 32),
        TypedToken::Tuple(items) => (items, 32),
        _ => { return Some(32); },
    };
    let slice = items.as_slice();
    assert(slice@ == items@);
    match tokens_bound(slice) {
        Some(sum) => add_bound(sum, own),
        None => None,
    }
}

/// The sum of the bounds of the tokens, if it is within the greatest bound.
#[verifier::loop_isolation(false)]
pub fn tokens_bound(tokens: &[TypedToken]) -> (r: Option<u32>)
    ensures
        match r {
            Some(n) => n == encoded_bound_sum(token_views(tokens@), tokens@.len()),
            None => encoded_bound_sum(token_views(tokens@), tokens@.len()) > MAX_ENCODED,
        },
    decreases tokens@, 1nat,
{
    let ghost views = token_views(tokens@);
    let mut sum: u32 = 0;
    let mut i: usize = 0;
    while i < tokens.len()
        invariant
            i <= tokens@.len(),
            sum == encoded_bound_sum(views, i as nat),
        decreases tokens@.len() - i,
    {
        proof {
            lemma_bound_sum_monotone(views, (i + 1) as nat, views.len());
        }
        let bound = match token_bound(&tokens[i]) {
            Some(bound) => bound,
            None => { return None; },
        };
        sum = match add_bound(sum, bound as usize) {
            Some(sum) => sum,
            None => { return None; },
        };
        i += 1;
    }
    Some(sum)
}

/// `ethabi::encode`: the head/tail layout of the tokens, which it builds
/// as a sequence of words of 32 bytes. It is called within the greatest
/// bound only: there no offset or length that it computes leaves 32 bits.
#[verifier::external_body]
pub(crate) fn abi_encode(tokens: &[TypedToken]) -> (bytes: Vec<u8>)
    requires
        encoded_bound_sum(token_views(tokens@), tokens@.len()) <= MAX_ENCODED,
    ensures
        bytes@ == abi_encoding(token_views(tokens@)),
        bytes@.len() % 32 == 0,
{
    let outside: Vec<ethabi::Token> = tokens.iter().map(outside_token).collect();
    ethabi::encode(&outside)
}

/// `ethabi::decode`: the tokens that the layout in `data` holds for the
/// parameter types, or nothing where it turns the data down. It is called
/// on sized types and checked layouts only: there every offset and length
/// that it reads lies within the buffer, and every value that it reads takes
/// room in it.
#[verifier::external_body]
pub(crate) fn abi_decode(types: &Vec<ParameterType>, data: &[u8]) -> (tokens: Option<
    Vec<TypedToken>,
>)
    requires
        all_sized(type_views(types@)),
        layout_fault(type_views(types@), data@).is_none(),
    ensures
        match tokens {
            Some(tokens) => abi_decoding(type_views(types@), data@) == Some(token_views(tokens@)),
            None => abi_decoding(type_views(types@), data@).is_none(),
        },
{
    let outside: Vec<ethabi::ParamType> = types.iter().map(outside_type).collect();
    let tokens = ethabi::decode(&outside, data).ok()?;
    Some(tokens.into_iter().map(token_from_outside).collect())
}

/// `ethabi::short_signature`: the first four bytes of the hash of the
/// function's name and input types.
#[verifier::external_body]
pub(crate) fn short_signature(name: &str, inputs: &Vec<ParameterType>) -> (bytes: [u8; 4])
    ensures
        bytes@ == selector(name@, type_views(inputs@)),
{
    let outside: Vec<ethabi::ParamType> = inputs.iter().map(outside_type).collect();
    ethabi::short_signature(name, &outside)
}

} // verus!
