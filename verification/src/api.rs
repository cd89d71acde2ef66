//! The calls at the boundary: loosely typed values in, hexadecimal text out,
//! and back.
use crate::coder::{
    decoded_input, decoded_output, described, encoded_call, framed, lookup, same_coder,
    same_text, same_values, Coder,
};
use crate::codec::selector;
use crate::detokenizer::{detokenize_all, detokenized_all};
use crate::tokenizer::{tokenize_arguments, tokenized_arguments};
use crate::types::{value_views, CoderError, TokenView, Value, ValueView};
use vstd::prelude::*;

verus! {

/// The values that a sequence of tokens, or an error, is shown as.
pub open spec fn shown(tokens: Result<Seq<TokenView>, CoderError>) -> Result<
    Seq<ValueView>,
    CoderError,
> {
    match tokens {
        Ok(tokens) => Ok(detokenized_all(tokens)),
        Err(e) => Err(e),
    }
}

/// Makes a coder from an interface description.
pub fn coder_new(abi_json: &str) -> (r: Result<Coder, CoderError>)
    ensures
        same_coder(r, described(abi_json@)),
{
    Coder::new(abi_json)
}

/// Encodes a call of a function with the given values: tokenizes them
/// against the declared input types and lays the tokens out behind the
/// selector, as lower-case hexadecimal text without `0x`.
pub fn encode_input(coder: &Coder, function: &str, arguments: &Vec<Value>) -> (r: Result<
    String,
    CoderError,
>)
    ensures
        match lookup(coder@, function@) {
            None => r == Err::<String, CoderError>(CoderError::FunctionNotFound),
            Some(signature) => match tokenized_arguments(
                signature.inputs,
                value_views(arguments@),
            ) {
                Err(e) => r == Err::<String, CoderError>(e),
                Ok(tokens) => same_text(r, encoded_call(signature, tokens)) && (r matches Ok(
                    text,
                ) ==> framed(text@, selector(signature.name, signature.inputs))),
            },
        },
{
    let kinds = match coder.argument_types(function) {
        Ok(kinds) => kinds,
        Err(e) => { return Err(e); },
    };
    let tokens = match tokenize_arguments(&kinds, arguments) {
        Ok(tokens) => tokens,
        Err(e) => { return Err(e); },
    };
    coder.encode_input(function, tokens.as_slice())
}

/// Decodes the data of a call of a function into the values of its inputs.
pub fn decode_input(coder: &Coder, function: &str, data: &str) -> (r: Result<
    Vec<Value>,
    CoderError,
>)
    ensures
        match lookup(coder@, function@) {
            None => r == Err::<Vec<Value>, CoderError>(CoderError::FunctionNotFound),
            Some(signature) => same_values(r, shown(decoded_input(signature.inputs, data@))),
        },
{
    match coder.decode_input(function, data) {
        Ok(tokens) => Ok(detokenize_all(&tokens)),
        Err(e) => Err(e),
    }
}

/// Decodes the data that a function returned into the values of its
/// outputs.
pub fn decode_output(coder: &Coder, function: &str, data: &str) -> (r: Result<
    Vec<Value>,
    CoderError,
>)
    ensures
        match lookup(coder@, function@) {
            None => r == Err::<Vec<Value>, CoderError>(CoderError::FunctionNotFound),
            Some(signature) => same_values(r, shown(decoded_output(signature.outputs, data@))),
        },
{
    match coder.decode_output(function, data) {
        Ok(tokens) => Ok(detokenize_all(&tokens)),
        Err(e) => Err(e),
    }
}

} // verus!
