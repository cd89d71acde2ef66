//! The structural tokenizer: walks a parameter type and a loosely typed
//! value in step and builds the typed token.
use crate::scalar::{
    coerce_address, coerce_bool, coerce_bytes, coerce_fixed_bytes, coerce_int, coerce_string,
    coerce_uint, tokenize_address, tokenize_bool, tokenize_bytes, tokenize_fixed_bytes,
    tokenize_int, tokenize_string, tokenize_uint,
};
use crate::types::{
    all_well_formed, token_views, type_views, value_views, CoderError, ParameterType,
    ParameterTypeView, TokenView, TypedToken, Value, ValueView,
};
use vstd::prelude::*;

verus! {

/// The token that a value makes for a parameter type, or the error of the
/// first part of the value, in order, that does not fit.
pub open spec fn tokenized(ty: ParameterTypeView, value: ValueView) -> Result<
    TokenView,
    CoderError,
>
    decreases ty, 0nat,
{
    match ty {
        ParameterTypeView::Address => match coerce_address(value) {
            Ok(bytes) => Ok(TokenView::Address(bytes)),
            Err(e) => Err(e),
        },
        ParameterTypeView::Bool => match coerce_bool(value) {
            Ok(b) => Ok(TokenView::Bool(b)),
            Err(e) => Err(e),
        },
        ParameterTypeView::String => match coerce_string(value) {
            Ok(text) => Ok(TokenView::String(text)),
            Err(e) => Err(e),
        },
        ParameterTypeView::Bytes => match coerce_bytes(value) {
            Ok(bytes) => Ok(TokenView::Bytes(bytes)),
            Err(e) => Err(e),
        },
        ParameterTypeView::FixedBytes(width) => match coerce_fixed_bytes(value, width) {
            Ok(bytes) => Ok(TokenView::FixedBytes(bytes)),
            Err(e) => Err(e),
        },
        ParameterTypeView::Uint(bits) => match coerce_uint(value, bits) {
            Ok(number) => Ok(TokenView::Uint(number)),
            Err(e) => Err(e),
        },
        ParameterTypeView::Int(bits) => match coerce_int(value, bits) {
            Ok(number) => Ok(TokenView::Int(number)),
            Err(e) => Err(e),
        },
        ParameterTypeView::Array(elem) => match value {
            ValueView::List(items) => match tokenized_each(*elem, items, items.len()) {
                Ok(tokens) => Ok(TokenView::Array(tokens)),
                Err(e) => Err(e),
            },
            _ => Err(CoderError::TypeMismatch),
        },
        ParameterTypeView::FixedArray(elem, len) => match value {
            ValueView::List(items) => if items.len() != len {
                Err(CoderError::TypeMismatch)
            } else {
                match tokenized_each(*elem, items, items.len()) {
                    Ok(tokens) => Ok(TokenView::FixedArray(tokens)),
                    Err(e) => Err(e),
                }
            },
            _ => Err(CoderError::TypeMismatch),
        },
        ParameterTypeView::Tuple(members) => match value {
            ValueView::List(items) => if items.len() != members.len() {
                Err(CoderError::TypeMismatch)
            } else {
                match tokenized_pairs(members, items, members.len()) {
                    Ok(tokens) => Ok(TokenView::Tuple(tokens)),
                    Err(e) => Err(e),
                }
            },
            _ => Err(CoderError::Structure),
        },
    }
}

/// The tokens that the first `n` of `items` make for the element type
/// `elem`, or the error of the first of them that does not fit.
pub open spec fn tokenized_each(elem: ParameterTypeView, items: Seq<ValueView>, n: nat) -> Result<
    Seq<TokenView>,
    CoderError,
>
    decreases elem, n,
{
    if n == 0 || n > items.len() {
        Ok(Seq::empty())
    } else {
        match tokenized_each(elem, items, (n - 1) as nat) {
            Err(e) => Err(e),
            Ok(tokens) => match tokenized(elem, items[n - 1]) {
                Err(e) => Err(e),
                Ok(token) => Ok(tokens.push(token)),
            },
        }
    }
}

/// The tokens that the first `n` of `items` make, each for the type at its
/// position, or the error of the first of them that does not fit.
pub open spec fn tokenized_pairs(types: Seq<ParameterTypeView>, items: Seq<ValueView>, n: nat)
    -> Result<Seq<TokenView>, CoderError>
    decreases types, n,
{
    if n == 0 || n > items.len() || n > types.len() {
        Ok(Seq::empty())
    } else {
        match tokenized_pairs(types, items, (n - 1) as nat) {
            Err(e) => Err(e),
            Ok(tokens) => match tokenized(types[n - 1], items[n - 1]) {
                Err(e) => Err(e),
                Ok(token) => Ok(tokens.push(token)),
            },
        }
    }
}

/// The tokens that the values of a call make for the declared input types:
/// as many values as types, each fitting the type at its position.
pub open spec fn tokenized_arguments(types: Seq<ParameterTypeView>, values: Seq<ValueView>)
    -> Result<Seq<TokenView>, CoderError> {
    if types.len() != values.len() {
        Err(CoderError::ArityMismatch)
    } else {
        tokenized_pairs(types, values, types.len())
    }
}

/// Tokenizes each element of a sequence against one element type.
#[verifier::loop_isolation(false)]
pub fn tokenize_array(value: &Value, param: &ParameterType) -> (r: Result<
    Vec<TypedToken>,
    CoderError,
>)
    requires
        param@.well_formed(),
    ensures
        match value@ {
            ValueView::List(items) => match r {
                Ok(tokens) => tokenized_each(param@, items, items.len()) == Ok::<
                    Seq<TokenView>,
                    CoderError,
                >(token_views(tokens@)),
                Err(e) => tokenized_each(param@, items, items.len()) == Err::<
                    Seq<TokenView>,
                    CoderError,
                >(e),
            },
            _ => r == Err::<Vec<TypedToken>, CoderError>(CoderError::TypeMismatch),
        },
    decreases param, 1nat,
{
    match value {
        Value::List(items) => {
            let ghost views = value_views(items@);
            let mut tokens: Vec<TypedToken> = Vec::new();
            let mut i: usize = 0;
            assert(token_views(tokens@) =~= Seq::empty());
            while i < items.len()
                invariant
                    i <= items@.len(),
                    tokenized_each(param@, views, i as nat) == Ok::<Seq<TokenView>, CoderError>(
                        token_views(tokens@),
                    ),
                decreases items@.len() - i,
            {
                let ghost before = token_views(tokens@);
                match tokenize(param, &items[i]) {
                    Ok(token) => {
                        tokens.push(token);
                        assert(token_views(tokens@) =~= before.push(token@));
                    },
                    Err(e) => {
                        proof {
                            lemma_each_error(param@, views, (i + 1) as nat, views.len());
                        }
                        return Err(e);
                    },
                }
                i += 1;
            }
            Ok(tokens)
        },
        _ => Err(CoderError::TypeMismatch),
    }
}

/// Tokenizes the members of a tuple, each against the type at its position.
/// The value must be an ordered sequence with one item for each member.
pub fn tokenize_struct(value: &Value, param: &Vec<ParameterType>) -> (r: Result<
    Vec<TypedToken>,
    CoderError,
>)
    requires
        all_well_formed(type_views(param@)),
    ensures
        match value@ {
            ValueView::List(items) => if items.len() != param@.len() {
                r == Err::<Vec<TypedToken>, CoderError>(CoderError::TypeMismatch)
            } else {
                match r {
                    Ok(tokens) => tokenized_pairs(type_views(param@), items, items.len()) == Ok::<
                        Seq<TokenView>,
                        CoderError,
                    >(token_views(tokens@)),
                    Err(e) => tokenized_pairs(type_views(param@), items, items.len()) == Err::<
                        Seq<TokenView>,
                        CoderError,
                    >(e),
                }
            },
            _ => r == Err::<Vec<TypedToken>, CoderError>(CoderError::Structure),
        },
    decreases param, 2nat,
{
    match value {
        Value::List(items) => {
            if items.len() != param.len() {
                return Err(CoderError::TypeMismatch);
            }
            tokenize_pairs(param, items)
        },
        _ => Err(CoderError::Structure),
    }
}

/// Tokenizes items, each against the type at its position.
#[verifier::loop_isolation(false)]
fn tokenize_pairs(types: &Vec<ParameterType>, items: &Vec<Value>) -> (r: Result<
    Vec<TypedToken>,
    CoderError,
>)
    requires
        all_well_formed(type_views(types@)),
        types@.len() == items@.len(),
    ensures
        match r {
            Ok(tokens) => tokenized_pairs(type_views(types@), value_views(items@), items@.len())
                == Ok::<Seq<TokenView>, CoderError>(token_views(tokens@)),
            Err(e) => tokenized_pairs(type_views(types@), value_views(items@), items@.len())
                == Err::<Seq<TokenView>, CoderError>(e),
        },
    decreases types, 1nat,
{
    let ghost views = value_views(items@);
    let ghost shapes = type_views(types@);
    let mut tokens: Vec<TypedToken> = Vec::new();
    let mut i: usize = 0;
    assert(token_views(tokens@) =~= Seq::empty());
    while i < items.len()
        invariant
            i <= items@.len(),
            tokenized_pairs(shapes, views, i as nat) == Ok::<Seq<TokenView>, CoderError>(
                token_views(tokens@),
            ),
        decreases items@.len() - i,
    {
        let ghost before = token_views(tokens@);
        assert(shapes[i as int].well_formed());
        match tokenize(&types[i], &items[i]) {
            Ok(token) => {
                tokens.push(token);
                assert(token_views(tokens@) =~= before.push(token@));
            },
            Err(e) => {
                proof {
                    lemma_pairs_error(shapes, views, (i + 1) as nat, views.len());
                }
                return Err(e);
            },
        }
        i += 1;
    }
    Ok(tokens)
}

/// Tokenizes a value against a parameter type.
pub fn tokenize(param: &ParameterType, value: &Value) -> (r: Result<TypedToken, CoderError>)
    requires
        param@.well_formed(),
    ensures
        match r {
            Ok(token) => tokenized(param@, value@) == Ok::<TokenView, CoderError>(token@),
            Err(e) => tokenized(param@, value@) == Err::<TokenView, CoderError>(e),
        },
    decreases param, 0nat,
{
    match param {
        ParameterType::Address => match tokenize_address(value) {
            Ok(address) => Ok(TypedToken::Address(address)),
            Err(e) => Err(e),
        },
        ParameterType::String => match tokenize_string(value) {
            Ok(text) => Ok(TypedToken::String(text)),
            Err(e) => Err(e),
        },
        ParameterType::Bool => match tokenize_bool(value) {
            Ok(b) => Ok(TypedToken::Bool(b)),
            Err(e) => Err(e),
        },
        ParameterType::Bytes => match tokenize_bytes(value) {
            Ok(bytes) => Ok(TypedToken::Bytes(bytes)),
            Err(e) => Err(e),
        },
        ParameterType::FixedBytes(width) => match tokenize_fixed_bytes(value, *width) {
            Ok(bytes) => Ok(TypedToken::FixedBytes(bytes)),
            Err(e) => Err(e),
        },
        ParameterType::Uint(bits) => match tokenize_uint(value, *bits) {
            Ok(word) => Ok(TypedToken::Uint(word)),
            Err(e) => Err(e),
        },
        ParameterType::Int(bits) => match tokenize_int(value, *bits) {
            Ok(word) => Ok(TypedToken::Int(word)),
            Err(e) => Err(e),
        },
        ParameterType::Array(elem) => match tokenize_array(value, elem) {
            Ok(tokens) => Ok(TypedToken::Array(tokens)),
            Err(e) => Err(e),
        },
        ParameterType::FixedArray(elem, len) => {
            if let Value::List(items) = value {
                if items.len() != *len {
                    return Err(CoderError::TypeMismatch);
                }
            }
            match tokenize_array(value, elem) {
                Ok(tokens) => Ok(TypedToken::FixedArray(tokens)),
                Err(e) => Err(e),
            }
        },
        ParameterType::Tuple(members) => match tokenize_struct(value, members) {
            Ok(tokens) => Ok(TypedToken::Tuple(tokens)),
            Err(e) => Err(e),
        },
    }
}

/// An error among the first `n` items is the error of every longer prefix.
pub proof fn lemma_each_error(elem: ParameterTypeView, items: Seq<ValueView>, n: nat, m: nat)
    requires
        n <= m <= items.len(),
        tokenized_each(elem, items, n) is Err,
    ensures
        tokenized_each(elem, items, m) == tokenized_each(elem, items, n),
    decreases m,
{
    if n < m {
        lemma_each_error(elem, items, n, (m - 1) as nat);
    }
}

/// An error among the first `n` pairs is the error of every longer prefix.
pub proof fn lemma_pairs_error(
    types: Seq<ParameterTypeView>,
    items: Seq<ValueView>,
    n: nat,
    m: nat,
)
    requires
        n <= m <= items.len(),
        m <= types.len(),
        tokenized_pairs(types, items, n) is Err,
    ensures
        tokenized_pairs(types, items, m) == tokenized_pairs(types, items, n),
    decreases m,
{
    if n < m {
        lemma_pairs_error(types, items, n, (m - 1) as nat);
    }
}

/// Tokenizes the values of a call against the declared input types. The
/// number of values must be the number of types.
pub fn tokenize_arguments(types: &Vec<ParameterType>, values: &Vec<Value>) -> (r: Result<
    Vec<TypedToken>,
    CoderError,
>)
    requires
        all_well_formed(type_views(types@)),
    ensures
        match r {
            Ok(tokens) => tokenized_arguments(type_views(types@), value_views(values@)) == Ok::<
                Seq<TokenView>,
                CoderError,
            >(token_views(tokens@)),
            Err(e) => tokenized_arguments(type_views(types@), value_views(values@)) == Err::<
                Seq<TokenView>,
                CoderError,
            >(e),
        },
{
    if types.len() != values.len() {
        return Err(CoderError::ArityMismatch);
    }
    tokenize_pairs(types, values)
}

} // verus!
