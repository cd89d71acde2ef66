//! Whether a token has the shape of a parameter type.
use crate::types::{
    token_views, type_views, ParameterType, ParameterTypeView, TokenView, TypedToken,
};
use vstd::prelude::*;

verus! {

/// Whether a token has the shape of a parameter type: the same variant at
/// every node, a byte string no wider than a fixed width, and as many members
/// as a fixed array or a tuple declares.
pub open spec fn conforms(token: TokenView, ty: ParameterTypeView) -> bool
    decreases token,
{
    match token {
        TokenView::Address(_) => ty is Address,
        TokenView::Bool(_) => ty is Bool,
        TokenView::String(_) => ty is String,
        TokenView::Bytes(_) => ty is Bytes,
        TokenView::FixedBytes(bytes) => ty matches ParameterTypeView::FixedBytes(width)
            && bytes.len() <= width,
        TokenView::Uint(_) => ty is Uint,
        TokenView::Int(_) => ty is Int,
        TokenView::Array(items) => ty matches ParameterTypeView::Array(elem) && forall|i: int|
            0 <= i < items.len() ==> conforms(#[trigger] items[i], *elem),
        TokenView::FixedArray(items) => ty matches ParameterTypeView::FixedArray(elem, len)
            && items.len() == len && forall|i: int|
            0 <= i < items.len() ==> conforms(#[trigger] items[i], *elem),
        TokenView::Tuple(items) => ty matches ParameterTypeView::Tuple(members) && items.len()
            == members.len() && forall|i: int|
            0 <= i < items.len() ==> conforms(#[trigger] items[i], members[i]),
    }
}

/// Whether there are as many tokens as types and each token has the shape of
/// the type at its position.
pub open spec fn all_conform(tokens: Seq<TokenView>, types: Seq<ParameterTypeView>) -> bool {
    tokens.len() == types.len() && forall|i: int|
        0 <= i < tokens.len() ==> conforms(#[trigger] tokens[i], types[i])
}

/// Whether each of the tokens has the shape of the one type `elem`.
#[verifier::loop_isolation(false)]
fn each_conforms(tokens: &Vec<TypedToken>, elem: &ParameterType) -> (r: bool)
    ensures
        r == forall|i: int|
            0 <= i < tokens@.len() ==> conforms(#[trigger] token_views(tokens@)[i], elem@),
    decreases tokens, 1nat,
{
    let ghost views = token_views(tokens@);
    let mut i: usize = 0;
    while i < tokens.len()
        invariant
            i <= tokens@.len(),
            forall|j: int| 0 <= j < i ==> conforms(#[trigger] views[j], elem@),
        decreases tokens@.len() - i,
    {
        if !type_check(&tokens[i], elem) {
            assert(!conforms(views[i as int], elem@));
            return false;
        }
        i += 1;
    }
    true
}

/// Whether a token has the shape of a parameter type.
pub fn type_check(token: &TypedToken, ty: &ParameterType) -> (r: bool)
    ensures
        r == conforms(token@, ty@),
    decreases token, 0nat,
{
    match token {
        TypedToken::Address(_) => matches!(ty, ParameterType::Address),
        TypedToken::Bool(_) => matches!(ty, ParameterType::Bool),
        TypedToken::String(_) => matches!(ty, ParameterType::String),
        TypedToken::Bytes(_) => matches!(ty, ParameterType::Bytes),
        TypedToken::FixedBytes(bytes) => match ty {
            ParameterType::FixedBytes(width) => bytes.len() <= *width,
            _ => false,
        },
        TypedToken::Uint(_) => matches!(ty, ParameterType::Uint(_)),
        TypedToken::Int(_) => matches!(ty, ParameterType::Int(_)),
        TypedToken::Array(items) => match ty {
            ParameterType::Array(elem) => {
                let r = each_conforms(items, elem);
                proof {
                    let views = token_views(items@);
                    assert(token@->Array_0 == views);
                    assert(*ty@->Array_0 == elem@);
                }
                r
            },
            _ => false,
        },
        TypedToken::FixedArray(items) => match ty {
            ParameterType::FixedArray(elem, len) => {
                let r = items.len() == *len && each_conforms(items, elem);
                proof {
                    let views = token_views(items@);
                    assert(token@->FixedArray_0 == views);
                    assert(*ty@->FixedArray_0 == elem@);
                }
                r
            },
            _ => false,
        },
        TypedToken::Tuple(items) => match ty {
            ParameterType::Tuple(members) => {
                let slice = items.as_slice();
                assert(slice@ == items@);
                let r = types_check(slice, members);
                proof {
                    let views = token_views(items@);
                    let shapes = type_views(members@);
                    assert(token@->Tuple_0 == views);
                    assert(ty@->Tuple_0 == shapes);
                }
                r
            },
            _ => false,
        },
    }
}

/// Whether there are as many tokens as types and each token has the shape of
/// the type at its position.
#[verifier::loop_isolation(false)]
pub fn types_check(tokens: &[TypedToken], types: &Vec<ParameterType>) -> (r: bool)
    ensures
        r == all_conform(token_views(tokens@), type_views(types@)),
    decreases tokens@, 1nat,
{
    if tokens.len() != types.len() {
        return false;
    }
    let ghost views = token_views(tokens@);
    let ghost shapes = type_views(types@);
    let mut i: usize = 0;
    while i < tokens.len()
        invariant
            i <= tokens@.len(),
            forall|j: int| 0 <= j < i ==> conforms(#[trigger] views[j], shapes[j]),
        decreases tokens@.len() - i,
    {
        if !type_check(&tokens[i], &types[i]) {
            assert(!conforms(views[i as int], shapes[i as int]));
            return false;
        }
        i += 1;
    }
    true
}

} // verus!
