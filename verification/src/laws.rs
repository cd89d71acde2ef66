//! What holds of the library as a whole.
use crate::api::shown;
use crate::codec::{abi_decoding, abi_encoding, encoded_bound_sum, selector, MAX_ENCODED};
use crate::coder::{
    decoded_data, decoded_input, encoded_call, lookup, lookup_from, FunctionSignatureView,
};
use crate::conformance::{all_conform, conforms};
use crate::detokenizer::{detokenized, detokenized_all};
use crate::framing::{
    hex_bytes, hex_digit, hex_digit_value, hex_text, is_hex, is_hex_digit,
    lemma_hex_round_trip, with_prefix, without_prefix,
};
use crate::layout::layout_fault;
use crate::scalar::signed_decimal_value;
use crate::tokenizer::{tokenized, tokenized_arguments, tokenized_each, tokenized_pairs};
use crate::types::{all_well_formed, CoderError, ParameterTypeView, TokenView, ValueView};
use crate::words::{decimal_text, decimal_value, signed_decimal_text};
use vstd::prelude::*;

verus! {

/// The lower-case form of a letter; any other character is itself.
pub open spec fn lower(c: char) -> char {
    if 'A' <= c && c <= 'Z' {
        ((c as u32) + 32) as char
    } else {
        c
    }
}

/// The text with every letter in lower case.
pub open spec fn lower_case(text: Seq<char>) -> Seq<char> {
    Seq::new(text.len(), |i: int| lower(text[i]))
}

/// The form in which a value that a parameter type accepts comes back:
/// hexadecimal text in lower case behind `0x`, a number as its decimal text
/// without leading zeros, a sequence member by member, and a truth value or
/// text as it is.
pub open spec fn canonical(ty: ParameterTypeView, value: ValueView) -> ValueView
    decreases ty, 0nat,
{
    match ty {
        ParameterTypeView::Address | ParameterTypeView::Bytes | ParameterTypeView::FixedBytes(
            _,
        ) => match value {
            ValueView::Text(text) => ValueView::Text(
                with_prefix(lower_case(without_prefix(text))),
            ),
            _ => value,
        },
        ParameterTypeView::Uint(_) => match value {
            ValueView::Number(n) => ValueView::Text(signed_decimal_text(n)),
            ValueView::Text(text) => ValueView::Text(decimal_text(decimal_value(text))),
            _ => value,
        },
        ParameterTypeView::Int(_) => match value {
            ValueView::Number(n) => ValueView::Text(signed_decimal_text(n)),
            ValueView::Text(text) => ValueView::Text(
                signed_decimal_text(signed_decimal_value(text)),
            ),
            _ => value,
        },
        ParameterTypeView::Array(elem) => match value {
            ValueView::List(items) => ValueView::List(canonical_each(*elem, items)),
            _ => value,
        },
        ParameterTypeView::FixedArray(elem, _) => match value {
            ValueView::List(items) => ValueView::List(canonical_each(*elem, items)),
            _ => value,
        },
        ParameterTypeView::Tuple(members) => match value {
            ValueView::List(items) => ValueView::List(canonical_pairs(members, items)),
            _ => value,
        },
        _ => value,
    }
}

/// The canonical forms of the items of a sequence for one element type.
pub open spec fn canonical_each(elem: ParameterTypeView, items: Seq<ValueView>) -> Seq<ValueView>
    decreases elem, 1nat,
{
    Seq::new(items.len(), |i: int| canonical(elem, items[i]))
}

/// The canonical forms of the items of a sequence, each for the type at its
/// position.
pub open spec fn canonical_pairs(types: Seq<ParameterTypeView>, items: Seq<ValueView>) -> Seq<
    ValueView,
>
    decreases types, 1nat,
{
    Seq::new(
        items.len(),
        |i: int|
            if 0 <= i < types.len() {
                canonical(types[i], items[i])
            } else {
                items[i]
            },
    )
}

/// Hexadecimal text, decoded and encoded again, is the same text in lower
/// case.
pub proof fn lemma_hex_text_of_bytes(text: Seq<char>)
    requires
        is_hex(text),
    ensures
        hex_text(hex_bytes(text)) == lower_case(text),
{
    let bytes = hex_bytes(text);
    assert forall|i: int| 0 <= i < text.len() implies hex_text(bytes)[i] == lower(text[i]) by {
        let k = i / 2;
        let high = hex_digit_value(text[2 * k]);
        let low = hex_digit_value(text[2 * k + 1]);
        assert(is_hex_digit(text[2 * k]) && is_hex_digit(text[2 * k + 1]));
        assert(high < 16 && low < 16);
        assert(bytes[k] == 16 * high + low);
        assert(bytes[k] / 16 == high && bytes[k] % 16 == low);
        assert(hex_digit(high) == lower(text[2 * k]));
        assert(hex_digit(low) == lower(text[2 * k + 1]));
    }
    assert(hex_text(bytes) =~= lower_case(text));
}

/// Where the first `n` items of a sequence are tokenized, each of them is,
/// and the tokens stand in their order.
pub proof fn lemma_each_tokenized(elem: ParameterTypeView, items: Seq<ValueView>, n: nat)
    requires
        n <= items.len(),
        tokenized_each(elem, items, n) is Ok,
    ensures
        tokenized_each(elem, items, n)->Ok_0.len() == n,
        forall|i: int|
            0 <= i < n ==> tokenized(elem, #[trigger] items[i]) == Ok::<TokenView, CoderError>(
                tokenized_each(elem, items, n)->Ok_0[i],
            ),
    decreases n,
{
    if n > 0 {
        lemma_each_tokenized(elem, items, (n - 1) as nat);
    }
}

/// Where the first `n` pairs of types and items are tokenized, each of them
/// is, and the tokens stand in their order.
pub proof fn lemma_pairs_tokenized(
    types: Seq<ParameterTypeView>,
    items: Seq<ValueView>,
    n: nat,
)
    requires
        n <= items.len(),
        n <= types.len(),
        tokenized_pairs(types, items, n) is Ok,
    ensures
        tokenized_pairs(types, items, n)->Ok_0.len() == n,
        forall|i: int|
            0 <= i < n ==> tokenized(types[i], #[trigger] items[i]) == Ok::<
                TokenView,
                CoderError,
            >(tokenized_pairs(types, items, n)->Ok_0[i]),
    decreases n,
{
    if n > 0 {
        lemma_pairs_tokenized(types, items, (n - 1) as nat);
    }
}

/// Round trip: a value that a parameter type accepts, tokenized and
/// detokenized, comes back in its canonical form.
pub proof fn lemma_round_trip(ty: ParameterTypeView, value: ValueView)
    requires
        ty.well_formed(),
        tokenized(ty, value) is Ok,
    ensures
        detokenized(tokenized(ty, value)->Ok_0) == canonical(ty, value),
    decreases ty, 0nat,
{
    let token = tokenized(ty, value)->Ok_0;
    match ty {
        ParameterTypeView::Address => {
            lemma_hex_text_of_bytes(without_prefix(value->Text_0));
        },
        ParameterTypeView::Bytes => {
            lemma_hex_text_of_bytes(without_prefix(value->Text_0));
        },
        ParameterTypeView::FixedBytes(_) => {
            lemma_hex_text_of_bytes(without_prefix(value->Text_0));
        },
        ParameterTypeView::Array(elem) => {
            lemma_each_round_trip(*elem, value->List_0);
            assert(token->Array_0 == tokenized_each(*elem, value->List_0, value->List_0.len())->Ok_0);
        },
        ParameterTypeView::FixedArray(elem, _) => {
            lemma_each_round_trip(*elem, value->List_0);
            assert(token->FixedArray_0 == tokenized_each(
                *elem,
                value->List_0,
                value->List_0.len(),
            )->Ok_0);
        },
        ParameterTypeView::Tuple(members) => {
            lemma_pairs_round_trip(members, value->List_0);
            assert(token->Tuple_0 == tokenized_pairs(members, value->List_0, members.len())->Ok_0);
        },
        _ => {},
    }
}

/// The items of a sequence that is tokenized for one element type come
/// back in their canonical forms.
pub proof fn lemma_each_round_trip(elem: ParameterTypeView, items: Seq<ValueView>)
    requires
        elem.well_formed(),
        tokenized_each(elem, items, items.len()) is Ok,
    ensures
        detokenized_all(tokenized_each(elem, items, items.len())->Ok_0) == canonical_each(
            elem,
            items,
        ),
    decreases elem, 1nat,
{
    let tokens = tokenized_each(elem, items, items.len())->Ok_0;
    lemma_each_tokenized(elem, items, items.len());
    assert forall|i: int| 0 <= i < items.len() implies detokenized(tokens[i]) == canonical(
        elem,
        items[i],
    ) by {
        assert(tokenized(elem, items[i]) == Ok::<TokenView, CoderError>(tokens[i]));
        lemma_round_trip(elem, items[i]);
    }
    assert(detokenized_all(tokens) =~= canonical_each(elem, items));
}

/// The items of a sequence that is tokenized, each for the type at its
/// position, come back in their canonical forms.
pub proof fn lemma_pairs_round_trip(types: Seq<ParameterTypeView>, items: Seq<ValueView>)
    requires
        all_well_formed(types),
        types.len() == items.len(),
        tokenized_pairs(types, items, types.len()) is Ok,
    ensures
        detokenized_all(tokenized_pairs(types, items, types.len())->Ok_0) == canonical_pairs(
            types,
            items,
        ),
    decreases types, 1nat,
{
    let tokens = tokenized_pairs(types, items, types.len())->Ok_0;
    lemma_pairs_tokenized(types, items, types.len());
    assert forall|i: int| 0 <= i < items.len() implies detokenized(tokens[i]) == canonical(
        types[i],
        items[i],
    ) by {
        assert(tokenized(types[i], items[i]) == Ok::<TokenView, CoderError>(tokens[i]));
        lemma_round_trip(types[i], items[i]);
    }
    assert(detokenized_all(tokens) =~= canonical_pairs(types, items));
}

/// A token that a value makes for a parameter type has the shape of that
/// type.
pub proof fn lemma_tokenized_conforms(ty: ParameterTypeView, value: ValueView)
    requires
        ty.well_formed(),
        tokenized(ty, value) is Ok,
    ensures
        conforms(tokenized(ty, value)->Ok_0, ty),
    decreases ty, 0nat,
{
    let token = tokenized(ty, value)->Ok_0;
    match ty {
        ParameterTypeView::Array(elem) => {
            lemma_each_conforms(*elem, value->List_0);
            assert(token->Array_0 == tokenized_each(*elem, value->List_0, value->List_0.len())->Ok_0);
        },
        ParameterTypeView::FixedArray(elem, _) => {
            lemma_each_conforms(*elem, value->List_0);
            assert(token->FixedArray_0 == tokenized_each(
                *elem,
                value->List_0,
                value->List_0.len(),
            )->Ok_0);
        },
        ParameterTypeView::Tuple(members) => {
            lemma_pairs_conform(members, value->List_0);
            assert(token->Tuple_0 == tokenized_pairs(members, value->List_0, members.len())->Ok_0);
        },
        _ => {},
    }
}

/// The tokens of a sequence that is tokenized for one element type have
/// the shape of that type, and are as many as the items.
pub proof fn lemma_each_conforms(elem: ParameterTypeView, items: Seq<ValueView>)
    requires
        elem.well_formed(),
        tokenized_each(elem, items, items.len()) is Ok,
    ensures
        tokenized_each(elem, items, items.len())->Ok_0.len() == items.len(),
        forall|i: int|
            0 <= i < items.len() ==> conforms(
                #[trigger] tokenized_each(elem, items, items.len())->Ok_0[i],
                elem,
            ),
    decreases elem, 1nat,
{
    let tokens = tokenized_each(elem, items, items.len())->Ok_0;
    lemma_each_tokenized(elem, items, items.len());
    assert forall|i: int| 0 <= i < tokens.len() implies conforms(#[trigger] tokens[i], elem) by {
        assert(tokenized(elem, items[i]) == Ok::<TokenView, CoderError>(tokens[i]));
        lemma_tokenized_conforms(elem, items[i]);
    }
}

/// The tokens of a sequence that is tokenized, each for the type at its
/// position, have the shapes of those types.
pub proof fn lemma_pairs_conform(types: Seq<ParameterTypeView>, items: Seq<ValueView>)
    requires
        all_well_formed(types),
        types.len() == items.len(),
        tokenized_pairs(types, items, types.len()) is Ok,
    ensures
        all_conform(tokenized_pairs(types, items, types.len())->Ok_0, types),
    decreases types, 1nat,
{
    let tokens = tokenized_pairs(types, items, types.len())->Ok_0;
    lemma_pairs_tokenized(types, items, types.len());
    assert forall|i: int| 0 <= i < tokens.len() implies conforms(#[trigger] tokens[i], types[i]) by {
        assert(tokenized(types[i], items[i]) == Ok::<TokenView, CoderError>(tokens[i]));
        lemma_tokenized_conforms(types[i], items[i]);
    }
}

/// Looking a name up from position `from` on finds the first function of
/// that name, and finds none only where there is none.
pub proof fn lemma_lookup_from(functions: Seq<FunctionSignatureView>, name: Seq<char>, from: nat)
    ensures
        match lookup_from(functions, name, from) {
            Some(signature) => exists|i: int|
                from <= i < functions.len() && #[trigger] functions[i] == signature
                    && signature.name == name && forall|j: int|
                    from <= j < i ==> (#[trigger] functions[j]).name != name,
            None => forall|i: int|
                from <= i < functions.len() ==> (#[trigger] functions[i]).name != name,
        },
    decreases functions.len() - from,
{
    if from < functions.len() {
        if functions[from as int].name == name {
            assert(functions[from as int] == lookup_from(functions, name, from)->Some_0);
        } else {
            lemma_lookup_from(functions, name, from + 1);
            match lookup_from(functions, name, from + 1) {
                Some(signature) => {
                    let i = choose|i: int|
                        from + 1 <= i < functions.len() && #[trigger] functions[i] == signature
                            && signature.name == name && forall|j: int|
                            from + 1 <= j < i ==> (#[trigger] functions[j]).name != name;
                    assert(functions[i] == signature);
                    assert forall|j: int| from <= j < i implies (#[trigger] functions[j]).name
                        != name by {
                        if j > from {
                            assert(from + 1 <= j < i);
                        }
                    }
                },
                None => {
                    assert forall|i: int| from <= i < functions.len() implies (
                    #[trigger] functions[i]).name != name by {
                        if i > from {
                            assert(from + 1 <= i);
                        }
                    }
                },
            }
        }
    }
}

/// Of two functions of one name a schema gives the first: a lookup finds
/// the first function of the name, and finds none only where there is none.
pub proof fn lemma_lookup_finds_the_first(functions: Seq<FunctionSignatureView>, name: Seq<char>)
    ensures
        match lookup(functions, name) {
            Some(signature) => exists|i: int|
                0 <= i < functions.len() && #[trigger] functions[i] == signature
                    && signature.name == name && forall|j: int|
                    0 <= j < i ==> (#[trigger] functions[j]).name != name,
            None => forall|i: int|
                0 <= i < functions.len() ==> (#[trigger] functions[i]).name != name,
        },
{
    lemma_lookup_from(functions, name, 0);
}

/// Whether a value is a truth value, text, or a sequence of such values.
pub open spec fn is_output(value: ValueView) -> bool
    decreases value,
{
    match value {
        ValueView::Bool(_) => true,
        ValueView::Text(_) => true,
        ValueView::List(items) => forall|i: int|
            0 <= i < items.len() ==> is_output(#[trigger] items[i]),
        _ => false,
    }
}

/// A token is never shown as a number of the host: what comes back is a
/// truth value, text, or a sequence of these.
pub proof fn lemma_detokenized_is_output(token: TokenView)
    ensures
        is_output(detokenized(token)),
    decreases token,
{
    match token {
        TokenView::Array(items) => {
            lemma_all_detokenized_are_outputs(items);
        },
        TokenView::FixedArray(items) => {
            lemma_all_detokenized_are_outputs(items);
        },
        TokenView::Tuple(items) => {
            lemma_all_detokenized_are_outputs(items);
        },
        _ => {},
    }
}

/// Every token of a sequence is shown as a truth value, text, or a sequence
/// of these.
pub proof fn lemma_all_detokenized_are_outputs(tokens: Seq<TokenView>)
    ensures
        is_output(ValueView::List(detokenized_all(tokens))),
    decreases tokens,
{
    let values = detokenized_all(tokens);
    assert forall|i: int| 0 <= i < values.len() implies is_output(#[trigger] values[i]) by {
        lemma_detokenized_is_output(tokens[i]);
    }
    assert(ValueView::List(values)->List_0 == values);
}

/// The tokens that the values of a call make have the shapes of the declared
/// input types.
pub proof fn lemma_arguments_conform(types: Seq<ParameterTypeView>, values: Seq<ValueView>)
    requires
        all_well_formed(types),
        tokenized_arguments(types, values) is Ok,
    ensures
        all_conform(tokenized_arguments(types, values)->Ok_0, types),
{
    lemma_pairs_conform(types, values);
}

/// The values of a call that is tokenized come back, tokenized and
/// detokenized, in their canonical forms.
pub proof fn lemma_arguments_round_trip(types: Seq<ParameterTypeView>, values: Seq<ValueView>)
    requires
        all_well_formed(types),
        tokenized_arguments(types, values) is Ok,
    ensures
        detokenized_all(tokenized_arguments(types, values)->Ok_0) == canonical_pairs(
            types,
            values,
        ),
{
    lemma_pairs_round_trip(types, values);
}

/// The hexadecimal text of two byte strings joined is the two texts joined.
pub proof fn lemma_hex_text_concat(a: Seq<u8>, b: Seq<u8>)
    ensures
        hex_text(a + b) == hex_text(a) + hex_text(b),
{
    assert(hex_text(a + b) =~= hex_text(a) + hex_text(b));
}

/// Hexadecimal text made from bytes has no `0x` in front.
pub proof fn lemma_hex_text_has_no_prefix(bytes: Seq<u8>)
    ensures
        without_prefix(hex_text(bytes)) == hex_text(bytes),
{
    lemma_hex_round_trip(bytes);
    if hex_text(bytes).len() >= 2 {
        assert(is_hex_digit(hex_text(bytes)[1]));
    }
}

/// Selector framing: the first eight characters of an encoded call are the
/// hexadecimal text of the four bytes of the function's selector.
pub proof fn lemma_selector_comes_first(signature: FunctionSignatureView, tokens: Seq<TokenView>)
    requires
        encoded_call(signature, tokens) is Ok,
        selector(signature.name, signature.inputs).len() == 4,
    ensures
        encoded_call(signature, tokens)->Ok_0.len() >= 8,
        encoded_call(signature, tokens)->Ok_0.take(8) == hex_text(
            selector(signature.name, signature.inputs),
        ),
{
    let head = selector(signature.name, signature.inputs);
    let body = abi_encoding(tokens);
    lemma_hex_text_concat(head, body);
    assert((hex_text(head) + hex_text(body)).take(8) =~= hex_text(head));
}

/// Decoding takes the selector off an encoded call and reads the layout
/// behind it: what comes back is what the codec reads from the layout it
/// made, where the layout is without fault.
pub proof fn lemma_decode_reads_encoded_layout(
    signature: FunctionSignatureView,
    tokens: Seq<TokenView>,
)
    requires
        encoded_call(signature, tokens) is Ok,
        selector(signature.name, signature.inputs).len() == 4,
    ensures
        decoded_input(signature.inputs, encoded_call(signature, tokens)->Ok_0) == decoded_data(
            signature.inputs,
            hex_text(abi_encoding(tokens)),
        ),
        is_hex(hex_text(abi_encoding(tokens))),
        hex_bytes(hex_text(abi_encoding(tokens))) == abi_encoding(tokens),
{
    let head = selector(signature.name, signature.inputs);
    let body = abi_encoding(tokens);
    let text = encoded_call(signature, tokens)->Ok_0;
    lemma_hex_text_concat(head, body);
    lemma_hex_text_has_no_prefix(head + body);
    lemma_hex_round_trip(body);
    assert((hex_text(head) + hex_text(body)).skip(8) =~= hex_text(body));
}

/// Encode and decode are inverse as far as the codec is: where the codec
/// reads back from its own layout of the tokens of a call the tokens that it
/// laid out, and that layout is without fault, decoding the encoded call
/// gives the values of the call in their canonical forms.
pub proof fn lemma_decode_inverts_encode(signature: FunctionSignatureView, values: Seq<ValueView>)
    requires
        all_well_formed(signature.inputs),
        tokenized_arguments(signature.inputs, values) is Ok,
        encoded_call(signature, tokenized_arguments(signature.inputs, values)->Ok_0) is Ok,
        selector(signature.name, signature.inputs).len() == 4,
        layout_fault(
            signature.inputs,
            abi_encoding(tokenized_arguments(signature.inputs, values)->Ok_0),
        ).is_none(),
        abi_decoding(
            signature.inputs,
            abi_encoding(tokenized_arguments(signature.inputs, values)->Ok_0),
        ) == Some(tokenized_arguments(signature.inputs, values)->Ok_0),
    ensures
        shown(
            decoded_input(
                signature.inputs,
                encoded_call(signature, tokenized_arguments(signature.inputs, values)->Ok_0)->Ok_0,
            ),
        ) == Ok::<Seq<ValueView>, CoderError>(canonical_pairs(signature.inputs, values)),
{
    let tokens = tokenized_arguments(signature.inputs, values)->Ok_0;
    lemma_decode_reads_encoded_layout(signature, tokens);
    lemma_arguments_round_trip(signature.inputs, values);
}

/// The tokens of a call that is tokenized are never turned down for their
/// number or their shapes: encoding fails only where the layout would be too
/// long.
pub proof fn lemma_tokenized_call_encodes(
    signature: FunctionSignatureView,
    values: Seq<ValueView>,
)
    requires
        all_well_formed(signature.inputs),
        tokenized_arguments(signature.inputs, values) is Ok,
    ensures
        ({
            let tokens = tokenized_arguments(signature.inputs, values)->Ok_0;
            encoded_call(signature, tokens) == if encoded_bound_sum(tokens, tokens.len())
                > MAX_ENCODED {
                Err::<Seq<char>, CoderError>(CoderError::LengthOverflow)
            } else {
                Ok::<Seq<char>, CoderError>(
                    hex_text(selector(signature.name, signature.inputs) + abi_encoding(tokens)),
                )
            }
        }),
{
    lemma_arguments_conform(signature.inputs, values);
    lemma_pairs_tokenized(signature.inputs, values, signature.inputs.len());
}

} // verus!
