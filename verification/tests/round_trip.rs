use abi_coder::detokenizer::detokenize;
use abi_coder::tokenizer::tokenize;
use abi_coder::types::{
    copy_token, copy_tokens, copy_value, copy_values, ParameterType, TypedToken, Value,
};

fn text(s: &str) -> Value {
    Value::Text(s.to_string())
}

fn round(ty: &ParameterType, value: &Value) -> Value {
    detokenize(&tokenize(ty, value).unwrap())
}

#[test]
fn a_number_comes_back_as_its_decimal_text() {
    assert_eq!(round(&ParameterType::Uint(256), &Value::Number(42)), text("42"));
    assert_eq!(round(&ParameterType::Uint(8), &Value::Number(0)), text("0"));
    assert_eq!(round(&ParameterType::Uint(64), &text("000123")), text("123"));
    assert_eq!(round(&ParameterType::Uint(256), &text("0")), text("0"));
    assert_eq!(round(&ParameterType::Int(256), &Value::Number(-42)), text("-42"));
    assert_eq!(round(&ParameterType::Int(8), &text("-128")), text("-128"));
    assert_eq!(round(&ParameterType::Int(8), &text("-0")), text("0"));
    assert_eq!(round(&ParameterType::Int(16), &text("00017")), text("17"));
    assert_eq!(
        round(&ParameterType::Uint(256), &Value::Number(9_007_199_254_740_991)),
        text("9007199254740991")
    );
    let big = "340282366920938463463374607431768211456";
    assert_eq!(round(&ParameterType::Uint(136), &text(big)), text(big));
}

#[test]
fn hexadecimal_text_comes_back_in_lower_case_behind_the_prefix() {
    assert_eq!(round(&ParameterType::Bytes, &text("ABCDEF")), text("0xabcdef"));
    assert_eq!(round(&ParameterType::Bytes, &text("0xabcdef")), text("0xabcdef"));
    assert_eq!(round(&ParameterType::Bytes, &text("0x")), text("0x"));
    assert_eq!(round(&ParameterType::FixedBytes(0), &text("0x")), text("0x"));
    assert_eq!(round(&ParameterType::FixedBytes(2), &text("0xFfEe")), text("0xffee"));
    assert_eq!(
        round(&ParameterType::Address, &text("00000000000000000000000000000000000000Aa")),
        text("0x00000000000000000000000000000000000000aa")
    );
}

#[test]
fn truth_values_and_text_come_back_as_they_are() {
    assert_eq!(round(&ParameterType::Bool, &Value::Bool(true)), Value::Bool(true));
    assert_eq!(round(&ParameterType::Bool, &Value::Bool(false)), Value::Bool(false));
    assert_eq!(round(&ParameterType::String, &text("0xAB")), text("0xAB"));
    assert_eq!(round(&ParameterType::String, &text("")), text(""));
}

#[test]
fn sequences_come_back_member_by_member() {
    let ty = ParameterType::Tuple(vec![
        ParameterType::Array(Box::new(ParameterType::Int(8))),
        ParameterType::FixedArray(Box::new(ParameterType::Bytes), 2),
        ParameterType::Bool,
    ]);
    let value = Value::List(vec![
        Value::List(vec![Value::Number(-1), text("07")]),
        Value::List(vec![text("0xAA"), text("bb")]),
        Value::Bool(true),
    ]);
    assert_eq!(
        round(&ty, &value),
        Value::List(vec![
            Value::List(vec![text("-1"), text("7")]),
            Value::List(vec![text("0xaa"), text("0xbb")]),
            Value::Bool(true),
        ])
    );
}

#[test]
fn copies_are_equal_to_what_they_copy() {
    let token = TypedToken::Tuple(vec![
        TypedToken::Address([7u8; 20]),
        TypedToken::Bytes(vec![1, 2, 3]),
        TypedToken::FixedBytes(vec![]),
        TypedToken::String("héllo".to_string()),
        TypedToken::Array(vec![TypedToken::Uint([9u8; 32]), TypedToken::Int([0xffu8; 32])]),
        TypedToken::FixedArray(vec![TypedToken::Bool(true)]),
    ]);
    assert_eq!(copy_token(&token), token);
    assert_eq!(token.clone(), token);
    let tokens = vec![TypedToken::Bool(false), token];
    assert_eq!(copy_tokens(&tokens), tokens);
    let value = Value::List(vec![
        Value::Bool(true),
        text("x"),
        Value::Number(-3),
        Value::Inexact,
        Value::Other,
        Value::List(vec![]),
    ]);
    assert_eq!(copy_value(&value), value);
    assert_eq!(value.clone(), value);
    let values = vec![Value::Number(1), value];
    assert_eq!(copy_values(&values), values);
    let ty = ParameterType::Array(Box::new(ParameterType::Uint(8)));
    assert_eq!(ty.clone(), ty);
}
