use abi_coder::scalar::{
    is_decimal_text, tokenize_address, tokenize_bool, tokenize_bytes, tokenize_fixed_bytes,
    tokenize_int, tokenize_string, tokenize_uint, MAX_SAFE_INTEGER,
};
use abi_coder::tokenizer::{tokenize, tokenize_arguments, tokenize_array, tokenize_struct};
use abi_coder::types::{CoderError, ParameterType, TypedToken, Value};

fn text(s: &str) -> Value {
    Value::Text(s.to_string())
}

fn word(last: u8) -> [u8; 32] {
    let mut w = [0u8; 32];
    w[31] = last;
    w
}

#[test]
fn address_of_forty_digits() {
    let expected = [0x11u8; 20];
    assert_eq!(tokenize_address(&text("0x1111111111111111111111111111111111111111")), Ok(expected));
    assert_eq!(tokenize_address(&text("1111111111111111111111111111111111111111")), Ok(expected));
}

#[test]
fn address_takes_either_case() {
    let mut expected = [0u8; 20];
    expected[0] = 0xab;
    expected[19] = 0xcd;
    assert_eq!(tokenize_address(&text("0xAB000000000000000000000000000000000000cD")), Ok(expected));
}

#[test]
fn address_of_another_length_is_out_of_range() {
    assert_eq!(tokenize_address(&text("0x1111")), Err(CoderError::Range));
    assert_eq!(
        tokenize_address(&text("0x111111111111111111111111111111111111111111")),
        Err(CoderError::Range)
    );
}

#[test]
fn malformed_hex_is_malformed_input_everywhere() {
    assert_eq!(tokenize_address(&text("0xzz")), Err(CoderError::MalformedInput));
    assert_eq!(tokenize_bytes(&text("0xzz")), Err(CoderError::MalformedInput));
    assert_eq!(tokenize_fixed_bytes(&text("0xzz"), 1), Err(CoderError::MalformedInput));
    assert_eq!(tokenize_uint(&text("0xzz"), 256), Err(CoderError::MalformedInput));
    assert_eq!(tokenize_int(&text("0xzz"), 256), Err(CoderError::MalformedInput));
    assert_eq!(tokenize(&ParameterType::Address, &text("0xzz")), Err(CoderError::MalformedInput));
    assert_eq!(tokenize(&ParameterType::Bytes, &text("0xzz")), Err(CoderError::MalformedInput));
    assert_eq!(tokenize(&ParameterType::FixedBytes(1), &text("0xzz")), Err(CoderError::MalformedInput));
    assert_eq!(tokenize(&ParameterType::Uint(8), &text("0xzz")), Err(CoderError::MalformedInput));
    assert_eq!(tokenize(&ParameterType::Int(8), &text("0xzz")), Err(CoderError::MalformedInput));
}

#[test]
fn odd_hex_is_malformed_input() {
    assert_eq!(tokenize_bytes(&text("0xabc")), Err(CoderError::MalformedInput));
    assert_eq!(tokenize_bytes(&text("abc")), Err(CoderError::MalformedInput));
}

#[test]
fn text_too_short_for_a_prefix_is_malformed_input() {
    assert_eq!(tokenize_bytes(&text("")), Err(CoderError::MalformedInput));
    assert_eq!(tokenize_bytes(&text("a")), Err(CoderError::MalformedInput));
    assert_eq!(tokenize_address(&text("")), Err(CoderError::MalformedInput));
    assert_eq!(tokenize_fixed_bytes(&text("1"), 1), Err(CoderError::MalformedInput));
}

#[test]
fn bytes_of_any_even_length() {
    assert_eq!(tokenize_bytes(&text("0x")), Ok(vec![]));
    assert_eq!(tokenize_bytes(&text("0x1234")), Ok(vec![0x12, 0x34]));
    assert_eq!(tokenize_bytes(&text("123456")), Ok(vec![0x12, 0x34, 0x56]));
    assert_eq!(tokenize_bytes(&text("0xDEADbeef")), Ok(vec![0xde, 0xad, 0xbe, 0xef]));
}

#[test]
fn fixed_bytes_of_the_declared_width() {
    assert_eq!(tokenize_fixed_bytes(&text("0x1234"), 2), Ok(vec![0x12, 0x34]));
    assert_eq!(tokenize_fixed_bytes(&text("0x1234"), 3), Err(CoderError::Range));
    assert_eq!(tokenize_fixed_bytes(&text("0x1234"), 1), Err(CoderError::Range));
}

#[test]
fn text_and_truth_values_pass_through() {
    assert_eq!(tokenize_string(&text("héllo")), Ok("héllo".to_string()));
    assert_eq!(tokenize_string(&text("")), Ok(String::new()));
    assert_eq!(tokenize_bool(&Value::Bool(true)), Ok(true));
    assert_eq!(tokenize_bool(&Value::Bool(false)), Ok(false));
}

#[test]
fn wrong_shapes_are_type_mismatches() {
    assert_eq!(tokenize_bool(&text("true")), Err(CoderError::TypeMismatch));
    assert_eq!(tokenize_bool(&Value::Number(1)), Err(CoderError::TypeMismatch));
    assert_eq!(tokenize_string(&Value::Bool(true)), Err(CoderError::TypeMismatch));
    assert_eq!(tokenize_address(&Value::Number(1)), Err(CoderError::TypeMismatch));
    assert_eq!(tokenize_bytes(&Value::List(vec![])), Err(CoderError::TypeMismatch));
    assert_eq!(tokenize_fixed_bytes(&Value::Other, 1), Err(CoderError::TypeMismatch));
    assert_eq!(tokenize_uint(&Value::Bool(true), 8), Err(CoderError::TypeMismatch));
    assert_eq!(tokenize_int(&Value::Other, 8), Err(CoderError::TypeMismatch));
}

#[test]
fn uint_from_number_and_text() {
    assert_eq!(tokenize_uint(&Value::Number(42), 256), Ok(word(42)));
    assert_eq!(tokenize_uint(&text("42"), 256), Ok(word(42)));
    assert_eq!(tokenize_uint(&text("0042"), 256), Ok(word(42)));
    assert_eq!(tokenize_uint(&Value::Number(0), 8), Ok(word(0)));
    let mut big = [0u8; 32];
    big[30] = 1;
    assert_eq!(tokenize_uint(&Value::Number(256), 16), Ok(big));
}

#[test]
fn uint_of_sixty_four_digits_is_decimal() {
    let digits = "1".to_string() + &"0".repeat(63);
    let got = tokenize_uint(&text(&digits), 256).unwrap();
    // ten to the power 63, as a word
    let expected: [u8; 32] = [
        0, 0, 0, 0, 0, 0x02, 0x6e, 0x4d, 0x30, 0xec, 0xcc, 0x32, 0x15, 0xdd, 0x8f, 0x31, 0x57,
        0xd2, 0x7e, 0x23, 0xac, 0xbd, 0xcf, 0xe6, 0x80, 0, 0, 0, 0, 0, 0, 0,
    ];
    assert_eq!(got, expected);
}

#[test]
fn uint_range_follows_the_width() {
    assert_eq!(tokenize_uint(&Value::Number(255), 8), Ok(word(255)));
    assert_eq!(tokenize_uint(&Value::Number(256), 8), Err(CoderError::Range));
    assert_eq!(tokenize_uint(&text("255"), 8), Ok(word(255)));
    assert_eq!(tokenize_uint(&text("256"), 8), Err(CoderError::Range));
    assert_eq!(tokenize_uint(&text("65536"), 16), Err(CoderError::Range));
    assert_eq!(tokenize_uint(&Value::Number(-1), 256), Err(CoderError::Range));
    assert_eq!(tokenize_uint(&Value::Inexact, 256), Err(CoderError::Range));
}

#[test]
fn uint_holds_the_greatest_word_and_no_more() {
    let max = "115792089237316195423570985008687907853269984665640564039457584007913129639935";
    assert_eq!(tokenize_uint(&text(max), 256), Ok([0xffu8; 32]));
    let over = "115792089237316195423570985008687907853269984665640564039457584007913129639936";
    assert_eq!(tokenize_uint(&text(over), 256), Err(CoderError::Range));
}

#[test]
fn uint_number_must_be_held_exactly() {
    assert!(tokenize_uint(&Value::Number(MAX_SAFE_INTEGER), 256).is_ok());
    assert_eq!(tokenize_uint(&Value::Number(MAX_SAFE_INTEGER + 1), 256), Err(CoderError::Range));
    assert_eq!(tokenize_int(&Value::Number(-MAX_SAFE_INTEGER - 1), 256), Err(CoderError::Range));
    assert_eq!(MAX_SAFE_INTEGER, 9_007_199_254_740_991);
}

#[test]
fn uint_text_must_be_decimal() {
    assert_eq!(tokenize_uint(&text(""), 256), Err(CoderError::MalformedInput));
    assert_eq!(tokenize_uint(&text("-1"), 256), Err(CoderError::MalformedInput));
    assert_eq!(tokenize_uint(&text("1 ether"), 256), Err(CoderError::MalformedInput));
    assert_eq!(tokenize_uint(&text("1.5"), 256), Err(CoderError::MalformedInput));
    assert_eq!(tokenize_uint(&text("１２"), 256), Err(CoderError::MalformedInput));
    assert!(is_decimal_text("0123456789"));
    assert!(!is_decimal_text(""));
    assert!(!is_decimal_text("12a"));
}

#[test]
fn int_from_number_and_text() {
    assert_eq!(tokenize_int(&Value::Number(42), 256), Ok(word(42)));
    assert_eq!(tokenize_int(&text("42"), 256), Ok(word(42)));
    assert_eq!(tokenize_int(&Value::Number(-1), 256), Ok([0xffu8; 32]));
    assert_eq!(tokenize_int(&text("-1"), 256), Ok([0xffu8; 32]));
    let mut minus_two = [0xffu8; 32];
    minus_two[31] = 0xfe;
    assert_eq!(tokenize_int(&text("-2"), 8), Ok(minus_two));
    assert_eq!(tokenize_int(&text("-0"), 8), Ok(word(0)));
}

#[test]
fn int_range_follows_the_width() {
    assert_eq!(tokenize_int(&Value::Number(127), 8), Ok(word(127)));
    assert_eq!(tokenize_int(&Value::Number(128), 8), Err(CoderError::Range));
    let mut low = [0xffu8; 32];
    low[31] = 0x80;
    assert_eq!(tokenize_int(&Value::Number(-128), 8), Ok(low));
    assert_eq!(tokenize_int(&Value::Number(-129), 8), Err(CoderError::Range));
    assert_eq!(tokenize_int(&text("128"), 8), Err(CoderError::Range));
    assert_eq!(tokenize_int(&text("-129"), 8), Err(CoderError::Range));
    assert_eq!(tokenize_int(&Value::Inexact, 8), Err(CoderError::Range));
}

#[test]
fn int_range_of_the_full_word() {
    let top = "57896044618658097711785492504343953926634992332820282019728792003956564819968";
    let mut lowest = [0u8; 32];
    lowest[0] = 0x80;
    assert_eq!(tokenize_int(&text(&format!("-{}", top)), 256), Ok(lowest));
    assert_eq!(tokenize_int(&text(top), 256), Err(CoderError::Range));
    let over = "57896044618658097711785492504343953926634992332820282019728792003956564819969";
    assert_eq!(tokenize_int(&text(&format!("-{}", over)), 256), Err(CoderError::Range));
    let huge = "9".repeat(90);
    assert_eq!(tokenize_int(&text(&huge), 256), Err(CoderError::Range));
    assert_eq!(tokenize_int(&text(&format!("-{}", huge)), 256), Err(CoderError::Range));
}

#[test]
fn int_text_takes_one_minus_sign() {
    assert_eq!(tokenize_int(&text("--5"), 256), Err(CoderError::MalformedInput));
    assert_eq!(tokenize_int(&text("-"), 256), Err(CoderError::MalformedInput));
    assert_eq!(tokenize_int(&text(""), 256), Err(CoderError::MalformedInput));
    assert_eq!(tokenize_int(&text("+5"), 256), Err(CoderError::MalformedInput));
}

#[test]
fn arrays_walk_their_items() {
    let ty = ParameterType::Array(Box::new(ParameterType::Uint(8)));
    let value = Value::List(vec![Value::Number(1), text("2")]);
    assert_eq!(
        tokenize(&ty, &value),
        Ok(TypedToken::Array(vec![TypedToken::Uint(word(1)), TypedToken::Uint(word(2))]))
    );
    assert_eq!(tokenize(&ty, &Value::List(vec![])), Ok(TypedToken::Array(vec![])));
    assert_eq!(tokenize(&ty, &text("[1,2]")), Err(CoderError::TypeMismatch));
    assert_eq!(
        tokenize_array(&value, &ParameterType::Uint(8)),
        Ok(vec![TypedToken::Uint(word(1)), TypedToken::Uint(word(2))])
    );
}

#[test]
fn the_first_item_that_fails_gives_the_error() {
    let ty = ParameterType::Array(Box::new(ParameterType::Uint(8)));
    let value = Value::List(vec![Value::Number(1), Value::Number(256), Value::Bool(true)]);
    assert_eq!(tokenize(&ty, &value), Err(CoderError::Range));
    let value = Value::List(vec![Value::Bool(true), Value::Number(256)]);
    assert_eq!(tokenize(&ty, &value), Err(CoderError::TypeMismatch));
}

#[test]
fn fixed_arrays_hold_their_declared_number() {
    let ty = ParameterType::FixedArray(Box::new(ParameterType::Bool), 2);
    let value = Value::List(vec![Value::Bool(true), Value::Bool(false)]);
    assert_eq!(
        tokenize(&ty, &value),
        Ok(TypedToken::FixedArray(vec![TypedToken::Bool(true), TypedToken::Bool(false)]))
    );
    assert_eq!(tokenize(&ty, &Value::List(vec![Value::Bool(true)])), Err(CoderError::TypeMismatch));
    assert_eq!(tokenize(&ty, &Value::Number(2)), Err(CoderError::TypeMismatch));
}

#[test]
fn tuples_pair_items_with_members() {
    let members = vec![ParameterType::Bool, ParameterType::String];
    let value = Value::List(vec![Value::Bool(true), text("x")]);
    assert_eq!(
        tokenize_struct(&value, &members),
        Ok(vec![TypedToken::Bool(true), TypedToken::String("x".to_string())])
    );
    let ty = ParameterType::Tuple(vec![ParameterType::Bool, ParameterType::String]);
    assert_eq!(
        tokenize(&ty, &value),
        Ok(TypedToken::Tuple(vec![TypedToken::Bool(true), TypedToken::String("x".to_string())]))
    );
    assert_eq!(tokenize(&ty, &Value::List(vec![Value::Bool(true)])), Err(CoderError::TypeMismatch));
    assert_eq!(
        tokenize(&ty, &Value::List(vec![text("x"), Value::Bool(true)])),
        Err(CoderError::TypeMismatch)
    );
}

#[test]
fn a_tuple_that_is_no_sequence_is_a_structure_error() {
    let ty = ParameterType::Tuple(vec![ParameterType::Bool]);
    assert_eq!(tokenize(&ty, &Value::Other), Err(CoderError::Structure));
    assert_eq!(tokenize(&ty, &Value::Bool(true)), Err(CoderError::Structure));
    assert_eq!(tokenize_struct(&text("(true)"), &vec![ParameterType::Bool]), Err(CoderError::Structure));
}

#[test]
fn arguments_must_match_the_inputs_in_number() {
    let types = vec![ParameterType::Uint(8), ParameterType::Bool, ParameterType::String];
    let two = vec![Value::Number(1), Value::Bool(true)];
    assert_eq!(tokenize_arguments(&types, &two), Err(CoderError::ArityMismatch));
    let four = vec![Value::Number(1), Value::Bool(true), text("a"), text("b")];
    assert_eq!(tokenize_arguments(&types, &four), Err(CoderError::ArityMismatch));
    // the number is looked at before any value is
    let bad = vec![Value::Number(999), Value::Bool(true)];
    assert_eq!(tokenize_arguments(&types, &bad), Err(CoderError::ArityMismatch));
    let three = vec![Value::Number(1), Value::Bool(true), text("a")];
    assert_eq!(
        tokenize_arguments(&types, &three),
        Ok(vec![TypedToken::Uint(word(1)), TypedToken::Bool(true), TypedToken::String("a".to_string())])
    );
    assert_eq!(tokenize_arguments(&vec![], &vec![]), Ok(vec![]));
}
