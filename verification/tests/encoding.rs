use abi_coder::api::{decode_input, encode_input};
use abi_coder::coder::Coder;
use abi_coder::types::{CoderError, Value};

const SCHEMA: &str = r#"[
  {"type":"function","name":"baz","inputs":[{"name":"a","type":"uint32"},{"name":"b","type":"bool"}],"outputs":[],"stateMutability":"nonpayable"},
  {"type":"function","name":"small","inputs":[{"name":"a","type":"uint8"}],"outputs":[],"stateMutability":"nonpayable"},
  {"type":"function","name":"signed","inputs":[{"name":"a","type":"int8"}],"outputs":[],"stateMutability":"nonpayable"},
  {"type":"function","name":"greet","inputs":[{"name":"a","type":"string"},{"name":"b","type":"uint256"}],"outputs":[{"name":"","type":"uint256"}],"stateMutability":"nonpayable"},
  {"type":"function","name":"nested","inputs":[{"name":"a","type":"uint256[][2]"}],"outputs":[],"stateMutability":"nonpayable"},
  {"type":"function","name":"three","inputs":[{"name":"a","type":"uint8"},{"name":"b","type":"bool"},{"name":"c","type":"string"}],"outputs":[],"stateMutability":"nonpayable"}
]"#;

fn coder() -> Coder {
    Coder::new(SCHEMA).unwrap()
}

fn text(s: &str) -> Value {
    Value::Text(s.to_string())
}

#[test]
fn selector_comes_first() {
    let encoded = encode_input(&coder(), "baz", &vec![Value::Number(69), Value::Bool(true)]).unwrap();
    assert_eq!(
        encoded,
        "cdcd77c0\
         0000000000000000000000000000000000000000000000000000000000000045\
         0000000000000000000000000000000000000000000000000000000000000001"
    );
}

#[test]
fn uint8_holds_255_and_not_256() {
    let encoded = encode_input(&coder(), "small", &vec![Value::Number(255)]).unwrap();
    assert_eq!(&encoded[8..], "00000000000000000000000000000000000000000000000000000000000000ff");
    assert_eq!(encode_input(&coder(), "small", &vec![Value::Number(256)]), Err(CoderError::Range));
    assert_eq!(encode_input(&coder(), "small", &vec![text("256")]), Err(CoderError::Range));
}

#[test]
fn int8_minus_one_is_all_ones() {
    let encoded = encode_input(&coder(), "signed", &vec![Value::Number(-1)]).unwrap();
    assert_eq!(&encoded[8..], "f".repeat(64));
    let encoded = encode_input(&coder(), "signed", &vec![text("-1")]).unwrap();
    assert_eq!(&encoded[8..], "f".repeat(64));
}

#[test]
fn dynamic_layout_of_text_and_number() {
    let encoded = encode_input(&coder(), "greet", &vec![text("hi"), Value::Number(5)]).unwrap();
    assert_eq!(
        &encoded[8..],
        "0000000000000000000000000000000000000000000000000000000000000040\
         0000000000000000000000000000000000000000000000000000000000000005\
         0000000000000000000000000000000000000000000000000000000000000002\
         6869000000000000000000000000000000000000000000000000000000000000"
    );
}

#[test]
fn nested_arrays_come_back() {
    let values = vec![Value::List(vec![
        Value::List(vec![Value::Number(1), Value::Number(2)]),
        Value::List(vec![Value::Number(3)]),
    ])];
    let encoded = encode_input(&coder(), "nested", &values).unwrap();
    let decoded = decode_input(&coder(), "nested", &encoded).unwrap();
    assert_eq!(
        decoded,
        vec![Value::List(vec![
            Value::List(vec![text("1"), text("2")]),
            Value::List(vec![text("3")]),
        ])]
    );
}

#[test]
fn two_values_for_three_inputs() {
    assert_eq!(
        encode_input(&coder(), "three", &vec![Value::Number(1), Value::Bool(true)]),
        Err(CoderError::ArityMismatch)
    );
}
