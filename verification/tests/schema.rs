use abi_coder::coder::{frame_call, Coder, FunctionSignature};
use abi_coder::conformance::{type_check, types_check};
use abi_coder::schema_text::{names_safe, MAX_NAME};
use abi_coder::types::{
    are_declarable, copy_type, copy_types, is_declarable, CoderError, ParameterType, TypedToken,
};

fn schema(functions: &str) -> String {
    format!("[{}]", functions)
}

fn function(name: &str, input: &str) -> String {
    format!(
        r#"{{"type":"function","name":"{}","inputs":[{{"name":"a","type":"{}"}}],"outputs":[],"stateMutability":"view"}}"#,
        name, input
    )
}

#[test]
fn a_schema_gives_the_input_types_of_its_functions() {
    let text = schema(&format!("{},{}", function("f", "uint8"), function("g", "string[3][]")));
    let coder = Coder::new(&text).unwrap();
    assert_eq!(coder.argument_types("f"), Ok(vec![ParameterType::Uint(8)]));
    assert_eq!(
        coder.argument_types("g"),
        Ok(vec![ParameterType::Array(Box::new(ParameterType::FixedArray(
            Box::new(ParameterType::String),
            3
        )))])
    );
    assert_eq!(coder.argument_types("h"), Err(CoderError::FunctionNotFound));
}

#[test]
fn every_kind_of_type_is_read() {
    let inputs = r#"[{"name":"a","type":"address"},{"name":"b","type":"bool"},{"name":"c","type":"string"},
      {"name":"d","type":"bytes"},{"name":"e","type":"bytes32"},{"name":"f","type":"uint256"},{"name":"g","type":"int16"},
      {"name":"h","type":"bool[]"},{"name":"i","type":"bool[2]"},
      {"name":"j","type":"tuple","components":[{"name":"x","type":"uint8"},{"name":"y","type":"bytes"}]}]"#;
    let text = format!(
        r#"[{{"type":"function","name":"all","inputs":{},"outputs":[],"stateMutability":"view"}}]"#,
        inputs
    );
    let coder = Coder::new(&text).unwrap();
    assert_eq!(
        coder.argument_types("all"),
        Ok(vec![
            ParameterType::Address,
            ParameterType::Bool,
            ParameterType::String,
            ParameterType::Bytes,
            ParameterType::FixedBytes(32),
            ParameterType::Uint(256),
            ParameterType::Int(16),
            ParameterType::Array(Box::new(ParameterType::Bool)),
            ParameterType::FixedArray(Box::new(ParameterType::Bool), 2),
            ParameterType::Tuple(vec![ParameterType::Uint(8), ParameterType::Bytes]),
        ])
    );
}

#[test]
fn the_first_of_two_functions_of_one_name_is_taken() {
    let text = schema(&format!("{},{}", function("f", "bool"), function("f", "string")));
    let coder = Coder::new(&text).unwrap();
    assert_eq!(coder.argument_types("f"), Ok(vec![ParameterType::Bool]));
}

#[test]
fn text_that_is_no_schema_is_turned_down() {
    assert!(matches!(Coder::new("not json"), Err(CoderError::SchemaParse)));
    assert!(matches!(Coder::new(""), Err(CoderError::SchemaParse)));
    assert!(matches!(Coder::new("{\"a\":1}"), Err(CoderError::SchemaParse)));
    assert!(Coder::new("[]").is_ok());
}

#[test]
fn a_schema_with_a_type_that_may_not_be_declared_is_turned_down() {
    assert!(matches!(Coder::new(&schema(&function("f", "uint7"))), Err(CoderError::SchemaParse)));
    assert!(matches!(Coder::new(&schema(&function("f", "uint264"))), Err(CoderError::SchemaParse)));
    assert!(matches!(Coder::new(&schema(&function("f", "int0"))), Err(CoderError::SchemaParse)));
    assert!(matches!(Coder::new(&schema(&function("f", "bool[0]"))), Err(CoderError::SchemaParse)));
    assert!(Coder::new(&schema(&function("f", "uint8"))).is_ok());
    assert!(Coder::new(&schema(&function("f", "int256"))).is_ok());
}

#[test]
fn types_that_may_be_declared() {
    assert!(is_declarable(&ParameterType::Uint(8)));
    assert!(is_declarable(&ParameterType::Uint(256)));
    assert!(!is_declarable(&ParameterType::Uint(0)));
    assert!(!is_declarable(&ParameterType::Uint(12)));
    assert!(!is_declarable(&ParameterType::Int(257)));
    assert!(!is_declarable(&ParameterType::Int(264)));
    assert!(is_declarable(&ParameterType::FixedBytes(0)));
    assert!(is_declarable(&ParameterType::Array(Box::new(ParameterType::Int(64)))));
    assert!(!is_declarable(&ParameterType::Array(Box::new(ParameterType::Int(65)))));
    assert!(!is_declarable(&ParameterType::FixedArray(Box::new(ParameterType::Bool), 0)));
    assert!(!is_declarable(&ParameterType::Tuple(vec![])));
    assert!(!is_declarable(&ParameterType::Tuple(vec![ParameterType::Bool, ParameterType::Uint(9)])));
    assert!(are_declarable(&vec![ParameterType::Bool, ParameterType::String]));
    assert!(!are_declarable(&vec![ParameterType::Bool, ParameterType::Uint(1)]));
    assert!(are_declarable(&vec![]));
}

#[test]
fn a_copy_of_a_type_is_equal_to_it() {
    let ty = ParameterType::Tuple(vec![
        ParameterType::Array(Box::new(ParameterType::Uint(8))),
        ParameterType::FixedArray(Box::new(ParameterType::FixedBytes(4)), 3),
        ParameterType::Address,
    ]);
    assert_eq!(copy_type(&ty), ty);
    let types = vec![ParameterType::Bool, ParameterType::Int(8)];
    assert_eq!(copy_types(&types), types);
}

#[test]
fn tokens_are_held_to_the_shapes_of_types() {
    let w = [0u8; 32];
    assert!(type_check(&TypedToken::Uint(w), &ParameterType::Uint(8)));
    assert!(!type_check(&TypedToken::Uint(w), &ParameterType::Int(8)));
    assert!(!type_check(&TypedToken::Bool(true), &ParameterType::String));
    assert!(type_check(&TypedToken::FixedBytes(vec![1, 2]), &ParameterType::FixedBytes(2)));
    assert!(type_check(&TypedToken::FixedBytes(vec![1]), &ParameterType::FixedBytes(2)));
    assert!(!type_check(&TypedToken::FixedBytes(vec![1, 2, 3]), &ParameterType::FixedBytes(2)));
    let array = ParameterType::Array(Box::new(ParameterType::Bool));
    assert!(type_check(&TypedToken::Array(vec![]), &array));
    assert!(type_check(&TypedToken::Array(vec![TypedToken::Bool(true)]), &array));
    assert!(!type_check(&TypedToken::Array(vec![TypedToken::Uint(w)]), &array));
    assert!(!type_check(&TypedToken::FixedArray(vec![TypedToken::Bool(true)]), &array));
    let fixed = ParameterType::FixedArray(Box::new(ParameterType::Bool), 2);
    assert!(type_check(&TypedToken::FixedArray(vec![TypedToken::Bool(true), TypedToken::Bool(true)]), &fixed));
    assert!(!type_check(&TypedToken::FixedArray(vec![TypedToken::Bool(true)]), &fixed));
    let tuple = ParameterType::Tuple(vec![ParameterType::Bool, ParameterType::Uint(8)]);
    assert!(type_check(&TypedToken::Tuple(vec![TypedToken::Bool(true), TypedToken::Uint(w)]), &tuple));
    assert!(!type_check(&TypedToken::Tuple(vec![TypedToken::Bool(true)]), &tuple));
    assert!(!type_check(&TypedToken::Tuple(vec![TypedToken::Uint(w), TypedToken::Bool(true)]), &tuple));
    assert!(types_check(&[TypedToken::Bool(true)], &vec![ParameterType::Bool]));
    assert!(!types_check(&[], &vec![ParameterType::Bool]));
    assert!(types_check(&[], &vec![]));
}

#[test]
fn tokens_are_encoded_against_the_declared_inputs() {
    let text = schema(&format!("{},{}", function("f", "uint8"), function("g", "bytes2")));
    let coder = Coder::new(&text).unwrap();
    let mut w = [0u8; 32];
    w[31] = 7;
    let encoded = coder.encode_input("f", &[TypedToken::Uint(w)]).unwrap();
    assert_eq!(encoded.len(), 8 + 64);
    assert_eq!(&encoded[8..], format!("{}07", "0".repeat(62)));
    assert_eq!(coder.encode_input("f", &[]), Err(CoderError::ArityMismatch));
    assert_eq!(
        coder.encode_input("f", &[TypedToken::Uint(w), TypedToken::Uint(w)]),
        Err(CoderError::ArityMismatch)
    );
    assert_eq!(coder.encode_input("f", &[TypedToken::Bool(true)]), Err(CoderError::TypeMismatch));
    assert_eq!(coder.encode_input("h", &[]), Err(CoderError::FunctionNotFound));
    assert_eq!(
        &coder.encode_input("g", &[TypedToken::FixedBytes(vec![0xab, 0xcd])]).unwrap()[8..],
        format!("abcd{}", "0".repeat(60))
    );
    assert_eq!(
        coder.decode_input("f", &encoded),
        Ok(vec![TypedToken::Uint(w)])
    );
    assert_eq!(coder.decode_output("f", "0x"), Ok(vec![]));
}

#[test]
fn the_selector_is_the_hash_of_the_signature() {
    let transfer = r#"{"type":"function","name":"transfer","inputs":[{"name":"to","type":"address"},{"name":"value","type":"uint256"}],"outputs":[{"name":"","type":"bool"}],"stateMutability":"nonpayable"}"#;
    let coder = Coder::new(&schema(transfer)).unwrap();
    let mut w = [0u8; 32];
    w[31] = 1;
    let encoded = coder
        .encode_input("transfer", &[TypedToken::Address([0u8; 20]), TypedToken::Uint(w)])
        .unwrap();
    assert_eq!(&encoded[..8], "a9059cbb");
}

fn signature(name: &str, inputs: Vec<ParameterType>, outputs: Vec<ParameterType>) -> FunctionSignature {
    FunctionSignature { name: name.to_string(), inputs, outputs }
}

#[test]
fn a_coder_is_made_of_signatures() {
    let coder = Coder::from_functions(vec![
        signature("f", vec![ParameterType::Uint(8)], vec![]),
        signature("g", vec![], vec![ParameterType::String]),
        signature("f", vec![ParameterType::Bool], vec![]),
    ])
    .unwrap();
    assert_eq!(coder.argument_types("f"), Ok(vec![ParameterType::Uint(8)]));
    assert_eq!(coder.argument_types("g"), Ok(vec![]));
    assert_eq!(coder.argument_types(""), Err(CoderError::FunctionNotFound));
    assert!(Coder::from_functions(vec![]).is_ok());
}

#[test]
fn signatures_with_types_that_may_not_be_declared_make_no_coder() {
    let refused = |inputs: Vec<ParameterType>, outputs: Vec<ParameterType>| {
        matches!(
            Coder::from_functions(vec![
                signature("ok", vec![ParameterType::Bool], vec![]),
                signature("f", inputs, outputs),
            ]),
            Err(CoderError::SchemaParse)
        )
    };
    assert!(refused(vec![ParameterType::Uint(7)], vec![]));
    assert!(refused(vec![], vec![ParameterType::Int(512)]));
    assert!(refused(vec![ParameterType::Tuple(vec![])], vec![]));
    assert!(refused(vec![], vec![ParameterType::FixedArray(Box::new(ParameterType::Bool), 0)]));
    assert!(!refused(vec![ParameterType::Uint(8)], vec![ParameterType::Int(256)]));
}

#[test]
fn a_call_is_framed_as_hexadecimal_text() {
    assert_eq!(frame_call(&[0xcd, 0xcd, 0x77, 0xc0], vec![]), "cdcd77c0");
    assert_eq!(frame_call(&[0, 1, 0xab, 0xff], vec![0x0f, 0xf0, 0x9a]), "0001abff0ff09a");
}

#[test]
fn a_lone_closing_bracket_is_turned_down() {
    assert!(matches!(Coder::new(&schema(&function("f", "]"))), Err(CoderError::SchemaParse)));
    assert!(matches!(Coder::new(&schema(&function("f", "uint8]"))), Err(CoderError::SchemaParse)));
    assert!(!names_safe("\"]\""));
    assert!(!names_safe("\"uint8]\""));
}

#[test]
fn a_number_before_a_bracket_that_nothing_opens_is_turned_down() {
    assert!(matches!(Coder::new(&schema(&function("f", "5]"))), Err(CoderError::SchemaParse)));
    assert!(matches!(Coder::new(&schema(&function("f", "+5]"))), Err(CoderError::SchemaParse)));
    assert!(matches!(Coder::new(&schema(&function("f", "uint8[2]3]"))), Err(CoderError::SchemaParse)));
    assert!(!names_safe("\"5]\""));
    assert!(!names_safe("\"+5]\""));
}

#[test]
fn a_name_of_another_alphabet_is_turned_down() {
    assert!(matches!(Coder::new(&schema(&function("f", "é]"))), Err(CoderError::SchemaParse)));
    assert!(matches!(Coder::new(&schema(&function("f", "é[]"))), Err(CoderError::SchemaParse)));
    assert!(matches!(Coder::new(&schema(&function("f", "(é)"))), Err(CoderError::SchemaParse)));
    assert!(matches!(Coder::new(&schema(&function("é", "bool"))), Err(CoderError::SchemaParse)));
    assert!(!names_safe("\"é[]\""));
    assert!(!names_safe("é"));
}

#[test]
fn a_bracket_written_as_an_escape_is_turned_down() {
    assert!(matches!(
        Coder::new(&schema(&function("f", "\\u005d"))),
        Err(CoderError::SchemaParse)
    ));
    assert!(matches!(
        Coder::new(&schema(&function("f", "uint8[\\u005d"))),
        Err(CoderError::SchemaParse)
    ));
    assert!(!names_safe("\"a\\nb\""));
    assert!(!names_safe("\\"));
}

#[test]
fn a_name_in_parentheses_is_turned_down() {
    assert!(matches!(
        Coder::new(&schema(&function("f", "(uint8,bool)"))),
        Err(CoderError::SchemaParse)
    ));
    assert!(matches!(
        Coder::new(&schema(&function("f", "(uint8,bool)[]"))),
        Err(CoderError::SchemaParse)
    ));
    assert!(!names_safe("\"(a)\""));
    assert!(!names_safe("\"(a)[]\""));
    assert!(names_safe("\"f(a) g\""));
}

#[test]
fn a_long_name_with_brackets_is_turned_down() {
    let brackets = "[]".repeat(MAX_NAME / 2);
    let long = format!("a{}", brackets);
    assert_eq!(long.len(), MAX_NAME + 1);
    assert!(!names_safe(&format!("\"{}\"", long)));
    assert!(matches!(Coder::new(&schema(&function("f", &long))), Err(CoderError::SchemaParse)));
    let fits = format!("{}", brackets);
    assert_eq!(fits.len(), MAX_NAME);
    assert!(names_safe(&format!("\"{}\"", fits)));
    let deep = format!("uint8{}", "[]".repeat(100_000));
    assert!(matches!(Coder::new(&schema(&function("f", &deep))), Err(CoderError::SchemaParse)));
    assert!(names_safe(&format!("\"{}\"", "a".repeat(100_000))));
}

#[test]
fn names_of_arrays_are_safe() {
    assert!(names_safe(""));
    assert!(names_safe("[]"));
    assert!(names_safe("\"uint256\""));
    assert!(names_safe("\"uint256[]\""));
    assert!(names_safe("\"uint256[3]\""));
    assert!(names_safe("\"bool[][5]\""));
    assert!(names_safe("\"tuple[2][]\""));
    assert!(names_safe("\"a[x]\""));
    assert!(names_safe("\"[]\""));
    assert!(names_safe("[{\"type\":\"function\",\"inputs\":[{\"type\":\"uint8[]\"}]}]"));
    assert!(!names_safe("[\"a\"]\"b\""));
    let text = schema(&format!("{},{}", function("f", "uint8[2][]"), function("g", "bytes32[]")));
    assert!(names_safe(&text));
    let coder = Coder::new(&text).unwrap();
    assert_eq!(
        coder.argument_types("f"),
        Ok(vec![ParameterType::Array(Box::new(ParameterType::FixedArray(
            Box::new(ParameterType::Uint(8)),
            2
        )))])
    );
}

#[test]
fn names_that_the_reader_turns_down_itself_give_no_schema() {
    assert!(matches!(Coder::new(&schema(&function("f", "uint8[x]"))), Err(CoderError::SchemaParse)));
    assert!(names_safe("\"uint8[2]3]\""));
    assert!(matches!(Coder::new(&schema(&function("f", "uintx"))), Err(CoderError::SchemaParse)));
    assert!(matches!(
        Coder::new(&schema(&function("f", "uint8[99999999999999999999999]"))),
        Err(CoderError::SchemaParse)
    ));
}

#[test]
fn tokens_come_back_from_their_encoding() {
    let text = schema(
        r#"{"type":"function","name":"f","inputs":[{"name":"a","type":"bytes4"},{"name":"b","type":"string[]"},{"name":"c","type":"int16[2]"},{"name":"d","type":"address"}],"outputs":[],"stateMutability":"view"}"#,
    );
    let coder = Coder::new(&text).unwrap();
    let mut minus = [0xffu8; 32];
    minus[31] = 0x85;
    let mut plus = [0u8; 32];
    plus[31] = 9;
    let tokens = vec![
        TypedToken::FixedBytes(vec![1, 2, 3, 4]),
        TypedToken::Array(vec![
            TypedToken::String("héllo".to_string()),
            TypedToken::String(String::new()),
        ]),
        TypedToken::FixedArray(vec![TypedToken::Int(minus), TypedToken::Int(plus)]),
        TypedToken::Address([0x5au8; 20]),
    ];
    let encoded = coder.encode_input("f", &tokens).unwrap();
    assert_eq!(coder.decode_input("f", &encoded), Ok(tokens.clone()));
    assert_eq!(coder.decode_input("f", &format!("0x{}", encoded)), Ok(tokens));
}

#[test]
fn an_encoded_call_is_a_selector_and_whole_words() {
    let text = schema(&format!("{},{}", function("f", "string"), function("g", "uint8[]")));
    let coder = Coder::new(&text).unwrap();
    for (name, token) in [
        ("f", TypedToken::String("a text of some length, longer than one word of bytes".to_string())),
        ("f", TypedToken::String(String::new())),
        ("g", TypedToken::Array(vec![TypedToken::Uint([0u8; 32]); 3])),
        ("g", TypedToken::Array(vec![])),
    ] {
        let encoded = coder.encode_input(name, &[token]).unwrap();
        assert!(encoded.len() >= 8);
        assert_eq!((encoded.len() - 8) % 64, 0);
        assert!(!encoded.starts_with("0x"));
        assert!(encoded.chars().all(|c| c.is_ascii_digit() || ('a'..='f').contains(&c)));
    }
}
