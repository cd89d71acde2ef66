use abi_coder::codec::{token_bound, tokens_bound};
use abi_coder::types::TypedToken;
use abi_coder::words::{fits_signed, fits_unsigned, negate_word, signed_word, word_from_magnitude};

fn word(last: u8) -> [u8; 32] {
    let mut w = [0u8; 32];
    w[31] = last;
    w
}

#[test]
fn a_number_fills_the_end_of_its_word() {
    assert_eq!(word_from_magnitude(0), [0u8; 32]);
    assert_eq!(word_from_magnitude(255), word(255));
    let mut w = [0u8; 32];
    w[24..].copy_from_slice(&0x0123_4567_89ab_cdefu64.to_be_bytes());
    assert_eq!(word_from_magnitude(0x0123_4567_89ab_cdef), w);
    let mut max = [0u8; 32];
    max[24..].copy_from_slice(&[0xff; 8]);
    assert_eq!(word_from_magnitude(u64::MAX), max);
}

#[test]
fn negation_is_twos_complement() {
    assert_eq!(negate_word(&[0u8; 32]), [0u8; 32]);
    assert_eq!(negate_word(&word(1)), [0xffu8; 32]);
    assert_eq!(negate_word(&[0xffu8; 32]), word(1));
    let mut w = [0xffu8; 32];
    w[31] = 0;
    let mut e = [0u8; 32];
    e[30] = 1;
    assert_eq!(negate_word(&e), w);
    let mut lowest = [0u8; 32];
    lowest[0] = 0x80;
    assert_eq!(negate_word(&lowest), lowest);
}

#[test]
fn a_signed_word_needs_room_for_its_sign() {
    assert_eq!(signed_word(&word(5), false), Some(word(5)));
    let mut minus_five = [0xffu8; 32];
    minus_five[31] = 0xfb;
    assert_eq!(signed_word(&word(5), true), Some(minus_five));
    assert_eq!(signed_word(&[0u8; 32], true), Some([0u8; 32]));
    let mut top = [0u8; 32];
    top[0] = 0x80;
    assert_eq!(signed_word(&top, false), None);
    assert_eq!(signed_word(&top, true), Some(top));
    let mut over = top;
    over[31] = 1;
    assert_eq!(signed_word(&over, true), None);
    assert_eq!(signed_word(&[0xffu8; 32], true), None);
}

#[test]
fn unsigned_widths() {
    assert!(fits_unsigned(&word(255), 8));
    let mut w = [0u8; 32];
    w[30] = 1;
    assert!(!fits_unsigned(&w, 8));
    assert!(fits_unsigned(&w, 16));
    assert!(fits_unsigned(&[0xffu8; 32], 256));
    assert!(!fits_unsigned(&[0xffu8; 32], 248));
    assert!(fits_unsigned(&[0u8; 32], 8));
}

#[test]
fn signed_widths() {
    assert!(fits_signed(&word(127), 8));
    assert!(!fits_signed(&word(128), 8));
    assert!(fits_signed(&word(128), 16));
    assert!(fits_signed(&[0xffu8; 32], 8));
    let mut w = [0xffu8; 32];
    w[31] = 0x80;
    assert!(fits_signed(&w, 8));
    w[31] = 0x7f;
    assert!(!fits_signed(&w, 8));
    assert!(fits_signed(&w, 16));
    let mut lowest = [0u8; 32];
    lowest[0] = 0x80;
    assert!(fits_signed(&lowest, 256));
    assert!(!fits_signed(&lowest, 248));
}

#[test]
fn bounds_on_the_length_of_a_layout() {
    assert_eq!(token_bound(&TypedToken::Bool(true)), Some(32));
    assert_eq!(token_bound(&TypedToken::Address([0u8; 20])), Some(32));
    assert_eq!(token_bound(&TypedToken::Bytes(vec![0u8; 5])), Some(101));
    assert_eq!(token_bound(&TypedToken::String("é".to_string())), Some(98));
    assert_eq!(token_bound(&TypedToken::FixedBytes(vec![0u8; 4])), Some(36));
    assert_eq!(token_bound(&TypedToken::Array(vec![TypedToken::Bool(true)])), Some(96));
    assert_eq!(token_bound(&TypedToken::Tuple(vec![TypedToken::Bool(true)])), Some(64));
    assert_eq!(token_bound(&TypedToken::FixedArray(vec![])), Some(32));
    assert_eq!(tokens_bound(&[TypedToken::Bool(true), TypedToken::Bool(false)]), Some(64));
    assert_eq!(tokens_bound(&[]), Some(0));
}
