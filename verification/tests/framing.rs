use abi_coder::framing::{remove_bytes4, remove_hex_prefix};
use abi_coder::types::CoderError;

#[test]
fn the_prefix_is_taken_off_once() {
    assert_eq!(remove_hex_prefix("0xabcd"), Ok("abcd"));
    assert_eq!(remove_hex_prefix("abcd"), Ok("abcd"));
    assert_eq!(remove_hex_prefix("0x"), Ok(""));
    assert_eq!(remove_hex_prefix("0x0x12"), Ok("0x12"));
    assert_eq!(remove_hex_prefix("0Xab"), Ok("0Xab"));
    assert_eq!(remove_hex_prefix("x0ab"), Ok("x0ab"));
}

#[test]
fn text_shorter_than_a_prefix_is_malformed() {
    assert_eq!(remove_hex_prefix(""), Err(CoderError::MalformedInput));
    assert_eq!(remove_hex_prefix("0"), Err(CoderError::MalformedInput));
    assert_eq!(remove_hex_prefix("é"), Err(CoderError::MalformedInput));
}

#[test]
fn text_of_other_alphabets_is_cut_by_characters() {
    assert_eq!(remove_hex_prefix("0xéé"), Ok("éé"));
    assert_eq!(remove_hex_prefix("éé"), Ok("éé"));
    assert_eq!(remove_bytes4("0xéééééééérest"), Ok("rest"));
}

#[test]
fn the_selector_is_eight_characters() {
    assert_eq!(remove_bytes4("0xcdcd77c0ff"), Ok("ff"));
    assert_eq!(remove_bytes4("cdcd77c0ff"), Ok("ff"));
    assert_eq!(remove_bytes4("0xcdcd77c0"), Ok(""));
    assert_eq!(remove_bytes4("cdcd77c0"), Ok(""));
}

#[test]
fn text_shorter_than_a_selector_is_malformed() {
    assert_eq!(remove_bytes4("0xcdcd77c"), Err(CoderError::MalformedInput));
    assert_eq!(remove_bytes4("cdcd77c"), Err(CoderError::MalformedInput));
    assert_eq!(remove_bytes4("0x"), Err(CoderError::MalformedInput));
    assert_eq!(remove_bytes4(""), Err(CoderError::MalformedInput));
}
