use std::collections::BTreeMap;
use web_rwkv::tokenizer::{StrOrBytes, Tokenizer, TokenizerError};

fn text(s: &str) -> StrOrBytes {
    StrOrBytes::Str(s.to_string())
}

fn bytes(b: &[u8]) -> StrOrBytes {
    StrOrBytes::Bytes(b.to_vec())
}

fn vocab(entries: Vec<(u32, StrOrBytes)>) -> BTreeMap<u32, StrOrBytes> {
    entries.into_iter().collect()
}

fn tokenizer() -> Tokenizer {
    let entries = vec![(1, text("a")), (2, text("ab")), (3, bytes(b"b")), (5, text("abcd"))];
    Tokenizer::new(&vocab(entries))
}

#[test]
fn encodes_greedily() {
    let t = tokenizer();
    assert_eq!(t.encode(b"aab").unwrap(), vec![1, 2]);
    assert_eq!(t.encode(b"abcdab").unwrap(), vec![5, 2]);
    assert_eq!(t.encode(b"ba").unwrap(), vec![3, 1]);
}

#[test]
fn empty_input_has_no_tokens() {
    assert_eq!(tokenizer().encode(b"").unwrap(), Vec::<u32>::new());
    assert_eq!(tokenizer().decode(&[]).unwrap(), Vec::<u8>::new());
}

#[test]
fn unknown_bytes_are_refused() {
    let t = tokenizer();
    assert!(matches!(t.encode(b"abz"), Err(TokenizerError::NoMatchingTokenFound)));
    assert!(matches!(t.encode(b"z"), Err(TokenizerError::NoMatchingTokenFound)));
}

#[test]
fn encode_into_keeps_what_matched_before() {
    let t = tokenizer();
    let mut out = vec![9];
    assert!(t.encode_into(b"abz", &mut out).is_err());
    assert_eq!(out, vec![9, 2]);
    assert!(t.encode_into(b"ab", &mut out).is_ok());
    assert_eq!(out, vec![9, 2, 2]);
}

#[test]
fn decode_gives_the_input_back() {
    let t = tokenizer();
    let input = b"aababcdb";
    let tokens = t.encode(input).unwrap();
    assert_eq!(t.decode(&tokens).unwrap(), input.to_vec());
}

#[test]
fn decoding_goes_by_concatenation() {
    let t = tokenizer();
    let mut joined = t.decode(&[1, 2]).unwrap();
    joined.extend(t.decode(&[5]).unwrap());
    assert_eq!(t.decode(&[1, 2, 5]).unwrap(), joined);
}

#[test]
fn numbers_out_of_range_are_refused() {
    let t = tokenizer();
    assert!(matches!(t.decode(&[1, 6, 7]), Err(TokenizerError::OutOfRangeToken(6))));
    let mut out = vec![0];
    assert!(t.decode_into(&[2, 6], &mut out).is_err());
    assert_eq!(out, b"\0ab".to_vec());
}

#[test]
fn numbers_without_a_token_decode_to_nothing() {
    assert_eq!(tokenizer().decode(&[4, 0, 1]).unwrap(), b"a".to_vec());
}

#[test]
fn patterns_are_text_or_bytes() {
    let t = Tokenizer::new(&vocab(vec![(7, text("\u{e9}")), (8, bytes(&[255, 1]))]));
    assert_eq!(t.encode("\u{e9}".as_bytes()).unwrap(), vec![7]);
    assert_eq!(t.encode(&[255, 1]).unwrap(), vec![8]);
}

#[test]
fn later_number_has_the_bytes() {
    let t = Tokenizer::new(&vocab(vec![(3, text("a")), (1, text("a"))]));
    assert_eq!(t.encode(b"a").unwrap(), vec![3]);
    assert_eq!(t.decode(&[1, 3]).unwrap(), b"aa".to_vec());
}

#[test]
fn lists_are_in_the_order_of_their_numbers() {
    let t = Tokenizer::from_list(vec![(b"x".to_vec(), 2), (b"x".to_vec(), 7), (b"xy".to_vec(), 9)]);
    assert_eq!(t.encode(b"xyx").unwrap(), vec![9, 7]);
    assert_eq!(t.decode(&[2, 7, 9]).unwrap(), b"xxxy".to_vec());
    assert_eq!(t.token_index_to_bytes().len(), 10);
}

#[test]
fn empty_vocabulary_has_one_empty_row() {
    let t = Tokenizer::new(&vocab(Vec::new()));
    assert_eq!(t.token_index_to_bytes().len(), 1);
    assert_eq!(t.decode(&[0]).unwrap(), Vec::<u8>::new());
    assert!(t.encode(b"a").is_err());
}

#[test]
fn two_bytes_of_255_have_no_place() {
    assert!(Tokenizer::checked_new(&vocab(vec![(1, bytes(&[255, 255]))])).is_none());
    let t = Tokenizer::checked_new(&vocab(vec![(1, bytes(&[255]))])).unwrap();
    assert!(t.checked_encode(&[255, 255]).is_none());
    assert_eq!(t.checked_encode(&[255]).unwrap().unwrap(), vec![1]);
    assert!(t.checked_encode(&[1]).unwrap().is_err());
}

#[test]
fn tables_are_as_long_as_they_should_be() {
    let t = tokenizer();
    assert_eq!(t.first_bytes_to_lengths().len(), 65535);
    assert_eq!(t.token_index_to_bytes().len(), 6);
    let key = u16::from_ne_bytes([b'a', b'b']) as usize;
    assert_eq!(t.first_bytes_to_lengths()[key], vec![4, 2, 1]);
    assert_eq!(t.first_bytes_to_lengths()[0], vec![1]);
    assert_eq!(t.bytes_to_token_index().len(), 4);
}

#[test]
fn clones_encode_alike() {
    let t = tokenizer();
    let u = t.clone();
    assert_eq!(t.encode(b"abcda").unwrap(), u.encode(b"abcda").unwrap());
    assert_eq!(u.decode(&[5]).unwrap(), b"abcd".to_vec());
}
