use web_rwkv::bpe::{
    AddedToken, BpeTokenizer, HfPatternObj, HfPreTokenizer, MergeEntry, TokenizerJson,
};
use web_rwkv::tokenizer::TokenizerError;

fn vocab(list: &[(&str, u32)]) -> Vec<(String, u32)> {
    list.iter().map(|(text, id)| (text.to_string(), *id)).collect()
}

fn json() -> TokenizerJson {
    TokenizerJson {
        vocab: vocab(&[
            ("l", 0),
            ("o", 1),
            ("w", 2),
            ("e", 3),
            ("r", 4),
            ("lo", 5),
            ("low", 6),
            ("er", 7),
            ("\u{120}", 8),
            ("\u{120}l", 9),
        ]),
        merges: vec![
            MergeEntry::Str("l o".to_string()),
            MergeEntry::Pair("lo".to_string(), "w".to_string()),
            MergeEntry::Str("e r".to_string()),
            MergeEntry::Str("nospace".to_string()),
            MergeEntry::Str("\u{120} l".to_string()),
        ],
        added_tokens: vec![AddedToken { id: 12, content: "<|end|>".to_string() }],
        pre_tokenizer: None,
    }
}

fn tokenizer() -> BpeTokenizer {
    BpeTokenizer::new(json()).unwrap()
}

fn split_by(regex: &str) -> Option<HfPreTokenizer> {
    Some(HfPreTokenizer {
        pattern: Some(HfPatternObj { regex: Some(regex.to_string()) }),
        pretokenizers: None,
    })
}

#[test]
fn merges_by_rank() {
    let t = tokenizer();
    assert_eq!(t.encode(b"lower").unwrap(), vec![6, 7]);
    assert_eq!(t.encode(b"low").unwrap(), vec![6]);
    assert_eq!(t.encode(b"wol").unwrap(), vec![2, 1, 0]);
}

#[test]
fn space_is_a_byte_of_its_own_letter() {
    let t = tokenizer();
    assert_eq!(BpeTokenizer::hf_decode_token("\u{120}l"), b" l".to_vec());
    // The pair of rank zero goes first, so the space stays alone.
    assert_eq!(t.encode(b"low low").unwrap(), vec![6, 8, 6]);
    assert_eq!(t.encode(b"w l").unwrap(), vec![2, 9]);
}

#[test]
fn parts_that_are_no_token_fall_back_to_bytes() {
    let mut parsed = json();
    parsed.vocab.retain(|(text, _)| text != "low");
    let t = BpeTokenizer::new(parsed).unwrap();
    assert_eq!(t.encode(b"low").unwrap(), vec![0, 1, 2]);
}

#[test]
fn bpe_unknown_bytes_are_refused() {
    let t = tokenizer();
    assert!(matches!(t.encode(b"lox"), Err(TokenizerError::NoMatchingTokenFound)));
    let mut out = Vec::new();
    assert!(t.bpe_encode_piece(b"lox", &mut out).is_err());
    assert_eq!(out, vec![5]);
    assert!(t.bpe_encode_piece(b"", &mut out).is_ok());
    assert_eq!(out, vec![5]);
}

#[test]
fn bpe_decode_gives_the_input_back() {
    let t = tokenizer();
    for input in ["lower low", "l o w", "er", ""] {
        let tokens = t.encode(input.as_bytes()).unwrap();
        assert_eq!(t.decode(&tokens).unwrap(), input.as_bytes().to_vec());
    }
}

#[test]
fn decode_refuses_numbers_out_of_range() {
    let t = tokenizer();
    assert_eq!(t.decode(&[12]).unwrap(), b"<|end|>".to_vec());
    assert_eq!(t.decode(&[10, 11]).unwrap(), Vec::<u8>::new());
    assert!(matches!(t.decode(&[0, 13]), Err(TokenizerError::OutOfRangeToken(13))));
}

#[test]
fn every_byte_has_a_letter() {
    assert_eq!(BpeTokenizer::hf_char_to_byte('!'), 33);
    assert_eq!(BpeTokenizer::hf_char_to_byte('~'), 126);
    assert_eq!(BpeTokenizer::hf_char_to_byte('\u{100}'), 0);
    assert_eq!(BpeTokenizer::hf_char_to_byte('\u{120}'), 32);
    assert_eq!(BpeTokenizer::hf_char_to_byte('\u{121}'), 127);
    assert_eq!(BpeTokenizer::hf_char_to_byte('\u{142}'), 160);
    assert_eq!(BpeTokenizer::hf_char_to_byte('\u{143}'), 173);
    assert_eq!(BpeTokenizer::hf_char_to_byte('\u{ff}'), 255);
    assert_eq!(BpeTokenizer::hf_char_to_byte('\u{1f600}'), 173);
}

#[test]
fn pieces_come_from_the_pattern() {
    let mut parsed = json();
    parsed.pre_tokenizer = split_by("lo|w");
    let t = BpeTokenizer::new(parsed).unwrap();
    assert_eq!(t.encode(b"low").unwrap(), vec![5, 2]);
    // What the pattern leaves out is dropped.
    assert_eq!(t.encode(b"loew").unwrap(), vec![5, 2]);
}

#[test]
fn pieces_are_merged_on_their_own() {
    let t = tokenizer();
    let pieces = vec!["lo".to_string(), "w".to_string()];
    assert_eq!(t.encode_pieces(&pieces).unwrap(), vec![5, 2]);
    let pieces = vec!["x".to_string()];
    assert!(t.encode_pieces(&pieces).is_err());
}

#[test]
fn first_pattern_of_a_sequence_is_taken() {
    let nested = Some(HfPreTokenizer {
        pattern: Some(HfPatternObj { regex: None }),
        pretokenizers: Some(vec![
            HfPreTokenizer { pattern: None, pretokenizers: None },
            split_by("a").unwrap(),
            split_by("b").unwrap(),
        ]),
    });
    assert_eq!(BpeTokenizer::extract_pattern(&nested), Some("a".to_string()));
    assert_eq!(BpeTokenizer::extract_pattern(&None), None);
    assert_eq!(BpeTokenizer::extract_pattern(&split_by("c")), Some("c".to_string()));
}

#[test]
fn lookaheads_are_stripped() {
    assert_eq!(BpeTokenizer::strip_lookaheads("a|\\s+(?!\\S)|\\s+"), "a|\\s+");
    assert_eq!(BpeTokenizer::strip_lookaheads("\\s+(?!\\s)|\\s+(?!\\S)|b"), "b");
    assert_eq!(BpeTokenizer::strip_lookaheads("\\s+"), "\\s+");
}

#[test]
fn bad_pattern_is_refused() {
    let mut parsed = json();
    parsed.pre_tokenizer = split_by("(");
    assert!(matches!(BpeTokenizer::new(parsed), Err(TokenizerError::NoMatchingTokenFound)));
}

#[test]
fn unreadable_files_are_told_apart() {
    let mut parsed = json();
    parsed.vocab.push((" ".to_string(), 20));
    assert!(BpeTokenizer::checked_new(parsed).is_none());
    let mut parsed = json();
    parsed.merges.push(MergeEntry::Str("a  b".to_string()));
    assert!(BpeTokenizer::checked_new(parsed).is_none());
    let mut parsed = json();
    parsed.added_tokens.push(AddedToken { id: u32::MAX, content: "x".to_string() });
    assert!(BpeTokenizer::checked_new(parsed).is_none());
    let mut parsed = json();
    parsed.pre_tokenizer = split_by("(");
    assert!(matches!(
        BpeTokenizer::checked_new(parsed),
        Some(Err(TokenizerError::NoMatchingTokenFound))
    ));
    let t = BpeTokenizer::checked_new(json()).unwrap().unwrap();
    assert_eq!(t.encode(b"low").unwrap(), vec![6]);
}

#[test]
fn input_that_is_no_text_is_read_with_replacements() {
    let mut parsed = json();
    parsed.added_tokens.push(AddedToken { id: 13, content: "\u{fffd}".to_string() });
    parsed.merges.push(MergeEntry::Str("\u{ef} \u{bf}".to_string()));
    parsed.merges.push(MergeEntry::Str("\u{ef}\u{bf} \u{bd}".to_string()));
    let t = BpeTokenizer::new(parsed).unwrap();
    assert_eq!(t.encode(&[0xff]).unwrap(), vec![13]);
}

#[test]
fn bpe_clones_encode_alike() {
    let t = tokenizer();
    let u = t.clone();
    assert_eq!(u.encode(b"lower").unwrap(), vec![6, 7]);
    assert_eq!(u.decode(&[6]).unwrap(), b"low".to_vec());
}

#[test]
fn known_bytes_come_back_from_any_text() {
    let mut vocab: Vec<(String, u32)> = Vec::new();
    let mut next = 256u32;
    for b in 0..=255u8 {
        let own = matches!(b, 33..=126 | 161..=172 | 174..=255);
        let letter = if own { b as u32 } else { next };
        if !own {
            next += 1;
        }
        vocab.push((char::from_u32(letter).unwrap().to_string(), b as u32));
    }
    let merges = vec![MergeEntry::Str("l l".to_string())];
    vocab.push(("ll".to_string(), 256));
    let t = BpeTokenizer::new(TokenizerJson {
        vocab,
        merges,
        added_tokens: Vec::new(),
        pre_tokenizer: None,
    })
    .unwrap();
    for input in ["Hello, w\u{f6}rld!\n\n  12345 \u{1f600}\t it's \0 all\r\n", " \u{3000} ", "\u{301}a"] {
        let tokens = t.encode(input.as_bytes()).unwrap();
        assert_eq!(t.decode(&tokens).unwrap(), input.as_bytes().to_vec());
    }
    assert_eq!(t.encode(b"all").unwrap(), vec![97, 256]);
}
