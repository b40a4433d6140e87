//! The byte-level BPE tokenizer of HuggingFace `tokenizer.json` files.

use ahash::AHashMap;
use regex::Regex;
use vstd::prelude::*;
use vstd::utf8::*;

use crate::hash::{
    merge_map_clone, merge_map_get, merge_map_insert, merge_map_new, token_map_clone, token_map_get,
    token_map_insert, token_map_new, token_map_pairs,
};
use crate::pattern::{
    compile, compiles, default_pattern, find_all, flat_text, matches_in, regex_clone, regex_source,
    texts,
};
use crate::text::{
    begins_with, find_char, first_index, head, join3, lossy_text, read_lossy, remove_all, tail,
    to_chars, without,
};
use crate::tokenizer::{
    decode_concatenates, in_range, join_rows, joined, rows, vocab_encoder, Entry, TokenizerError,
};

verus! {

/// The pre-tokenizer part of a `tokenizer.json` file.
#[derive(Debug)]
pub struct HfPreTokenizer {
    /// The pattern that splits a text.
    pub pattern: Option<HfPatternObj>,
    /// The parts of a sequence of pre-tokenizers.
    pub pretokenizers: Option<Vec<HfPreTokenizer>>,
}

/// A pattern of a pre-tokenizer.
#[derive(Debug)]
pub struct HfPatternObj {
    /// The pattern as a regular expression, if it is one.
    pub regex: Option<String>,
}

/// A merge rule, in either of its two forms.
#[derive(Debug)]
pub enum MergeEntry {
    /// The two sides in one string, with a space between them.
    Str(String),
    /// The two sides.
    Pair(String, String),
}

/// A token outside of the model's own vocabulary.
#[derive(Debug)]
pub struct AddedToken {
    /// The number of the token.
    pub id: u32,
    /// Its text.
    pub content: String,
}

/// The parts of a `tokenizer.json` file that make a BPE tokenizer.
#[derive(Debug)]
pub struct TokenizerJson {
    /// The vocabulary, from byte-level token texts to token numbers.
    pub vocab: Vec<(String, u32)>,
    /// The merge rules, the most important first.
    pub merges: Vec<MergeEntry>,
    /// The added tokens.
    pub added_tokens: Vec<AddedToken>,
    /// The pre-tokenizer.
    pub pre_tokenizer: Option<HfPreTokenizer>,
}

/// The characters that stand for bytes in a byte-level vocabulary, and all above.
pub open spec fn is_hf_char(c: char) -> bool {
    ||| 33 <= c as u32 <= 126
    ||| 161 <= c as u32 <= 172
    ||| 174 <= c as u32
}

/// The byte that a character stands for. The printable characters of ASCII and
/// Latin-1 stand for themselves; those from U+0100 on stand for the bytes 0 to 32,
/// 127 to 160 and 173.
pub open spec fn hf_byte(c: char) -> u8 {
    if c as u32 <= 255 {
        c as u8
    } else if c as u32 - 256 <= 32 {
        (c as u32 - 256) as u8
    } else if c as u32 - 256 <= 66 {
        (c as u32 - 256 - 33 + 127) as u8
    } else {
        173
    }
}

/// The character that stands for a byte.
pub open spec fn hf_char(b: u8) -> char {
    if 33 <= b <= 126 || 161 <= b <= 172 || 174 <= b {
        b as char
    } else if b <= 32 {
        (256 + b as u32) as char
    } else if b <= 160 {
        (256 + 33 + (b - 127)) as char
    } else {
        (256 + 67) as char
    }
}

/// Every byte has a character of its own, from which it is read back.
pub proof fn hf_bytes_round_trip(b: u8)
    ensures
        is_hf_char(hf_char(b)),
        hf_byte(hf_char(b)) == b,
{
}

/// Every character can be read as a byte.
pub open spec fn is_hf_text(s: Seq<char>) -> bool {
    forall|i: int| 0 <= i < s.len() ==> is_hf_char(#[trigger] s[i])
}

/// The bytes that a byte-level token text stands for.
pub open spec fn hf_bytes(s: Seq<char>) -> Seq<u8> {
    s.map_values(|c: char| hf_byte(c))
}

/// The text of a merge rule.
pub open spec fn merge_text(entry: MergeEntry) -> Seq<char> {
    match entry {
        MergeEntry::Str(s) => s@,
        MergeEntry::Pair(a, b) => a@ + " "@ + b@,
    }
}

/// The two sides of a merge rule, if its text has a space.
pub open spec fn merge_sides(text: Seq<char>) -> Option<(Seq<char>, Seq<char>)> {
    let k = first_index(text, ' ') as int;
    if k < text.len() {
        Some((text.take(k), text.skip(k + 1)))
    } else {
        None
    }
}

/// The texts of the merge rules.
pub open spec fn merge_texts(merges: Seq<MergeEntry>) -> Seq<Seq<char>> {
    merges.map_values(|entry: MergeEntry| merge_text(entry))
}

/// From pairs of byte strings to the place of the last rule that merges them.
pub open spec fn merge_ranks_of(texts: Seq<Seq<char>>) -> Map<(Seq<u8>, Seq<u8>), usize>
    decreases texts.len(),
{
    if texts.len() == 0 {
        Map::empty()
    } else {
        let earlier = merge_ranks_of(texts.drop_last());
        match merge_sides(texts.last()) {
            Some((left, right)) => earlier.insert(
                (hf_bytes(left), hf_bytes(right)),
                (texts.len() - 1) as usize,
            ),
            None => earlier,
        }
    }
}

/// The vocabulary as token bytes and token numbers, the added tokens last.
pub open spec fn token_list(json: TokenizerJson) -> Seq<Entry> {
    json.vocab@.map_values(|e: (String, u32)| (hf_bytes(e.0@), e.1)) + json.added_tokens@.map_values(
        |t: AddedToken| (encode_utf8(t.content@), t.id),
    )
}

/// The largest token number, or zero.
pub open spec fn top_number(list: Seq<Entry>) -> u32
    decreases list.len(),
{
    if list.len() == 0 {
        0
    } else if list.last().1 > top_number(list.drop_last()) {
        list.last().1
    } else {
        top_number(list.drop_last())
    }
}

/// The first pattern in a pre-tokenizer: its own, or else that of its parts in turn.
pub open spec fn pattern_of(p: HfPreTokenizer) -> Option<Seq<char>>
    decreases p,
{
    if p.pattern is Some && p.pattern->Some_0.regex is Some {
        Some(p.pattern->Some_0.regex->Some_0@)
    } else if p.pretokenizers is Some {
        first_pattern(p.pretokenizers->Some_0@)
    } else {
        None
    }
}

/// The first pattern in a sequence of pre-tokenizers.
pub open spec fn first_pattern(parts: Seq<HfPreTokenizer>) -> Option<Seq<char>>
    decreases parts,
{
    if parts.len() == 0 {
        None
    } else {
        match pattern_of(parts[0]) {
            Some(pattern) => Some(pattern),
            None => first_pattern(parts.skip(1)),
        }
    }
}

/// A pattern without the look-ahead alternatives for trailing white space.
pub open spec fn stripped(pattern: Seq<char>) -> Seq<char> {
    without(without(pattern, "\\s+(?!\\S)|"@), "\\s+(?!\\s)|"@)
}

/// The pattern that a tokenizer splits texts with.
pub open spec fn split_pattern(json: TokenizerJson) -> Seq<char> {
    let given = match json.pre_tokenizer {
        Some(p) => pattern_of(p),
        None => None,
    };
    stripped(
        match given {
            Some(pattern) => pattern,
            None => default_pattern(),
        },
    )
}

/// A merge rule without a character that is no byte.
pub open spec fn is_readable_merge(text: Seq<char>) -> bool {
    merge_sides(text) matches Some((left, right)) ==> is_hf_text(left) && is_hf_text(right)
}

/// A file whose token texts are byte-level, and whose token numbers can be counted
/// in 32 bits.
pub open spec fn is_readable(json: TokenizerJson) -> bool {
    &&& forall|i: int| 0 <= i < json.vocab@.len() ==> is_hf_text((#[trigger] json.vocab@[i]).0@)
    &&& forall|i: int|
        0 <= i < json.merges@.len() ==> is_readable_merge(merge_text(#[trigger] json.merges@[i]))
    &&& top_number(token_list(json)) < u32::MAX
}

/// The decoder has for each token number some bytes with that number, and no bytes
/// for a number that no bytes have.
pub open spec fn inverts(decoder: Seq<Seq<u8>>, encoder: Map<Seq<u8>, u32>) -> bool {
    &&& forall|b: Seq<u8>| #[trigger]
        encoder.contains_key(b) ==> {
            let id = encoder[b] as int;
            id < decoder.len() && encoder.contains_key(decoder[id]) && encoder[decoder[id]] == id
        }
    &&& forall|id: int|
        0 <= id < decoder.len() ==> (#[trigger] decoder[id] == Seq::<u8>::empty() || (
        encoder.contains_key(decoder[id]) && encoder[decoder[id]] == id))
}

/// The pieces of one byte.
pub open spec fn singles(piece: Seq<u8>) -> Seq<Seq<u8>> {
    Seq::new(piece.len(), |i: int| seq![piece[i]])
}

/// The rank of the pair at a position, if there is a rule for it.
pub open spec fn rank_at(
    ranks: Map<(Seq<u8>, Seq<u8>), usize>,
    parts: Seq<Seq<u8>>,
    i: int,
) -> Option<usize> {
    if ranks.contains_key((parts[i], parts[i + 1])) && ranks[(parts[i], parts[i + 1])]
        < usize::MAX {
        Some(ranks[(parts[i], parts[i + 1])])
    } else {
        None
    }
}

/// The pair at a position is the one to merge: its rank is the lowest, and it is
/// the leftmost with that rank.
pub open spec fn is_best(
    ranks: Map<(Seq<u8>, Seq<u8>), usize>,
    parts: Seq<Seq<u8>>,
    i: int,
) -> bool {
    &&& 0 <= i < parts.len() - 1
    &&& rank_at(ranks, parts, i) is Some
    &&& forall|j: int|
        0 <= j < parts.len() - 1 && (#[trigger] rank_at(ranks, parts, j)) is Some ==> if j < i {
            rank_at(ranks, parts, i)->Some_0 < rank_at(ranks, parts, j)->Some_0
        } else {
            rank_at(ranks, parts, i)->Some_0 <= rank_at(ranks, parts, j)->Some_0
        }
}

/// The parts with the pair at a position made one.
pub open spec fn merged(parts: Seq<Seq<u8>>, i: int) -> Seq<Seq<u8>> {
    parts.remove(i + 1).update(i, parts[i] + parts[i + 1])
}

/// The parts after all merges.
pub open spec fn fully_merged(
    ranks: Map<(Seq<u8>, Seq<u8>), usize>,
    parts: Seq<Seq<u8>>,
) -> Seq<Seq<u8>>
    decreases parts.len(),
{
    if exists|i: int| is_best(ranks, parts, i) {
        let i = choose|i: int| is_best(ranks, parts, i);
        if 0 <= i < parts.len() - 1 {
            fully_merged(ranks, merged(parts, i))
        } else {
            parts
        }
    } else {
        parts
    }
}

/// The byte strings to look up for the parts: a part that is no token falls back to
/// its bytes.
pub open spec fn atoms(encoder: Map<Seq<u8>, u32>, parts: Seq<Seq<u8>>) -> Seq<Seq<u8>>
    decreases parts.len(),
{
    if parts.len() == 0 {
        Seq::empty()
    } else {
        let last = parts.last();
        atoms(encoder, parts.drop_last()) + (if encoder.contains_key(last) {
            seq![last]
        } else {
            singles(last)
        })
    }
}

/// Every byte string has a token number.
pub open spec fn all_known(encoder: Map<Seq<u8>, u32>, parts: Seq<Seq<u8>>) -> bool {
    forall|i: int| 0 <= i < parts.len() ==> encoder.contains_key(#[trigger] parts[i])
}

/// The token numbers of the byte strings, up to the first that has none.
pub open spec fn known_numbers(encoder: Map<Seq<u8>, u32>, parts: Seq<Seq<u8>>) -> Seq<u32>
    decreases parts.len(),
{
    if parts.len() == 0 || !encoder.contains_key(parts[0]) {
        Seq::empty()
    } else {
        seq![encoder[parts[0]]] + known_numbers(encoder, parts.skip(1))
    }
}

/// Byte strings one after the other.
pub open spec fn flat(parts: Seq<Seq<u8>>) -> Seq<u8>
    decreases parts.len(),
{
    if parts.len() == 0 {
        Seq::empty()
    } else {
        flat(parts.drop_last()) + parts.last()
    }
}

/// A BPE tokenizer.
///
/// It splits a text with a regular expression, and merges the bytes of each piece
/// by its merge rules, the lowest rank first.
#[derive(Debug)]
pub struct BpeTokenizer {
    /// Token bytes -> token number.
    encoder: AHashMap<Vec<u8>, u32>,
    /// Token number -> token bytes.
    decoder: Vec<Vec<u8>>,
    /// Merge priority: (left, right) -> rank (lower = higher priority).
    merge_ranks: AHashMap<(Vec<u8>, Vec<u8>), usize>,
    /// The pattern that splits a text.
    pat: Regex,
}

impl BpeTokenizer {
    /// From token bytes to token numbers.
    pub closed spec fn encoder(&self) -> Map<Seq<u8>, u32> {
        crate::hash::token_map(self.encoder)
    }

    /// From token numbers to token bytes.
    pub closed spec fn decoder(&self) -> Seq<Seq<u8>> {
        rows(self.decoder@)
    }

    /// The ranks of the merge rules.
    pub closed spec fn ranks(&self) -> Map<(Seq<u8>, Seq<u8>), usize> {
        crate::hash::merge_map(self.merge_ranks)
    }

    /// The pattern that splits a text.
    pub closed spec fn pattern(&self) -> Seq<char> {
        regex_source(self.pat)
    }

    /// What holds of every BPE tokenizer.
    #[verifier::type_invariant]
    pub open spec fn wf(&self) -> bool {
        inverts(self.decoder(), self.encoder())
    }

    /// The byte strings that are looked up for a piece.
    pub open spec fn piece_atoms(&self, piece: Seq<u8>) -> Seq<Seq<u8>> {
        atoms(self.encoder(), fully_merged(self.ranks(), singles(piece)))
    }

    /// The byte strings that are looked up for a sequence of pieces.
    pub open spec fn all_atoms(&self, pieces: Seq<Seq<char>>) -> Seq<Seq<u8>>
        decreases pieces.len(),
    {
        if pieces.len() == 0 {
            Seq::empty()
        } else {
            self.all_atoms(pieces.drop_last()) + self.piece_atoms(encode_utf8(pieces.last()))
        }
    }

    /// Makes the tokenizer of a `tokenizer.json` file.
    pub fn new(parsed: TokenizerJson) -> (r: Result<Self, TokenizerError>)
        requires
            is_readable(parsed),
        ensures
            r is Ok <==> compiles(split_pattern(parsed)),
            parsed.pre_tokenizer is None ==> split_pattern(parsed) == default_pattern() && r is Ok,
            r matches Ok(t) ==> {
                &&& t.encoder() == vocab_encoder(token_list(parsed))
                &&& t.decoder().len() == top_number(token_list(parsed)) + 1
                &&& inverts(t.decoder(), t.encoder())
                &&& t.ranks() == merge_ranks_of(merge_texts(parsed.merges@))
                &&& t.pattern() == split_pattern(parsed)
            },
            r matches Err(e) ==> e is NoMatchingTokenFound,
    {
        let (encoder, top) = Self::build_encoder(&parsed);
        proof {
            lemma_top_number(token_list(parsed));
        }
        let decoder = Self::build_decoder(&encoder, top);
        let merge_ranks = Self::build_merge_ranks(&parsed.merges);
        let given = Self::extract_pattern(&parsed.pre_tokenizer);
        let pattern = match given {
            Some(pattern) => pattern,
            None =>
                "(?i:'s|'t|'re|'ve|'m|'ll|'d)|[^\\r\\n\\p{L}\\p{N}]?\\p{L}+|\\p{N}{1,3}| ?[^\\s\\p{L}\\p{N}]+[\\r\\n]*|\\s*[\\r\\n]+|\\s+".to_owned(),
        };
        let pattern = Self::strip_lookaheads(pattern.as_str());
        proof {
            default_pattern_stays();
        }
        match compile(pattern.as_str()) {
            Ok(pat) => Ok(BpeTokenizer { encoder, decoder, merge_ranks, pat }),
            Err(_) => Err(TokenizerError::NoMatchingTokenFound),
        }
    }

    /// As `new`, for any file: `None` if a token text or a side of a merge rule is not
    /// byte-level, or a token has the largest number of 32 bits.
    pub fn checked_new(parsed: TokenizerJson) -> (r: Option<Result<Self, TokenizerError>>)
        ensures
            r is Some <==> is_readable(parsed),
            r is Some && parsed.pre_tokenizer is None ==> r->Some_0 is Ok,
            r matches Some(Ok(t)) ==> {
                &&& compiles(split_pattern(parsed))
                &&& t.encoder() == vocab_encoder(token_list(parsed))
                &&& t.decoder().len() == top_number(token_list(parsed)) + 1
                &&& inverts(t.decoder(), t.encoder())
                &&& t.ranks() == merge_ranks_of(merge_texts(parsed.merges@))
                &&& t.pattern() == split_pattern(parsed)
            },
            r matches Some(Err(e)) ==> !compiles(split_pattern(parsed)) && e
                is NoMatchingTokenFound,
    {
        if Self::check_readable(&parsed) {
            Some(Self::new(parsed))
        } else {
            None
        }
    }

    /// Whether a file can be read.
    fn check_readable(parsed: &TokenizerJson) -> (r: bool)
        ensures
            r == is_readable(*parsed),
    {
        let ghost list = token_list(*parsed);
        proof {
            lemma_top_is_number(list);
        }
        let mut i: usize = 0;
        while i < parsed.vocab.len()
            invariant
                i <= parsed.vocab@.len(),
                list == token_list(*parsed),
                forall|j: int| 0 <= j < list.len() ==> (#[trigger] list[j]).1 <= top_number(list),
                forall|j: int| 0 <= j < i ==> is_hf_text((#[trigger] parsed.vocab@[j]).0@),
                forall|j: int| 0 <= j < i ==> (#[trigger] list[j]).1 < u32::MAX,
            decreases parsed.vocab@.len() - i,
        {
            assert(list[i as int].1 == parsed.vocab@[i as int].1);
            let chars = to_chars(parsed.vocab[i].0.as_str());
            if !Self::check_hf_text(&chars) || parsed.vocab[i].1 == u32::MAX {
                return false;
            }
            i += 1;
        }
        let ghost base = parsed.vocab@.len() as int;
        let mut k: usize = 0;
        while k < parsed.added_tokens.len()
            invariant
                k <= parsed.added_tokens@.len(),
                list == token_list(*parsed),
                base == parsed.vocab@.len(),
                forall|j: int| 0 <= j < list.len() ==> (#[trigger] list[j]).1 <= top_number(list),
                forall|j: int| 0 <= j < base + k ==> (#[trigger] list[j]).1 < u32::MAX,
            decreases parsed.added_tokens@.len() - k,
        {
            assert(list[base + k].1 == parsed.added_tokens@[k as int].id);
            if parsed.added_tokens[k].id == u32::MAX {
                return false;
            }
            k += 1;
        }
        let mut m: usize = 0;
        while m < parsed.merges.len()
            invariant
                m <= parsed.merges@.len(),
                forall|j: int|
                    0 <= j < m ==> is_readable_merge(merge_text(#[trigger] parsed.merges@[j])),
            decreases parsed.merges@.len() - m,
        {
            let text = Self::merge_entry_text(&parsed.merges[m]);
            let chars = to_chars(text.as_str());
            let space = find_char(chars.as_slice(), ' ');
            if space < chars.len() {
                let left = head(chars.as_slice(), space);
                let right = tail(chars.as_slice(), space + 1);
                if !Self::check_hf_text(&left) || !Self::check_hf_text(&right) {
                    assert(!is_readable_merge(merge_text(parsed.merges@[m as int])));
                    return false;
                }
            }
            m += 1;
        }
        true
    }

    fn check_hf_text(chars: &Vec<char>) -> (r: bool)
        ensures
            r == is_hf_text(chars@),
    {
        let mut i: usize = 0;
        while i < chars.len()
            invariant
                i <= chars@.len(),
                forall|j: int| 0 <= j < i ==> is_hf_char(#[trigger] chars@[j]),
            decreases chars@.len() - i,
        {
            let cp = chars[i] as u32;
            if !(33 <= cp && cp <= 126 || 161 <= cp && cp <= 172 || 174 <= cp) {
                assert(!is_hf_char(chars@[i as int]));
                return false;
            }
            i += 1;
        }
        true
    }

    /// The encoder of a file, and the largest token number in it.
    fn build_encoder(parsed: &TokenizerJson) -> (r: (AHashMap<Vec<u8>, u32>, u32))
        requires
            is_readable(*parsed),
        ensures
            crate::hash::token_map(r.0) == vocab_encoder(token_list(*parsed)),
            r.1 == top_number(token_list(*parsed)),
    {
        let ghost list = token_list(*parsed);
        let mut encoder = token_map_new();
        let mut top: u32 = 0;
        let mut i: usize = 0;
        assert(list.take(0) =~= Seq::empty());
        assert(vocab_encoder(list.take(0)) =~= Map::empty());
        while i < parsed.vocab.len()
            invariant
                i <= parsed.vocab@.len(),
                is_readable(*parsed),
                list == token_list(*parsed),
                crate::hash::token_map(encoder) == vocab_encoder(list.take(i as int)),
                top == top_number(list.take(i as int)),
            decreases parsed.vocab@.len() - i,
        {
            assert(is_hf_text(parsed.vocab@[i as int].0@));
            let bytes = Self::hf_decode_token(parsed.vocab[i].0.as_str());
            let id = parsed.vocab[i].1;
            proof {
                let next = list.take(i + 1);
                assert(next.drop_last() =~= list.take(i as int));
                assert(next.last() == (bytes@, id));
            }
            token_map_insert(&mut encoder, bytes, id);
            if id > top {
                top = id;
            }
            i += 1;
        }
        let ghost base = parsed.vocab@.len() as int;
        let mut k: usize = 0;
        while k < parsed.added_tokens.len()
            invariant
                k <= parsed.added_tokens@.len(),
                base == parsed.vocab@.len(),
                list == token_list(*parsed),
                crate::hash::token_map(encoder) == vocab_encoder(list.take(base + k)),
                top == top_number(list.take(base + k)),
            decreases parsed.added_tokens@.len() - k,
        {
            let bytes = parsed.added_tokens[k].content.as_str().as_bytes_vec();
            let id = parsed.added_tokens[k].id;
            proof {
                let next = list.take(base + k + 1);
                assert(next.drop_last() =~= list.take(base + k));
                assert(next.last() == list[base + k]);
                assert(next.last() == (bytes@, id));
            }
            token_map_insert(&mut encoder, bytes, id);
            if id > top {
                top = id;
            }
            k += 1;
        }
        assert(list.take(base + k) =~= list);
        (encoder, top)
    }

    /// The decoder of an encoder.
    fn build_decoder(encoder: &AHashMap<Vec<u8>, u32>, top: u32) -> (r: Vec<Vec<u8>>)
        requires
            top < u32::MAX,
            forall|b: Seq<u8>| #[trigger]
                crate::hash::token_map(*encoder).contains_key(b) ==> crate::hash::token_map(
                    *encoder,
                )[b] <= top,
        ensures
            r@.len() == top + 1,
            inverts(rows(r@), crate::hash::token_map(*encoder)),
    {
        let ghost map = crate::hash::token_map(*encoder);
        let mut decoder: Vec<Vec<u8>> = Vec::new();
        while decoder.len() <= top as usize
            invariant
                decoder@.len() <= top + 1,
                forall|x: int| 0 <= x < decoder@.len() ==> (#[trigger] decoder@[x])@.len() == 0,
            decreases top + 1 - decoder@.len(),
        {
            let empty: Vec<u8> = Vec::new();
            decoder.push(empty);
        }
        let pairs = token_map_pairs(encoder);
        let mut i: usize = 0;
        while i < pairs.len()
            invariant
                i <= pairs@.len(),
                decoder@.len() == top + 1,
                map == crate::hash::token_map(*encoder),
                forall|b: Seq<u8>| #[trigger] map.contains_key(b) ==> map[b] <= top,
                forall|j: int|
                    0 <= j < pairs@.len() ==> map.contains_key((#[trigger] pairs@[j]).0@)
                        && map[pairs@[j].0@] == pairs@[j].1,
                forall|x: int|
                    0 <= x < decoder@.len() ==> ((#[trigger] decoder@[x])@.len() == 0 || (
                    map.contains_key(decoder@[x]@) && map[decoder@[x]@] == x)),
                forall|j: int|
                    0 <= j < i ==> map.contains_key(
                        decoder@[(#[trigger] pairs@[j]).1 as int]@,
                    ) && map[decoder@[pairs@[j].1 as int]@] == pairs@[j].1,
            decreases pairs@.len() - i,
        {
            let ghost before = decoder@;
            let id = pairs[i].1;
            let bytes = pairs[i].0.clone();
            assert(bytes@ =~= pairs@[i as int].0@);
            decoder[id as usize] = bytes;
            assert forall|j: int| 0 <= j < i + 1 implies map.contains_key(
                decoder@[(#[trigger] pairs@[j]).1 as int]@,
            ) && map[decoder@[pairs@[j].1 as int]@] == pairs@[j].1 by {
                if pairs@[j].1 != id {
                    assert(decoder@[pairs@[j].1 as int] == before[pairs@[j].1 as int]);
                }
            }
            i += 1;
        }
        proof {
            let all = rows(decoder@);
            assert forall|b: Seq<u8>| #[trigger] map.contains_key(b) implies {
                let id = map[b] as int;
                id < all.len() && map.contains_key(all[id]) && map[all[id]] == id
            } by {
                let j = choose|j: int| 0 <= j < pairs@.len() && (#[trigger] pairs@[j]).0@ == b;
                assert(pairs@[j].1 == map[b]);
                assert(all[map[b] as int] == decoder@[pairs@[j].1 as int]@);
            }
            assert forall|id: int| 0 <= id < all.len() implies (#[trigger] all[id] == Seq::<
                u8,
            >::empty() || (map.contains_key(all[id]) && map[all[id]] == id)) by {
                assert(all[id] == decoder@[id]@);
                if decoder@[id]@.len() == 0 {
                    assert(all[id] =~= Seq::<u8>::empty());
                }
            }
        }
        decoder
    }

    /// The ranks of a list of merge rules.
    fn build_merge_ranks(merges: &Vec<MergeEntry>) -> (r: AHashMap<(Vec<u8>, Vec<u8>), usize>)
        requires
            forall|i: int|
                0 <= i < merges@.len() ==> is_readable_merge(merge_text(#[trigger] merges@[i])),
        ensures
            crate::hash::merge_map(r) == merge_ranks_of(merge_texts(merges@)),
    {
        let ghost all = merge_texts(merges@);
        let mut ranks = merge_map_new();
        let mut rank: usize = 0;
        assert(all.take(0) =~= Seq::empty());
        assert(merge_ranks_of(all.take(0)) =~= Map::empty());
        while rank < merges.len()
            invariant
                rank <= merges@.len(),
                all == merge_texts(merges@),
                forall|i: int|
                    0 <= i < merges@.len() ==> is_readable_merge(merge_text(#[trigger] merges@[i])),
                crate::hash::merge_map(ranks) == merge_ranks_of(all.take(rank as int)),
            decreases merges@.len() - rank,
        {
            let text = Self::merge_entry_text(&merges[rank]);
            proof {
                let next = all.take(rank + 1);
                assert(next.drop_last() =~= all.take(rank as int));
                assert(next.last() == merge_text(merges@[rank as int]));
                assert(is_readable_merge(merge_text(merges@[rank as int])));
            }
            let chars = to_chars(text.as_str());
            let space = find_char(chars.as_slice(), ' ');
            if space < chars.len() {
                let left = head(chars.as_slice(), space);
                let right = tail(chars.as_slice(), space + 1);
                let left = Self::hf_decode_chars(&left);
                let right = Self::hf_decode_chars(&right);
                merge_map_insert(&mut ranks, left, right, rank);
            }
            rank += 1;
        }
        assert(all.take(rank as int) =~= all);
        ranks
    }

    /// The text of a merge rule.
    fn merge_entry_text(entry: &MergeEntry) -> (r: String)
        ensures
            r@ == merge_text(*entry),
    {
        match entry {
            MergeEntry::Str(s) => s.clone(),
            MergeEntry::Pair(a, b) => join3(a.as_str(), " ", b.as_str()),
        }
    }

    /// The bytes that a byte-level token text stands for.
    pub fn hf_decode_token(token: &str) -> (r: Vec<u8>)
        requires
            is_hf_text(token@),
        ensures
            r@ == hf_bytes(token@),
    {
        let chars = to_chars(token);
        Self::hf_decode_chars(&chars)
    }

    fn hf_decode_chars(chars: &Vec<char>) -> (r: Vec<u8>)
        requires
            is_hf_text(chars@),
        ensures
            r@ == hf_bytes(chars@),
    {
        let mut out: Vec<u8> = Vec::new();
        let mut i: usize = 0;
        while i < chars.len()
            invariant
                i <= chars@.len(),
                is_hf_text(chars@),
                out@ == hf_bytes(chars@.take(i as int)),
            decreases chars@.len() - i,
        {
            assert(is_hf_char(chars@[i as int]));
            out.push(Self::hf_char_to_byte(chars[i]));
            i += 1;
            assert(out@ =~= hf_bytes(chars@.take(i as int)));
        }
        assert(chars@.take(i as int) =~= chars@);
        out
    }

    /// The byte that a character of a byte-level vocabulary stands for.
    pub fn hf_char_to_byte(c: char) -> (r: u8)
        requires
            is_hf_char(c),
        ensures
            r == hf_byte(c),
    {
        let cp = c as u32;
        if cp <= 255 {
            cp as u8
        } else {
            let idx = cp - 256;
            if idx <= 32 {
                idx as u8
            } else if idx <= 66 {
                (idx - 33 + 127) as u8
            } else {
                173u8
            }
        }
    }

    /// The first pattern in a pre-tokenizer, if there is one.
    pub fn extract_pattern(pre_tok: &Option<HfPreTokenizer>) -> (r: Option<String>)
        ensures
            r is Some <==> (*pre_tok matches Some(p) && pattern_of(p) is Some),
            r matches Some(pattern) ==> pattern_of(pre_tok->Some_0) == Some(pattern@),
    {
        match pre_tok {
            Some(p) => Self::extract_pattern_of(p),
            None => None,
        }
    }

    fn extract_pattern_of(p: &HfPreTokenizer) -> (r: Option<String>)
        ensures
            r is Some <==> pattern_of(*p) is Some,
            r matches Some(pattern) ==> pattern_of(*p) == Some(pattern@),
        decreases *p,
    {
        if let Some(pattern) = &p.pattern {
            if let Some(regex) = &pattern.regex {
                return Some(regex.clone());
            }
        }
        if let Some(parts) = &p.pretokenizers {
            let mut i: usize = 0;
            assert(parts@.skip(0) =~= parts@);
            while i < parts.len()
                invariant
                    i <= parts@.len(),
                    p.pretokenizers == Some(*parts),
                    pattern_of(*p) == first_pattern(parts@),
                    first_pattern(parts@) == first_pattern(parts@.skip(i as int)),
                decreases parts@.len() - i,
            {
                assert(parts@.skip(i as int)[0] == parts@[i as int]);
                assert(parts@.skip(i as int).skip(1) =~= parts@.skip(i + 1));
                assert(decreases_to!(*parts => parts@[i as int]));
                if let Some(pattern) = Self::extract_pattern_of(&parts[i]) {
                    return Some(pattern);
                }
                i += 1;
            }
        }
        None
    }

    /// Drops the look-ahead alternatives for trailing white space, which the regular
    /// expressions do not support, from a pattern.
    pub fn strip_lookaheads(pat: &str) -> (r: String)
        ensures
            r@ == stripped(pat@),
    {
        proof {
            reveal_strlit("\\s+(?!\\S)|");
            reveal_strlit("\\s+(?!\\s)|");
        }
        let once = remove_all(pat, "\\s+(?!\\S)|");
        remove_all(once.as_str(), "\\s+(?!\\s)|")
    }

    /// The tokens of an input: the text in it is split into pieces, and each piece is
    /// merged on its own.
    pub fn encode(&self, input: &[u8]) -> (r: Result<Vec<u32>, TokenizerError>)
        ensures
            r is Ok <==> all_known(
                self.encoder(),
                self.all_atoms(matches_in(self.pattern(), lossy_text(input@))),
            ),
            r matches Ok(output) ==> output@ == known_numbers(
                self.encoder(),
                self.all_atoms(matches_in(self.pattern(), lossy_text(input@))),
            ),
            r matches Err(e) ==> e is NoMatchingTokenFound,
            valid_utf8(input@) ==> lossy_text(input@) == decode_utf8(input@),
            bytes_are_known(self.encoder()) ==> r is Ok,
            self.pattern() == default_pattern() ==> flat_text(
                matches_in(self.pattern(), lossy_text(input@)),
            ) == lossy_text(input@),
            r matches Ok(output) ==> (self.pattern() == default_pattern() && numbers_are_distinct(
                self.encoder(),
            ) && valid_utf8(input@) ==> in_range(self.decoder(), output@) == output@.len() && joined(
                self.decoder(),
                output@,
            ) == input@),
    {
        let text = read_lossy(input);
        let pieces = find_all(&self.pat, text.as_str());
        proof {
            use_type_invariant(self);
            let all = matches_in(self.pattern(), lossy_text(input@));
            if bytes_are_known(self.encoder()) {
                known_bytes_encode(*self, all);
            }
            if self.pattern() == default_pattern() && numbers_are_distinct(self.encoder())
                && valid_utf8(input@) && all_known(self.encoder(), self.all_atoms(all)) {
                covered_input_round_trip(*self, input@);
            }
        }
        self.encode_pieces(&pieces)
    }

    /// The tokens of a sequence of pieces.
    pub fn encode_pieces(&self, pieces: &Vec<String>) -> (r: Result<Vec<u32>, TokenizerError>)
        ensures
            r is Ok <==> all_known(self.encoder(), self.all_atoms(texts(pieces@))),
            r matches Ok(output) ==> output@ == known_numbers(
                self.encoder(),
                self.all_atoms(texts(pieces@)),
            ),
            r matches Err(e) ==> e is NoMatchingTokenFound,
    {
        let ghost all = texts(pieces@);
        let mut output: Vec<u32> = Vec::new();
        let mut i: usize = 0;
        assert(all.take(0) =~= Seq::empty());
        assert(known_numbers(self.encoder(), self.all_atoms(all.take(0))) =~= Seq::empty());
        while i < pieces.len()
            invariant
                i <= pieces@.len(),
                all == texts(pieces@),
                all_known(self.encoder(), self.all_atoms(all.take(i as int))),
                output@ == known_numbers(self.encoder(), self.all_atoms(all.take(i as int))),
            decreases pieces@.len() - i,
        {
            let piece = pieces[i].as_str().as_bytes();
            let ghost done = self.all_atoms(all.take(i as int));
            let ghost here = self.piece_atoms(piece@);
            proof {
                let next = all.take(i + 1);
                assert(next.drop_last() =~= all.take(i as int));
                assert(next.last() == all[i as int]);
                assert(self.all_atoms(next) == done + here);
                lemma_known_numbers_join(self.encoder(), done, here);
            }
            match self.bpe_encode_piece(piece, &mut output) {
                Ok(()) => {},
                Err(e) => {
                    proof {
                        self.lemma_atoms_prefix(all, i + 1);
                        let bad = choose|k: int|
                            0 <= k < here.len() && !self.encoder().contains_key(
                                #[trigger] here[k],
                            );
                        let whole = self.all_atoms(all);
                        assert(whole[done.len() + bad] == (done + here)[done.len() + bad]);
                    }
                    return Err(e);
                },
            }
            i += 1;
        }
        assert(all.take(i as int) =~= all);
        Ok(output)
    }

    /// Appends the tokens of a piece, up to the first part of it that has none.
    pub fn bpe_encode_piece(&self, piece: &[u8], output: &mut Vec<u32>) -> (r: Result<
        (),
        TokenizerError,
    >)
        ensures
            r is Ok <==> all_known(self.encoder(), self.piece_atoms(piece@)),
            final(output)@ == old(output)@ + known_numbers(
                self.encoder(),
                self.piece_atoms(piece@),
            ),
            r matches Err(e) ==> e is NoMatchingTokenFound,
    {
        // Start with individual bytes.
        let mut parts: Vec<Vec<u8>> = Vec::new();
        let mut i: usize = 0;
        while i < piece.len()
            invariant
                i <= piece@.len(),
                i == parts@.len(),
                forall|j: int| 0 <= j < i ==> (#[trigger] parts@[j])@ == seq![piece@[j]],
            decreases piece@.len() - i,
        {
            let part = Self::single(piece[i]);
            parts.push(part);
            i += 1;
        }
        assert(rows(parts@) =~= singles(piece@));

        let parts = self.merge_all(parts);
        let found = self.look_up(&parts);

        let ghost all = rows(found@);
        let mut k: usize = 0;
        assert(all.skip(0) =~= all);
        while k < found.len()
            invariant
                k <= found@.len(),
                all == rows(found@),
                all == self.piece_atoms(piece@),
                forall|j: int| 0 <= j < k ==> self.encoder().contains_key(#[trigger] all[j]),
                output@ + known_numbers(self.encoder(), all.skip(k as int)) == old(output)@
                    + known_numbers(self.encoder(), all),
            decreases found@.len() - k,
        {
            let ghost rest = all.skip(k as int);
            assert(rest[0] == found@[k as int]@);
            assert(rest.skip(1) =~= all.skip(k + 1));
            match token_map_get(&self.encoder, found[k].as_slice()) {
                Some(id) => {
                    let ghost before = output@;
                    output.push(id);
                    assert(output@ + known_numbers(self.encoder(), all.skip(k + 1)) =~= before
                        + known_numbers(self.encoder(), rest));
                },
                None => {
                    assert(known_numbers(self.encoder(), rest) =~= Seq::empty());
                    assert(output@ =~= output@ + known_numbers(self.encoder(), rest));
                    assert(!self.encoder().contains_key(all[k as int]));
                    return Err(TokenizerError::NoMatchingTokenFound);
                },
            }
            k += 1;
        }
        assert(all.skip(k as int) =~= Seq::empty());
        assert(output@ =~= output@ + known_numbers(self.encoder(), all.skip(k as int)));
        Ok(())
    }

    /// A piece of one byte.
    fn single(byte: u8) -> (r: Vec<u8>)
        ensures
            r@ == seq![byte],
    {
        let mut part: Vec<u8> = Vec::new();
        part.push(byte);
        assert(part@ =~= seq![byte]);
        part
    }

    /// Merges the pair of the lowest rank until no pair has one.
    fn merge_all(&self, pieces: Vec<Vec<u8>>) -> (r: Vec<Vec<u8>>)
        ensures
            rows(r@) == fully_merged(self.ranks(), rows(pieces@)),
    {
        let mut parts = pieces;
        let ghost start = rows(parts@);
        loop
            invariant
                fully_merged(self.ranks(), rows(parts@)) == fully_merged(self.ranks(), start),
                start == rows(pieces@),
            decreases parts@.len(),
        {
            let ghost now = rows(parts@);
            match self.find_best(&parts) {
                None => {
                    return parts;
                },
                Some(best) => {
                    proof {
                        assert forall|i: int| is_best(self.ranks(), now, i) implies i == best by {
                            assert(rank_at(self.ranks(), now, i) is Some);
                            assert(rank_at(self.ranks(), now, best as int) is Some);
                        }
                    }
                    assert(best + 1 < parts.len());
                    let right = parts.remove(best + 1);
                    let mut left = Self::take_part(&mut parts, best);
                    let ghost before = left@;
                    left.extend_from_slice(right.as_slice());
                    assert(left@ =~= before + right@);
                    parts[best] = left;
                    assert(rows(parts@) =~= merged(now, best as int));
                },
            }
        }
    }

    /// Takes a part out, and leaves an empty one in its place.
    fn take_part(parts: &mut Vec<Vec<u8>>, at: usize) -> (r: Vec<u8>)
        requires
            at < old(parts)@.len(),
        ensures
            r@ == old(parts)@[at as int]@,
            final(parts)@.len() == old(parts)@.len(),
            forall|i: int|
                0 <= i < final(parts)@.len() && i != at ==> final(parts)@[i] == old(parts)@[i],
    {
        let mut part: Vec<u8> = Vec::new();
        std::mem::swap(&mut part, &mut parts[at]);
        part
    }

    /// The position of the pair to merge.
    fn find_best(&self, parts: &Vec<Vec<u8>>) -> (r: Option<usize>)
        ensures
            r matches Some(best) ==> is_best(self.ranks(), rows(parts@), best as int),
            r is None ==> forall|i: int| !is_best(self.ranks(), rows(parts@), i),
    {
        let ghost now = rows(parts@);
        if parts.len() < 2 {
            return None;
        }
        let mut best_rank = usize::MAX;
        let mut best: usize = 0;
        let mut i: usize = 0;
        while i < parts.len() - 1
            invariant
                i <= parts@.len() - 1,
                2 <= parts@.len(),
                now == rows(parts@),
                best_rank < usize::MAX ==> best < i && rank_at(self.ranks(), now, best as int)
                    == Some(best_rank),
                forall|j: int|
                    0 <= j < i && (#[trigger] rank_at(self.ranks(), now, j)) is Some ==> if j
                        < best || best_rank == usize::MAX {
                        best_rank < rank_at(self.ranks(), now, j)->Some_0
                    } else {
                        best_rank <= rank_at(self.ranks(), now, j)->Some_0
                    },
            decreases parts@.len() - i,
        {
            assert(now[i as int] == parts@[i as int]@ && now[i + 1] == parts@[i + 1]@);
            if let Some(rank) = merge_map_get(&self.merge_ranks, &parts[i], &parts[i + 1]) {
                if rank < best_rank {
                    assert(rank_at(self.ranks(), now, i as int) == Some(rank));
                    best_rank = rank;
                    best = i;
                }
            }
            i += 1;
        }
        if best_rank == usize::MAX {
            None
        } else {
            Some(best)
        }
    }

    /// The byte strings to look up for the parts.
    fn look_up(&self, parts: &Vec<Vec<u8>>) -> (r: Vec<Vec<u8>>)
        ensures
            rows(r@) == atoms(self.encoder(), rows(parts@)),
    {
        let ghost all = rows(parts@);
        let mut out: Vec<Vec<u8>> = Vec::new();
        let mut i: usize = 0;
        assert(all.take(0) =~= Seq::empty());
        assert(rows(out@) =~= atoms(self.encoder(), all.take(0)));
        while i < parts.len()
            invariant
                i <= parts@.len(),
                all == rows(parts@),
                rows(out@) == atoms(self.encoder(), all.take(i as int)),
            decreases parts@.len() - i,
        {
            let ghost before = rows(out@);
            proof {
                let next = all.take(i + 1);
                assert(next.drop_last() =~= all.take(i as int));
                assert(next.last() == parts@[i as int]@);
            }
            let known = token_map_get(&self.encoder, parts[i].as_slice()).is_some();
            if known {
                let copy = parts[i].clone();
                assert(copy@ =~= parts@[i as int]@);
                out.push(copy);
                assert(rows(out@) =~= before + seq![parts@[i as int]@]);
            } else {
                let part = &parts[i];
                let ghost bytes = singles(part@);
                let mut k: usize = 0;
                assert(rows(out@) =~= before + bytes.take(0));
                while k < part.len()
                    invariant
                        k <= part@.len(),
                        bytes == singles(part@),
                        rows(out@) == before + bytes.take(k as int),
                    decreases part@.len() - k,
                {
                    let ghost so_far = rows(out@);
                    out.push(Self::single(part[k]));
                    assert(rows(out@) =~= so_far.push(seq![part@[k as int]]));
                    assert(bytes.take(k + 1) =~= bytes.take(k as int).push(bytes[k as int]));
                    k += 1;
                    assert(rows(out@) =~= before + bytes.take(k as int));
                }
                assert(bytes.take(k as int) =~= bytes);
            }
            i += 1;
        }
        assert(all.take(i as int) =~= all);
        out
    }

    /// The bytes of a list of tokens.
    pub fn decode(&self, tokens: &[u32]) -> (r: Result<Vec<u8>, TokenizerError>)
        ensures
            r is Ok <==> in_range(self.decoder(), tokens@) == tokens@.len(),
            r matches Ok(output) ==> output@ == joined(self.decoder(), tokens@),
            r matches Err(e) ==> e == TokenizerError::OutOfRangeToken(
                tokens@[in_range(self.decoder(), tokens@) as int],
            ),
    {
        let mut output: Vec<u8> = Vec::new();
        match join_rows(&self.decoder, tokens, &mut output) {
            Ok(()) => {
                assert(tokens@.take(tokens@.len() as int) =~= tokens@);
                assert(output@ =~= joined(self.decoder(), tokens@));
                Ok(output)
            },
            Err(e) => Err(e),
        }
    }

    /// The atoms of the first pieces are a prefix of all atoms.
    proof fn lemma_atoms_prefix(&self, pieces: Seq<Seq<char>>, k: int)
        requires
            0 <= k <= pieces.len(),
        ensures
            self.all_atoms(pieces.take(k)).len() <= self.all_atoms(pieces).len(),
            forall|i: int|
                0 <= i < self.all_atoms(pieces.take(k)).len() ==> #[trigger] self.all_atoms(
                    pieces.take(k),
                )[i] == self.all_atoms(pieces)[i],
        decreases pieces.len() - k,
    {
        if k < pieces.len() {
            self.lemma_atoms_prefix(pieces, k + 1);
            let next = pieces.take(k + 1);
            assert(next.drop_last() =~= pieces.take(k));
            assert forall|i: int|
                0 <= i < self.all_atoms(pieces.take(k)).len() implies #[trigger] self.all_atoms(
                pieces.take(k),
            )[i] == self.all_atoms(pieces)[i] by {
                assert(self.all_atoms(next)[i] == self.all_atoms(pieces)[i]);
            }
        } else {
            assert(pieces.take(k) =~= pieces);
        }
    }
}

impl Clone for BpeTokenizer {
    fn clone(&self) -> (r: Self)
        ensures
            r.encoder() == self.encoder(),
            r.decoder() == self.decoder(),
            r.ranks() == self.ranks(),
            r.pattern() == self.pattern(),
    {
        proof {
            use_type_invariant(self);
        }
        let encoder = token_map_clone(&self.encoder);
        let decoder = self.decoder.clone();
        let merge_ranks = merge_map_clone(&self.merge_ranks);
        let pat = regex_clone(&self.pat);
        assert(rows(decoder@) =~= self.decoder()) by {
            assert forall|i: int| 0 <= i < self.decoder@.len() implies (#[trigger] decoder@[i])@
                == self.decoder@[i]@ by {
                assert(decoder@[i]@ =~= self.decoder@[i]@);
            }
        }
        BpeTokenizer { encoder, decoder, merge_ranks, pat }
    }
}

/// No token number is above the largest.
proof fn lemma_top_number(list: Seq<Entry>)
    ensures
        forall|b: Seq<u8>| #[trigger]
            vocab_encoder(list).contains_key(b) ==> vocab_encoder(list)[b] <= top_number(list),
    decreases list.len(),
{
    if list.len() > 0 {
        let shorter = list.drop_last();
        lemma_top_number(shorter);
        assert forall|b: Seq<u8>| #[trigger] vocab_encoder(list).contains_key(
            b,
        ) implies vocab_encoder(list)[b] <= top_number(list) by {
            if b != list.last().0 {
                assert(vocab_encoder(shorter).contains_key(b));
            }
        }
    }
}

/// The largest token number is that of some token, unless it is zero.
proof fn lemma_top_is_number(list: Seq<Entry>)
    ensures
        forall|i: int| 0 <= i < list.len() ==> (#[trigger] list[i]).1 <= top_number(list),
        top_number(list) == 0 || exists|i: int|
            0 <= i < list.len() && (#[trigger] list[i]).1 == top_number(list),
    decreases list.len(),
{
    if list.len() > 0 {
        let before = list.drop_last();
        lemma_top_is_number(before);
        assert forall|i: int| 0 <= i < list.len() implies (#[trigger] list[i]).1 <= top_number(
            list,
        ) by {
            if i < before.len() {
                assert(before[i] == list[i]);
            }
        }
        if list.last().1 > top_number(before) {
            assert(list[list.len() - 1].1 == top_number(list));
        } else if top_number(before) != 0 {
            let i = choose|i: int|
                0 <= i < before.len() && (#[trigger] before[i]).1 == top_number(before);
            assert(list[i].1 == top_number(list));
        }
    }
}

/// The numbers of two sequences, the first of which is all known.
proof fn lemma_known_numbers_join(encoder: Map<Seq<u8>, u32>, a: Seq<Seq<u8>>, b: Seq<Seq<u8>>)
    requires
        all_known(encoder, a),
    ensures
        known_numbers(encoder, a + b) == known_numbers(encoder, a) + known_numbers(encoder, b),
        all_known(encoder, a + b) <==> all_known(encoder, b),
    decreases a.len(),
{
    if a.len() == 0 {
        assert(a + b =~= b);
        assert(known_numbers(encoder, a) + known_numbers(encoder, b) =~= known_numbers(encoder, b));
    } else {
        let rest = a.skip(1);
        assert(all_known(encoder, rest)) by {
            assert forall|i: int| 0 <= i < rest.len() implies encoder.contains_key(
                #[trigger] rest[i],
            ) by {
                assert(rest[i] == a[i + 1]);
            }
        }
        lemma_known_numbers_join(encoder, rest, b);
        assert(encoder.contains_key(a[0]));
        assert((a + b).skip(1) =~= rest + b);
        assert((a + b)[0] == a[0]);
        assert(known_numbers(encoder, a + b) =~= known_numbers(encoder, a) + known_numbers(
            encoder,
            b,
        ));
        assert(all_known(encoder, a + b) <==> all_known(encoder, b)) by {
            if all_known(encoder, a + b) {
                assert forall|i: int| 0 <= i < b.len() implies encoder.contains_key(
                    #[trigger] b[i],
                ) by {
                    assert((a + b)[a.len() + i] == b[i]);
                }
            }
            if all_known(encoder, b) {
                assert forall|i: int| 0 <= i < (a + b).len() implies encoder.contains_key(
                    #[trigger] (a + b)[i],
                ) by {
                    if i < a.len() {
                        assert((a + b)[i] == a[i]);
                    } else {
                        assert((a + b)[i] == b[i - a.len()]);
                    }
                }
            }
        }
    }
}

/// Merging moves bytes between parts, and changes none of them.
pub proof fn merging_keeps_bytes(ranks: Map<(Seq<u8>, Seq<u8>), usize>, parts: Seq<Seq<u8>>)
    ensures
        flat(fully_merged(ranks, parts)) == flat(parts),
    decreases parts.len(),
{
    if exists|i: int| is_best(ranks, parts, i) {
        let i = choose|i: int| is_best(ranks, parts, i);
        if 0 <= i < parts.len() - 1 {
            let next = merged(parts, i);
            merging_keeps_bytes(ranks, next);
            let front = parts.take(i);
            let back = parts.skip(i + 2);
            assert(parts =~= front + seq![parts[i], parts[i + 1]] + back);
            assert(next =~= front + seq![parts[i] + parts[i + 1]] + back);
            lemma_flat_join(front + seq![parts[i], parts[i + 1]], back);
            lemma_flat_join(front + seq![parts[i] + parts[i + 1]], back);
            lemma_flat_join(front, seq![parts[i], parts[i + 1]]);
            lemma_flat_join(front, seq![parts[i] + parts[i + 1]]);
            lemma_flat_one(parts[i]);
            lemma_flat_one(parts[i + 1]);
            lemma_flat_one(parts[i] + parts[i + 1]);
            lemma_flat_join(seq![parts[i]], seq![parts[i + 1]]);
            assert(seq![parts[i], parts[i + 1]] =~= seq![parts[i]] + seq![parts[i + 1]]);
        }
    }
}

/// After all merges no rule applies to two neighbours.
pub proof fn merging_is_exhaustive(
    ranks: Map<(Seq<u8>, Seq<u8>), usize>,
    parts: Seq<Seq<u8>>,
    i: int,
)
    requires
        0 <= i < fully_merged(ranks, parts).len() - 1,
    ensures
        rank_at(ranks, fully_merged(ranks, parts), i) is None,
    decreases parts.len(),
{
    if exists|k: int| is_best(ranks, parts, k) {
        let k = choose|k: int| is_best(ranks, parts, k);
        merging_is_exhaustive(ranks, merged(parts, k), i);
    } else if rank_at(ranks, parts, i) is Some {
        let best = lemma_best_exists(ranks, parts, parts.len() - 1, i);
        assert(is_best(ranks, parts, best));
    }
}

/// Among the first `n` pairs, one of which has a rule, one is the best.
pub(crate) proof fn lemma_best_exists(
    ranks: Map<(Seq<u8>, Seq<u8>), usize>,
    parts: Seq<Seq<u8>>,
    n: int,
    i: int,
) -> (best: int)
    requires
        0 <= i < n <= parts.len() - 1,
        rank_at(ranks, parts, i) is Some,
    ensures
        0 <= best < n,
        rank_at(ranks, parts, best) is Some,
        forall|j: int|
            0 <= j < n && (#[trigger] rank_at(ranks, parts, j)) is Some ==> if j < best {
                rank_at(ranks, parts, best)->Some_0 < rank_at(ranks, parts, j)->Some_0
            } else {
                rank_at(ranks, parts, best)->Some_0 <= rank_at(ranks, parts, j)->Some_0
            },
    decreases n,
{
    let last = n - 1;
    if exists|k: int| 0 <= k < last && (#[trigger] rank_at(ranks, parts, k)) is Some {
        let k = choose|k: int| 0 <= k < last && (#[trigger] rank_at(ranks, parts, k)) is Some;
        let before = lemma_best_exists(ranks, parts, last, k);
        if rank_at(ranks, parts, last) is Some && rank_at(ranks, parts, last)->Some_0 < rank_at(
            ranks,
            parts,
            before,
        )->Some_0 {
            last
        } else {
            before
        }
    } else {
        assert(i == last);
        last
    }
}

proof fn lemma_flat_one(part: Seq<u8>)
    ensures
        flat(seq![part]) == part,
{
    assert(seq![part].drop_last() =~= Seq::empty());
    assert(flat(Seq::<Seq<u8>>::empty()) =~= Seq::empty());
    assert(flat(seq![part]) =~= part);
}

proof fn lemma_flat_join(a: Seq<Seq<u8>>, b: Seq<Seq<u8>>)
    ensures
        flat(a + b) == flat(a) + flat(b),
    decreases b.len(),
{
    if b.len() == 0 {
        assert(a + b =~= a);
        assert(flat(a) + flat(b) =~= flat(a));
    } else {
        lemma_flat_join(a, b.drop_last());
        assert((a + b).drop_last() =~= a + b.drop_last());
        assert((a + b).last() == b.last());
        assert(flat(a + b) =~= flat(a) + flat(b));
    }
}

proof fn lemma_flat_singles(piece: Seq<u8>)
    ensures
        flat(singles(piece)) == piece,
    decreases piece.len(),
{
    if piece.len() > 0 {
        lemma_flat_singles(piece.drop_last());
        assert(singles(piece).drop_last() =~= singles(piece.drop_last()));
        assert(singles(piece).last() == seq![piece.last()]);
        assert(flat(singles(piece)) =~= piece);
    } else {
        assert(flat(singles(piece)) =~= piece);
    }
}

proof fn lemma_flat_atoms(encoder: Map<Seq<u8>, u32>, parts: Seq<Seq<u8>>)
    ensures
        flat(atoms(encoder, parts)) == flat(parts),
    decreases parts.len(),
{
    if parts.len() > 0 {
        let last = parts.last();
        lemma_flat_atoms(encoder, parts.drop_last());
        lemma_flat_one(last);
        lemma_flat_singles(last);
        lemma_flat_join(
            atoms(encoder, parts.drop_last()),
            if encoder.contains_key(last) {
                seq![last]
            } else {
                singles(last)
            },
        );
    }
}

/// The UTF-8 bytes of the pieces.
pub open spec fn piece_bytes(pieces: Seq<Seq<char>>) -> Seq<Seq<u8>> {
    pieces.map_values(|piece: Seq<char>| encode_utf8(piece))
}

/// What is looked up for the pieces is the bytes of the pieces.
pub proof fn atoms_cover_pieces(t: BpeTokenizer, pieces: Seq<Seq<char>>)
    ensures
        flat(t.all_atoms(pieces)) == flat(piece_bytes(pieces)),
    decreases pieces.len(),
{
    if pieces.len() > 0 {
        let shorter = pieces.drop_last();
        let bytes = encode_utf8(pieces.last());
        atoms_cover_pieces(t, shorter);
        lemma_flat_join(t.all_atoms(shorter), t.piece_atoms(bytes));
        lemma_flat_atoms(t.encoder(), fully_merged(t.ranks(), singles(bytes)));
        merging_keeps_bytes(t.ranks(), singles(bytes));
        lemma_flat_singles(bytes);
        assert(piece_bytes(pieces).drop_last() =~= piece_bytes(shorter));
        assert(piece_bytes(pieces).last() == bytes);
    } else {
        assert(t.all_atoms(pieces) =~= piece_bytes(pieces));
    }
}

/// No two token texts have the same number.
pub open spec fn numbers_are_distinct(encoder: Map<Seq<u8>, u32>) -> bool {
    forall|a: Seq<u8>, b: Seq<u8>|
        #![trigger encoder.contains_key(a), encoder.contains_key(b)]
        encoder.contains_key(a) && encoder.contains_key(b) && encoder[a] == encoder[b] ==> a == b
}

/// Decoding the numbers of known byte strings gives the byte strings back.
proof fn lemma_decode_known(
    decoder: Seq<Seq<u8>>,
    encoder: Map<Seq<u8>, u32>,
    parts: Seq<Seq<u8>>,
)
    requires
        inverts(decoder, encoder),
        numbers_are_distinct(encoder),
        all_known(encoder, parts),
    ensures
        in_range(decoder, known_numbers(encoder, parts)) == known_numbers(encoder, parts).len(),
        joined(decoder, known_numbers(encoder, parts)) == flat(parts),
    decreases parts.len(),
{
    let numbers = known_numbers(encoder, parts);
    if parts.len() == 0 {
        assert(joined(decoder, numbers) =~= flat(parts));
    } else {
        let first = parts[0];
        let rest = parts.skip(1);
        assert(encoder.contains_key(first));
        assert(all_known(encoder, rest)) by {
            assert forall|i: int| 0 <= i < rest.len() implies encoder.contains_key(
                #[trigger] rest[i],
            ) by {
                assert(rest[i] == parts[i + 1]);
            }
        }
        lemma_decode_known(decoder, encoder, rest);
        let id = encoder[first];
        assert(encoder.contains_key(decoder[id as int]));
        assert(decoder[id as int] == first);
        let tail = known_numbers(encoder, rest);
        assert(numbers == seq![id] + tail);
        assert(numbers.skip(1) =~= tail);
        assert(numbers[0] == id);
        decode_concatenates(decoder, seq![id], tail);
        assert(seq![id].drop_last() =~= Seq::empty());
        assert(joined(decoder, Seq::empty()) =~= Seq::empty());
        assert(joined(decoder, seq![id]) =~= first);
        lemma_flat_join(seq![first], rest);
        lemma_flat_one(first);
        assert(seq![first] + rest =~= parts);
    }
}

/// Decoding what a sequence of pieces was encoded to gives the bytes of the pieces
/// back, when no two tokens have the same number.
pub proof fn decode_undoes_encode(t: BpeTokenizer, pieces: Seq<Seq<char>>)
    requires
        t.wf(),
        numbers_are_distinct(t.encoder()),
        all_known(t.encoder(), t.all_atoms(pieces)),
    ensures
        in_range(t.decoder(), known_numbers(t.encoder(), t.all_atoms(pieces))) == known_numbers(
            t.encoder(),
            t.all_atoms(pieces),
        ).len(),
        joined(t.decoder(), known_numbers(t.encoder(), t.all_atoms(pieces))) == flat(
            piece_bytes(pieces),
        ),
{
    lemma_decode_known(t.decoder(), t.encoder(), t.all_atoms(pieces));
    atoms_cover_pieces(t, pieces);
}

proof fn lemma_encode_utf8_join(a: Seq<char>, b: Seq<char>)
    ensures
        encode_utf8(a + b) == encode_utf8(a) + encode_utf8(b),
    decreases a.len(),
{
    if a.len() == 0 {
        assert(a + b =~= b);
        assert(encode_utf8(a) =~= Seq::empty());
        assert(encode_utf8(a) + encode_utf8(b) =~= encode_utf8(b));
    } else {
        lemma_encode_utf8_join(a.drop_first(), b);
        assert((a + b).drop_first() =~= a.drop_first() + b);
        assert((a + b)[0] == a[0]);
        assert(encode_utf8(a + b) =~= encode_utf8(a) + encode_utf8(b));
    }
}

proof fn lemma_piece_bytes(pieces: Seq<Seq<char>>)
    ensures
        flat(piece_bytes(pieces)) == encode_utf8(flat_text(pieces)),
    decreases pieces.len(),
{
    if pieces.len() == 0 {
        assert(flat(piece_bytes(pieces)) =~= encode_utf8(flat_text(pieces)));
    } else {
        lemma_piece_bytes(pieces.drop_last());
        assert(piece_bytes(pieces).drop_last() =~= piece_bytes(pieces.drop_last()));
        lemma_encode_utf8_join(flat_text(pieces.drop_last()), pieces.last());
    }
}

/// A UTF-8 input that the pattern splits without leaving anything out is decoded
/// from its tokens as it was.
pub proof fn covered_input_round_trip(t: BpeTokenizer, input: Seq<u8>)
    requires
        t.wf(),
        numbers_are_distinct(t.encoder()),
        valid_utf8(input),
        flat_text(matches_in(t.pattern(), lossy_text(input))) == decode_utf8(input),
        all_known(t.encoder(), t.all_atoms(matches_in(t.pattern(), lossy_text(input)))),
    ensures
        ({
            let tokens = known_numbers(
                t.encoder(),
                t.all_atoms(matches_in(t.pattern(), lossy_text(input))),
            );
            in_range(t.decoder(), tokens) == tokens.len() && joined(t.decoder(), tokens) == input
        }),
{
    let pieces = matches_in(t.pattern(), lossy_text(input));
    decode_undoes_encode(t, pieces);
    lemma_piece_bytes(pieces);
    decode_utf8_encode_utf8(input);
}

/// Every byte is a token.
pub open spec fn bytes_are_known(encoder: Map<Seq<u8>, u32>) -> bool {
    forall|b: u8| encoder.contains_key(#[trigger] seq![b])
}

proof fn lemma_known_atoms(encoder: Map<Seq<u8>, u32>, parts: Seq<Seq<u8>>)
    requires
        bytes_are_known(encoder),
    ensures
        all_known(encoder, atoms(encoder, parts)),
    decreases parts.len(),
{
    if parts.len() > 0 {
        let before = atoms(encoder, parts.drop_last());
        let last = parts.last();
        let here = if encoder.contains_key(last) {
            seq![last]
        } else {
            singles(last)
        };
        lemma_known_atoms(encoder, parts.drop_last());
        let all = before + here;
        assert forall|i: int| 0 <= i < all.len() implies encoder.contains_key(#[trigger] all[i]) by {
            if i < before.len() {
                assert(all[i] == before[i]);
            } else {
                assert(all[i] == here[i - before.len()]);
                if !encoder.contains_key(last) {
                    assert(all[i] == seq![last[i - before.len()]]);
                }
            }
        }
    }
}

/// Where every byte is a token, every text is encoded.
pub proof fn known_bytes_encode(t: BpeTokenizer, pieces: Seq<Seq<char>>)
    requires
        bytes_are_known(t.encoder()),
    ensures
        all_known(t.encoder(), t.all_atoms(pieces)),
    decreases pieces.len(),
{
    if pieces.len() > 0 {
        let before = t.all_atoms(pieces.drop_last());
        let bytes = encode_utf8(pieces.last());
        let here = t.piece_atoms(bytes);
        known_bytes_encode(t, pieces.drop_last());
        lemma_known_atoms(t.encoder(), fully_merged(t.ranks(), singles(bytes)));
        let all = before + here;
        assert forall|i: int| 0 <= i < all.len() implies t.encoder().contains_key(
            #[trigger] all[i],
        ) by {
            if i < before.len() {
                assert(all[i] == before[i]);
            } else {
                assert(all[i] == here[i - before.len()]);
            }
        }
    }
}

/// None of the first `n` characters is `c`.
spec fn is_absent(s: Seq<char>, c: char, n: nat) -> bool
    decreases n,
{
    n == 0 || (s[n - 1] != c && is_absent(s, c, (n - 1) as nat))
}

proof fn lemma_absent(s: Seq<char>, c: char, n: nat)
    requires
        is_absent(s, c, n),
    ensures
        forall|i: int| 0 <= i < n ==> s[i] != c,
    decreases n,
{
    if n > 0 {
        lemma_absent(s, c, (n - 1) as nat);
    }
}

proof fn lemma_nothing_dropped(s: Seq<char>, needle: Seq<char>, k: int)
    requires
        0 <= k < needle.len(),
        forall|i: int| 0 <= i < s.len() ==> s[i] != needle[k],
    ensures
        without(s, needle) == s,
    decreases s.len(),
{
    if s.len() > 0 {
        if begins_with(s, needle) {
            assert(s.take(needle.len() as int)[k] == s[k]);
        }
        lemma_nothing_dropped(s.skip(1), needle, k);
        assert(seq![s[0]] + s.skip(1) =~= s);
    }
}

/// The default pattern has no look-ahead to drop.
pub proof fn default_pattern_stays()
    ensures
        stripped(default_pattern()) == default_pattern(),
{
    let s = default_pattern();
    reveal_strlit(
        "(?i:'s|'t|'re|'ve|'m|'ll|'d)|[^\\r\\n\\p{L}\\p{N}]?\\p{L}+|\\p{N}{1,3}| ?[^\\s\\p{L}\\p{N}]+[\\r\\n]*|\\s*[\\r\\n]+|\\s+",
    );
    reveal_strlit("\\s+(?!\\S)|");
    reveal_strlit("\\s+(?!\\s)|");
    reveal_with_fuel(is_absent, 16);
    assert(s.len() == 105);
    assert(is_absent(s, '!', 15));
    assert(is_absent(s, '!', 30));
    assert(is_absent(s, '!', 45));
    assert(is_absent(s, '!', 60));
    assert(is_absent(s, '!', 75));
    assert(is_absent(s, '!', 90));
    assert(is_absent(s, '!', 105));
    lemma_absent(s, '!', s.len());
    lemma_nothing_dropped(s, "\\s+(?!\\S)|"@, 5);
    lemma_nothing_dropped(s, "\\s+(?!\\s)|"@, 5);
}

} // verus!
