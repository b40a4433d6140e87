//! The RWKV tokenizer: greedy longest match over a byte vocabulary.

use ahash::{AHashMap, AHashSet};
use std::collections::BTreeMap;
use vstd::prelude::*;
use vstd::std_specs::btree::increasing_seq;
use vstd::std_specs::cmp::OrdSpec;
use vstd::std_specs::iter::IteratorSpec;
use vstd::utf8::*;

use crate::hash::{
    length_set_insert, length_set_items, length_set_new, token_map_clone, token_map_get,
    token_map_insert, token_map_new,
};
use crate::native::native_u16;

pub use crate::bpe::BpeTokenizer;

verus! {

/// The error of the `serde_json` crate.
#[verifier::external_type_specification]
#[verifier::external_body]
pub struct ExJsonError(serde_json::Error);

/// Why a tokenizer could not be made, or could not do its work.
#[derive(Debug)]
pub enum TokenizerError {
    /// The vocabulary is not in the expected format.
    FailedToParseVocabulary(serde_json::Error),
    /// Some part of the input is in no token.
    NoMatchingTokenFound,
    /// A token number that the vocabulary does not reach.
    OutOfRangeToken(u32),
}

/// How many two-byte keys the length table covers.
pub const TABLE_SIZE: usize = 65535;

/// A vocabulary entry: the bytes of a token and its number.
pub type Entry = (Seq<u8>, u32);

/// Two bytes as a number: the first is the least significant one on a little-endian
/// machine, and the most significant one on another.
pub open spec fn key_of(little: bool, first: u8, second: u8) -> int {
    if little {
        first + 256 * second
    } else {
        256 * first + second
    }
}

/// The key of a byte string in the length table, by its first two bytes.
pub open spec fn key(little: bool, bytes: Seq<u8>) -> int {
    key_of(little, bytes[0], bytes[1])
}

/// The length table has a place for the first two bytes, if there are two: it has one for
/// all but two bytes of 255.
pub open spec fn has_place(bytes: Seq<u8>) -> bool {
    bytes.len() >= 2 ==> !(bytes[0] == 255 && bytes[1] == 255)
}

/// Token numbers increase along the list.
pub open spec fn increasing(list: Seq<Entry>) -> bool {
    forall|i: int, j: int|
        0 <= i < j < list.len() ==> (#[trigger] list[i]).1 < (#[trigger] list[j]).1
}

/// Every token has its place in the length table.
pub open spec fn all_have_place(list: Seq<Entry>) -> bool {
    forall|i: int| 0 <= i < list.len() ==> has_place((#[trigger] list[i]).0)
}

/// From token bytes to the number of the last entry with these bytes.
pub open spec fn vocab_encoder(list: Seq<Entry>) -> Map<Seq<u8>, u32>
    decreases list.len(),
{
    if list.len() == 0 {
        Map::empty()
    } else {
        vocab_encoder(list.drop_last()).insert(list.last().0, list.last().1)
    }
}

/// The bytes of a token number: none, if no entry has it.
pub open spec fn vocab_bytes(list: Seq<Entry>, index: int) -> Seq<u8>
    decreases list.len(),
{
    if list.len() == 0 {
        Seq::empty()
    } else if list.last().1 == index {
        list.last().0
    } else {
        vocab_bytes(list.drop_last(), index)
    }
}

/// From token numbers to token bytes, up to the largest number in use.
pub open spec fn vocab_decoder(list: Seq<Entry>) -> Seq<Seq<u8>> {
    Seq::new(
        if list.len() == 0 {
            1
        } else {
            list.last().1 as nat + 1
        },
        |index: int| vocab_bytes(list, index),
    )
}

/// Entry `i` has the two leading bytes of `key`, and its length is written as `length`.
pub open spec fn entry_has_length(
    little: bool,
    list: Seq<Entry>,
    i: int,
    at: int,
    length: u16,
) -> bool {
    &&& 0 <= i < list.len()
    &&& list[i].0.len() >= 2
    &&& key(little, list[i].0) == at
    &&& length == short_length(list[i].0.len())
}

/// The lengths to try at a key: one, and those of the entries with that key.
pub open spec fn is_vocab_length(little: bool, list: Seq<Entry>, at: int, length: u16) -> bool {
    length == 1 || exists|i: int| entry_has_length(little, list, i, at, length)
}

/// Every item is larger than those after it.
pub open spec fn descending(s: Seq<u16>) -> bool {
    forall|i: int, j: int| 0 <= i < j < s.len() ==> s[i] > s[j]
}

/// A vocabulary pattern: a text, which stands for its UTF-8 bytes, or bytes.
#[derive(Debug)]
pub enum StrOrBytes {
    Str(String),
    Bytes(Vec<u8>),
}

impl View for StrOrBytes {
    type V = Seq<u8>;

    open spec fn view(&self) -> Seq<u8> {
        match self {
            StrOrBytes::Str(s) => encode_utf8(s@),
            StrOrBytes::Bytes(bytes) => bytes@,
        }
    }
}

/// A vocabulary: from token numbers to the bytes of the tokens.
pub open spec fn vocab_view(vocab: Map<u32, StrOrBytes>) -> Map<u32, Seq<u8>> {
    vocab.map_values(|pattern: StrOrBytes| pattern@)
}

/// The list has the entries of a vocabulary, by increasing token number.
pub open spec fn lists(list: Seq<Entry>, vocab: Map<u32, Seq<u8>>) -> bool {
    &&& increasing(list)
    &&& forall|i: int|
        0 <= i < list.len() ==> vocab.contains_key((#[trigger] list[i]).1) && vocab[list[i].1]
            == list[i].0
    &&& forall|n: u32| #[trigger]
        vocab.contains_key(n) ==> exists|i: int| 0 <= i < list.len() && (#[trigger] list[i]).1 == n
}

/// Every token of a vocabulary has its place in the length table.
pub open spec fn tokens_have_place(vocab: Map<u32, Seq<u8>>) -> bool {
    forall|n: u32| #[trigger] vocab.contains_key(n) ==> has_place(vocab[n])
}

/// The token of a number has the two leading bytes of `at`, and its length is written as
/// `length`.
pub open spec fn token_has_length(
    little: bool,
    vocab: Map<u32, Seq<u8>>,
    n: u32,
    at: int,
    length: u16,
) -> bool {
    &&& vocab.contains_key(n)
    &&& vocab[n].len() >= 2
    &&& key(little, vocab[n]) == at
    &&& length == short_length(vocab[n].len())
}

/// The list as plain values.
pub open spec fn list_view(list: Seq<(Vec<u8>, u32)>) -> Seq<Entry> {
    list.map_values(|e: (Vec<u8>, u32)| (e.0@, e.1))
}

/// A vector of byte vectors as plain values.
pub open spec fn rows(v: Seq<Vec<u8>>) -> Seq<Seq<u8>> {
    v.map_values(|b: Vec<u8>| b@)
}

/// A vector of length vectors as plain values.
pub open spec fn length_rows(v: Seq<Vec<u16>>) -> Seq<Seq<u16>> {
    v.map_values(|lengths: Vec<u16>| lengths@)
}

/// A token length as the length table writes it, in sixteen bits.
pub open spec fn short_length(length: nat) -> u16 {
    (length % 65536) as u16
}

/// The tables of a tokenizer fit together: the length table has all its keys, each
/// with its lengths sorted and one among them; every token is in the length table;
/// and the decoder undoes the encoder.
pub open spec fn tables_wf(
    little: bool,
    lengths: Seq<Seq<u16>>,
    encoder: Map<Seq<u8>, u32>,
    decoder: Seq<Seq<u8>>,
) -> bool {
    &&& lengths.len() == TABLE_SIZE
    &&& forall|at: int|
        0 <= at < TABLE_SIZE ==> descending(#[trigger] lengths[at]) && lengths[at].contains(1u16)
    &&& forall|b: Seq<u8>| #[trigger]
        encoder.contains_key(b) ==> {
            &&& encoder[b] < decoder.len()
            &&& decoder[encoder[b] as int] == b
            &&& has_place(b)
            &&& b.len() >= 2 ==> lengths[key(little, b)].contains(short_length(b.len()))
        }
}

/// A tokenizer that takes, at each position, the longest token that matches.
#[derive(Debug)]
pub struct Tokenizer {
    little_endian: bool,
    first_bytes_to_lengths: Vec<Vec<u16>>,
    bytes_to_token_index: AHashMap<Vec<u8>, u32>,
    token_index_to_bytes: Vec<Vec<u8>>,
}

/// How a walk over an input ends.
enum Walk {
    /// At the end of the input.
    Done,
    /// At a position where no token matches.
    NoMatch,
    /// At a position that the length table does not serve.
    Stuck,
}

impl Tokenizer {
    /// The length table is keyed in the byte order of a little-endian machine.
    pub closed spec fn little(&self) -> bool {
        self.little_endian
    }

    /// For each key, the token lengths to try.
    pub closed spec fn lengths(&self) -> Seq<Seq<u16>> {
        length_rows(self.first_bytes_to_lengths@)
    }

    /// From token bytes to token numbers.
    pub closed spec fn encoder(&self) -> Map<Seq<u8>, u32> {
        crate::hash::token_map(self.bytes_to_token_index)
    }

    /// From token numbers to token bytes.
    pub closed spec fn decoder(&self) -> Seq<Seq<u8>> {
        rows(self.token_index_to_bytes@)
    }

    /// What holds of every tokenizer.
    #[verifier::type_invariant]
    pub open spec fn wf(&self) -> bool {
        tables_wf(self.little(), self.lengths(), self.encoder(), self.decoder())
    }

    /// The tokenizer of a vocabulary list.
    pub open spec fn is_of(&self, list: Seq<Entry>) -> bool {
        &&& self.encoder() == vocab_encoder(list)
        &&& self.decoder() == vocab_decoder(list)
        &&& forall|at: int, length: u16|
            0 <= at < TABLE_SIZE ==> (#[trigger] self.lengths()[at].contains(length)
                <==> is_vocab_length(self.little(), list, at, length))
    }

    /// The lengths to try at a position, given what is left of the input.
    pub open spec fn candidates(&self, rest: Seq<u8>) -> Seq<u16> {
        if rest.len() >= 2 {
            self.lengths()[key(self.little(), rest)]
        } else {
            seq![1u16]
        }
    }

    /// The first `length` bytes are there and are a token.
    pub open spec fn matches(&self, rest: Seq<u8>, length: u16) -> bool {
        length <= rest.len() && self.encoder().contains_key(rest.take(length as int))
    }

    /// The first of the given lengths that matches.
    pub open spec fn first_match(&self, lengths: Seq<u16>, rest: Seq<u8>) -> Option<u16>
        decreases lengths.len(),
    {
        if lengths.len() == 0 {
            None
        } else if self.matches(rest, lengths[0]) {
            Some(lengths[0])
        } else {
            self.first_match(lengths.skip(1), rest)
        }
    }

    /// The length of the token taken at a position.
    pub open spec fn step(&self, rest: Seq<u8>) -> Option<u16> {
        self.first_match(self.candidates(rest), rest)
    }

    /// The walk over the input meets no position that the length table does not
    /// serve, and never takes an empty token.
    pub open spec fn encodable(&self, rest: Seq<u8>) -> bool
        decreases rest.len(),
    {
        if rest.len() == 0 {
            true
        } else if !has_place(rest) {
            false
        } else {
            match self.step(rest) {
                Some(length) => 0 < length <= rest.len() && self.encodable(
                    rest.skip(length as int),
                ),
                None => true,
            }
        }
    }

    /// The tokens of the input, up to its end or to the first position where no
    /// token matches.
    pub open spec fn tokens(&self, rest: Seq<u8>) -> Seq<u32>
        decreases rest.len(),
    {
        match self.step(rest) {
            Some(length) => if 0 < length <= rest.len() {
                seq![self.encoder()[rest.take(length as int)]] + self.tokens(
                    rest.skip(length as int),
                )
            } else {
                Seq::empty()
            },
            None => Seq::empty(),
        }
    }

    /// The walk reaches the end of the input.
    pub open spec fn complete(&self, rest: Seq<u8>) -> bool
        decreases rest.len(),
    {
        rest.len() == 0 || match self.step(rest) {
            Some(length) => 0 < length <= rest.len() && self.complete(rest.skip(length as int)),
            None => false,
        }
    }

    /// The tokenizer of a vocabulary: of the tokens with the same bytes, that of the
    /// largest number is taken, and the decoder reaches up to the largest number.
    pub open spec fn is_of_vocab(&self, vocab: Map<u32, Seq<u8>>) -> bool {
        &&& forall|b: Seq<u8>| #[trigger]
            self.encoder().contains_key(b) <==> exists|n: u32| #[trigger]
                vocab.contains_key(n) && vocab[n] == b
        &&& forall|b: Seq<u8>| #[trigger]
            self.encoder().contains_key(b) ==> vocab.contains_key(self.encoder()[b])
                && vocab[self.encoder()[b]] == b
        &&& forall|n: u32| #[trigger]
            vocab.contains_key(n) ==> n <= self.encoder()[vocab[n]] && n < self.decoder().len()
                && self.decoder()[n as int] == vocab[n]
        &&& forall|n: u32|
            n < self.decoder().len() && !#[trigger] vocab.contains_key(n) ==> self.decoder()[n as int]
                == Seq::<u8>::empty()
        &&& 1 <= self.decoder().len() <= u32::MAX + 1
        &&& self.decoder().len() == 1 || vocab.contains_key((self.decoder().len() - 1) as u32)
        &&& forall|at: int, length: u16|
            0 <= at < TABLE_SIZE ==> (#[trigger] self.lengths()[at].contains(length) <==> length
                == 1 || exists|n: u32| token_has_length(self.little(), vocab, n, at, length))
    }

    /// Makes the tokenizer of a vocabulary, from token numbers to patterns. A token must not
    /// begin with two bytes of 255.
    pub fn new(vocab: &BTreeMap<u32, StrOrBytes>) -> (t: Self)
        requires
            tokens_have_place(vocab_view(vocab@)),
        ensures
            t.is_of_vocab(vocab_view(vocab@)),
    {
        let list = Self::list_vocab(vocab);
        let ghost plain = list_view(list@);
        let ghost map = vocab_view(vocab@);
        assert(all_have_place(plain)) by {
            assert forall|i: int| 0 <= i < plain.len() implies has_place((#[trigger] plain[i]).0) by {
                assert(map.contains_key(plain[i].1));
            }
        }
        let t = Self::from_list(list);
        proof {
            list_is_vocab(t, plain, map);
        }
        t
    }

    /// As `new`, for any vocabulary: `None` if a token begins with two bytes of 255.
    pub fn checked_new(vocab: &BTreeMap<u32, StrOrBytes>) -> (r: Option<Self>)
        ensures
            r is Some <==> tokens_have_place(vocab_view(vocab@)),
            r matches Some(t) ==> t.is_of_vocab(vocab_view(vocab@)),
    {
        let list = Self::list_vocab(vocab);
        let ghost plain = list_view(list@);
        let ghost map = vocab_view(vocab@);
        let mut i: usize = 0;
        while i < list.len()
            invariant
                i <= list@.len(),
                plain == list_view(list@),
                map == vocab_view(vocab@),
                lists(plain, map),
                forall|j: int| 0 <= j < i ==> has_place((#[trigger] plain[j]).0),
            decreases list@.len() - i,
        {
            let bytes = &list[i].0;
            assert(plain[i as int].0 == bytes@);
            if bytes.len() >= 2 && bytes[0] == 255 && bytes[1] == 255 {
                assert(map.contains_key(plain[i as int].1));
                return None;
            }
            i += 1;
        }
        assert(tokens_have_place(map)) by {
            assert forall|n: u32| #[trigger] map.contains_key(n) implies has_place(map[n]) by {
                let j = choose|j: int| 0 <= j < plain.len() && (#[trigger] plain[j]).1 == n;
                assert(has_place(plain[j].0));
            }
        }
        Some(Self::new(vocab))
    }

    /// The entries of a vocabulary, by increasing token number.
    fn list_vocab(vocab: &BTreeMap<u32, StrOrBytes>) -> (r: Vec<(Vec<u8>, u32)>)
        ensures
            lists(list_view(r@), vocab_view(vocab@)),
    {
        broadcast use vstd::std_specs::btree::group_btree_axioms;

        let iter = vocab.iter();
        let ghost pairs = iter.remaining();
        let ghost numbers = pairs.map_values(|kv: (&u32, &StrOrBytes)| *kv.0);
        let mut list: Vec<(Vec<u8>, u32)> = Vec::new();
        for pair in it: iter
            invariant
                it.seq() == pairs,
                it.index() == list@.len(),
                forall|j: int|
                    0 <= j < list@.len() ==> (#[trigger] list@[j]).1 == *pairs[j].0
                        && list@[j].0@ == pairs[j].1@,
        {
            let bytes = match pair.1 {
                StrOrBytes::Str(s) => s.as_str().as_bytes_vec(),
                StrOrBytes::Bytes(bytes) => {
                    let copy = bytes.clone();
                    assert(copy@ =~= bytes@);
                    copy
                },
            };
            list.push((bytes, *pair.0));
        }
        proof {
            let plain = list_view(list@);
            let map = vocab_view(vocab@);
            assert(increasing_seq(numbers));
            assert forall|i: int, j: int| 0 <= i < j < plain.len() implies (#[trigger] plain[i]).1
                < (#[trigger] plain[j]).1 by {
                assert(numbers[i].cmp_spec(&numbers[j]) is Less);
            }
            assert forall|i: int| 0 <= i < plain.len() implies map.contains_key(
                (#[trigger] plain[i]).1,
            ) && map[plain[i].1] == plain[i].0 by {
                assert(vocab@.contains_key(*pairs[i].0));
            }
            assert forall|n: u32| #[trigger] map.contains_key(n) implies exists|i: int|
                0 <= i < plain.len() && (#[trigger] plain[i]).1 == n by {
                assert(vocab@.contains_key(n));
                assert(pairs.contains((&n, &vocab@[n])));
                let i = choose|i: int| 0 <= i < pairs.len() && pairs[i] == (&n, &vocab@[n]);
                assert(plain[i].1 == n);
            }
        }
        list
    }

    /// Makes the tokenizer of a list of entries, by increasing token number.
    pub fn from_list(list: Vec<(Vec<u8>, u32)>) -> (t: Self)
        requires
            increasing(list_view(list@)),
            all_have_place(list_view(list@)),
        ensures
            t.is_of(list_view(list@)),
    {
        let ghost plain = list_view(list@);
        let little_endian = native_u16(1, 0) == 1;
        let mut sets: Vec<AHashSet<u16>> = Vec::new();
        while sets.len() < TABLE_SIZE
            invariant
                sets@.len() <= TABLE_SIZE,
                forall|at: int, length: u16|
                    0 <= at < sets@.len() ==> (#[trigger] crate::hash::length_set(
                        sets@[at],
                    ).contains(length) <==> is_vocab_length(little_endian, plain.take(0), at, length)),
            decreases TABLE_SIZE - sets@.len(),
        {
            let mut set = length_set_new();
            length_set_insert(&mut set, 1);
            sets.push(set);
        }

        let top: usize = if list.len() == 0 {
            0
        } else {
            list[list.len() - 1].1 as usize
        };
        let mut token_index_to_bytes: Vec<Vec<u8>> = Vec::new();
        while token_index_to_bytes.len() <= top
            invariant
                token_index_to_bytes@.len() <= top + 1,
                forall|x: int|
                    0 <= x < token_index_to_bytes@.len() ==> (#[trigger] token_index_to_bytes@[x])@
                        == vocab_bytes(plain.take(0), x),
            decreases top + 1 - token_index_to_bytes@.len(),
        {
            let empty: Vec<u8> = Vec::new();
            assert(empty@ =~= vocab_bytes(plain.take(0), token_index_to_bytes@.len() as int));
            token_index_to_bytes.push(empty);
        }

        let mut bytes_to_token_index = token_map_new();
        assert(crate::hash::token_map(bytes_to_token_index) =~= vocab_encoder(plain.take(0)));
        let mut i: usize = 0;
        while i < list.len()
            invariant
                i <= list@.len(),
                plain == list_view(list@),
                increasing(plain),
                all_have_place(plain),
                sets@.len() == TABLE_SIZE,
                token_index_to_bytes@.len() == top + 1,
                plain.len() > 0 ==> top == plain.last().1,
                crate::hash::token_map(bytes_to_token_index) == vocab_encoder(plain.take(i as int)),
                forall|x: int|
                    0 <= x <= top ==> (#[trigger] token_index_to_bytes@[x])@ == vocab_bytes(
                        plain.take(i as int),
                        x,
                    ),
                forall|at: int, length: u16|
                    0 <= at < TABLE_SIZE ==> (#[trigger] crate::hash::length_set(
                        sets@[at],
                    ).contains(length) <==> is_vocab_length(little_endian, plain.take(i as int), at, length)),
            decreases list@.len() - i,
        {
            let bytes = &list[i].0;
            let index = list[i].1;
            let ghost entry = plain[i as int];
            let ghost before = plain.take(i as int);
            let ghost after = plain.take(i + 1);
            proof {
                assert(entry == (bytes@, index));
                assert(after.drop_last() =~= before);
                assert(after.last() == entry);
                assert(has_place(entry.0));
                assert(index <= top) by {
                    if i < plain.len() - 1 {
                        assert(plain[i as int].1 < plain[plain.len() - 1].1);
                    }
                }
                lemma_lengths_grow(little_endian, plain, i as int);
            }
            if bytes.len() >= 2 {
                let at = table_key(little_endian, bytes[0], bytes[1]);
                let ghost old_sets = sets@;
                let short = (bytes.len() % 65536) as u16;
                length_set_insert(&mut sets[at], short);
                assert forall|a: int, length: u16| 0 <= a < TABLE_SIZE implies (
                #[trigger] crate::hash::length_set(sets@[a]).contains(length) <==> is_vocab_length(
                    little_endian,
                    after,
                    a,
                    length,
                )) by {
                    if a == at {
                        assert(crate::hash::length_set(sets@[a]) == crate::hash::length_set(
                            old_sets[a],
                        ).insert(short_length(bytes@.len())));
                        assert(crate::hash::length_set(old_sets[a]).contains(length)
                            <==> is_vocab_length(little_endian, before, a, length));
                    } else {
                        assert(sets@[a] == old_sets[a]);
                    }
                }
            }
            let copy = bytes.clone();
            assert(copy@ =~= bytes@);
            token_map_insert(&mut bytes_to_token_index, copy, index);
            let copy = bytes.clone();
            assert(copy@ =~= bytes@);
            token_index_to_bytes[index as usize] = copy;
            i += 1;
        }
        assert(plain.take(i as int) =~= plain);

        let mut first_bytes_to_lengths: Vec<Vec<u16>> = Vec::new();
        let mut at: usize = 0;
        while at < sets.len()
            invariant
                at <= sets@.len() == TABLE_SIZE,
                at == first_bytes_to_lengths@.len(),
                forall|a: int, length: u16|
                    0 <= a < TABLE_SIZE ==> (#[trigger] crate::hash::length_set(
                        sets@[a],
                    ).contains(length) <==> is_vocab_length(little_endian, plain, a, length)),
                forall|a: int|
                    0 <= a < at ==> descending((#[trigger] first_bytes_to_lengths@[a])@),
                forall|a: int, length: u16|
                    0 <= a < at ==> (#[trigger] first_bytes_to_lengths@[a]@.contains(length)
                        <==> is_vocab_length(little_endian, plain, a, length)),
            decreases sets@.len() - at,
        {
            let items = length_set_items(&sets[at]);
            let sorted = sort_descending(items);
            proof {
                assert forall|length: u16| #[trigger] sorted@.contains(length) <==> is_vocab_length(
                    little_endian,
                    plain,
                    at as int,
                    length,
                ) by {
                    assert(crate::hash::length_set(sets@[at as int]).contains(length)
                        <==> is_vocab_length(little_endian, plain, at as int, length));
                }
            }
            first_bytes_to_lengths.push(sorted);
            at += 1;
        }
        proof {
            lemma_vocab_wf(little_endian, plain);
            let lengths = length_rows(first_bytes_to_lengths@);
            assert forall|a: int| 0 <= a < TABLE_SIZE implies descending(#[trigger] lengths[a])
                && lengths[a].contains(1u16) by {
                assert(lengths[a] == first_bytes_to_lengths@[a]@);
                assert(is_vocab_length(little_endian, plain, a, 1));
            }
            assert(rows(token_index_to_bytes@) =~= vocab_decoder(plain));
            assert forall|b: Seq<u8>| #[trigger] vocab_encoder(plain).contains_key(b) implies {
                &&& vocab_encoder(plain)[b] < vocab_decoder(plain).len()
                &&& vocab_decoder(plain)[vocab_encoder(plain)[b] as int] == b
                &&& has_place(b)
                &&& b.len() >= 2 ==> lengths[key(little_endian, b)].contains(short_length(b.len()))
            } by {
                if b.len() >= 2 {
                    assert(first_bytes_to_lengths@[key(little_endian, b)]@.contains(short_length(b.len())));
                }
            }
        }
        Tokenizer {
            little_endian,
            first_bytes_to_lengths,
            bytes_to_token_index,
            token_index_to_bytes,
        }
    }
}

impl Clone for Tokenizer {
    fn clone(&self) -> (r: Self)
        ensures
            r.little() == self.little(),
            r.lengths() == self.lengths(),
            r.encoder() == self.encoder(),
            r.decoder() == self.decoder(),
    {
        proof {
            use_type_invariant(self);
        }
        let first_bytes_to_lengths = self.first_bytes_to_lengths.clone();
        let token_index_to_bytes = self.token_index_to_bytes.clone();
        let bytes_to_token_index = token_map_clone(&self.bytes_to_token_index);
        assert(length_rows(first_bytes_to_lengths@) =~= self.lengths()) by {
            assert forall|i: int| 0 <= i < self.first_bytes_to_lengths@.len() implies (
            #[trigger] first_bytes_to_lengths@[i])@ == self.first_bytes_to_lengths@[i]@ by {
                assert(first_bytes_to_lengths@[i]@ =~= self.first_bytes_to_lengths@[i]@);
            }
        }
        assert(rows(token_index_to_bytes@) =~= self.decoder()) by {
            assert forall|i: int| 0 <= i < self.token_index_to_bytes@.len() implies (
            #[trigger] token_index_to_bytes@[i])@ == self.token_index_to_bytes@[i]@ by {
                assert(token_index_to_bytes@[i]@ =~= self.token_index_to_bytes@[i]@);
            }
        }
        Tokenizer {
            little_endian: self.little_endian,
            first_bytes_to_lengths,
            bytes_to_token_index,
            token_index_to_bytes,
        }
    }
}

/// Adding entry `i` adds its length at its key, and nothing else.
proof fn lemma_lengths_grow(little: bool, list: Seq<Entry>, i: int)
    requires
        0 <= i < list.len(),
    ensures
        forall|at: int, length: u16| #[trigger]
            is_vocab_length(little, list.take(i + 1), at, length) <==> is_vocab_length(
                little,
                list.take(i),
                at,
                length,
            ) || entry_has_length(little, list, i, at, length),
{
    let before = list.take(i);
    let after = list.take(i + 1);
    assert forall|at: int, length: u16| #[trigger]
        is_vocab_length(little, after, at, length) <==> is_vocab_length(little, before, at, length)
            || entry_has_length(little, list, i, at, length) by {
        if is_vocab_length(little, after, at, length) && length != 1 {
            let k = choose|k: int| entry_has_length(little, after, k, at, length);
            if k < i {
                assert(entry_has_length(little, before, k, at, length));
            } else {
                assert(entry_has_length(little, list, i, at, length));
            }
        }
        if is_vocab_length(little, before, at, length) && length != 1 {
            let k = choose|k: int| entry_has_length(little, before, k, at, length);
            assert(entry_has_length(little, after, k, at, length));
        }
        if entry_has_length(little, list, i, at, length) {
            assert(entry_has_length(little, after, i, at, length));
        }
    }
}

/// What a vocabulary maps bytes to, it maps back to the same bytes.
proof fn lemma_vocab_round_trip(list: Seq<Entry>, b: Seq<u8>) -> (i: int)
    requires
        increasing(list),
        vocab_encoder(list).contains_key(b),
    ensures
        0 <= i < list.len(),
        list[i] == (b, vocab_encoder(list)[b]),
        vocab_bytes(list, vocab_encoder(list)[b] as int) == b,
    decreases list.len(),
{
    let last = list.last();
    if last.0 == b {
        list.len() - 1
    } else {
        let shorter = list.drop_last();
        assert forall|i: int, j: int| 0 <= i < j < shorter.len() implies (#[trigger] shorter[i]).1
            < (#[trigger] shorter[j]).1 by {
            assert(list[i].1 < list[j].1);
        }
        let i = lemma_vocab_round_trip(shorter, b);
        assert(shorter[i] == list[i]);
        assert(list[i].1 < list[list.len() - 1].1);
        i
    }
}

/// A vocabulary list gives a well-formed tokenizer.
proof fn lemma_vocab_wf(little: bool, list: Seq<Entry>)
    requires
        increasing(list),
        all_have_place(list),
    ensures
        forall|b: Seq<u8>| #[trigger]
            vocab_encoder(list).contains_key(b) ==> {
                &&& vocab_encoder(list)[b] < vocab_decoder(list).len()
                &&& vocab_decoder(list)[vocab_encoder(list)[b] as int] == b
                &&& has_place(b)
                &&& b.len() >= 2 ==> is_vocab_length(little, list, key(little, b), short_length(b.len()))
            },
{
    assert forall|b: Seq<u8>| #[trigger] vocab_encoder(list).contains_key(b) implies {
        &&& vocab_encoder(list)[b] < vocab_decoder(list).len()
        &&& vocab_decoder(list)[vocab_encoder(list)[b] as int] == b
        &&& has_place(b)
        &&& b.len() >= 2 ==> is_vocab_length(little, list, key(little, b), short_length(b.len()))
    } by {
        let i = lemma_vocab_round_trip(list, b);
        assert(has_place(list[i].0));
        if i < list.len() - 1 {
            assert(list[i].1 < list[list.len() - 1].1);
        }
        if b.len() >= 2 {
            assert(entry_has_length(little, list, i, key(little, b), short_length(b.len())));
        }
    }
}

/// A tokenizer of the list of a vocabulary is one of the vocabulary.
pub proof fn list_is_vocab(t: Tokenizer, list: Seq<Entry>, vocab: Map<u32, Seq<u8>>)
    requires
        lists(list, vocab),
        t.is_of(list),
    ensures
        t.is_of_vocab(vocab),
{
    let little = t.little();
    lemma_list_encoder(list);
    assert forall|b: Seq<u8>| #[trigger] t.encoder().contains_key(b) <==> exists|n: u32| #[trigger]
        vocab.contains_key(n) && vocab[n] == b by {
        if t.encoder().contains_key(b) {
            let i = lemma_vocab_round_trip(list, b);
            assert(vocab.contains_key(list[i].1));
        }
        if exists|n: u32| #[trigger] vocab.contains_key(n) && vocab[n] == b {
            let n = choose|n: u32| #[trigger] vocab.contains_key(n) && vocab[n] == b;
            let i = choose|i: int| 0 <= i < list.len() && (#[trigger] list[i]).1 == n;
            assert(t.encoder().contains_key(list[i].0));
        }
    }
    assert forall|b: Seq<u8>| #[trigger] t.encoder().contains_key(b) implies vocab.contains_key(
        t.encoder()[b],
    ) && vocab[t.encoder()[b]] == b by {
        let i = lemma_vocab_round_trip(list, b);
        assert(vocab.contains_key(list[i].1));
    }
    assert forall|n: u32| #[trigger] vocab.contains_key(n) implies n <= t.encoder()[vocab[n]] && n
        < t.decoder().len() && t.decoder()[n as int] == vocab[n] by {
        let i = choose|i: int| 0 <= i < list.len() && (#[trigger] list[i]).1 == n;
        assert(list[i] == (vocab[n], n));
        if i < list.len() - 1 {
            assert(list[i].1 < list[list.len() - 1].1);
        }
        lemma_list_bytes(list, i);
    }
    assert forall|n: u32| n < t.decoder().len() && !#[trigger] vocab.contains_key(n) implies
        t.decoder()[n as int] == Seq::<u8>::empty() by {
        lemma_no_bytes(list, n as int);
    }
    if list.len() > 0 {
        assert(vocab.contains_key(list[list.len() - 1].1));
    }
    assert forall|at: int, length: u16| 0 <= at < TABLE_SIZE implies (
    #[trigger] t.lengths()[at].contains(length) <==> length == 1 || exists|n: u32|
        token_has_length(little, vocab, n, at, length)) by {
        if length != 1 {
            if is_vocab_length(little, list, at, length) {
                let i = choose|i: int| entry_has_length(little, list, i, at, length);
                assert(vocab.contains_key(list[i].1));
                assert(token_has_length(little, vocab, list[i].1, at, length));
            }
            if exists|n: u32| token_has_length(little, vocab, n, at, length) {
                let n = choose|n: u32| token_has_length(little, vocab, n, at, length);
                let i = choose|i: int| 0 <= i < list.len() && (#[trigger] list[i]).1 == n;
                assert(entry_has_length(little, list, i, at, length));
            }
        }
    }
}

/// Every entry is in the encoder, under its number or a larger one.
proof fn lemma_list_encoder(list: Seq<Entry>)
    requires
        increasing(list),
    ensures
        forall|i: int|
            0 <= i < list.len() ==> vocab_encoder(list).contains_key((#[trigger] list[i]).0)
                && list[i].1 <= vocab_encoder(list)[list[i].0],
    decreases list.len(),
{
    if list.len() > 0 {
        let before = list.drop_last();
        assert forall|i: int, j: int| 0 <= i < j < before.len() implies (#[trigger] before[i]).1
            < (#[trigger] before[j]).1 by {
            assert(list[i].1 < list[j].1);
        }
        lemma_list_encoder(before);
        assert forall|i: int| 0 <= i < list.len() implies vocab_encoder(list).contains_key(
            (#[trigger] list[i]).0,
        ) && list[i].1 <= vocab_encoder(list)[list[i].0] by {
            if i < before.len() {
                assert(before[i] == list[i]);
                assert(list[i].1 < list[list.len() - 1].1);
            }
        }
    }
}

/// The bytes of the number of an entry are those of the entry.
proof fn lemma_list_bytes(list: Seq<Entry>, i: int)
    requires
        increasing(list),
        0 <= i < list.len(),
    ensures
        vocab_bytes(list, list[i].1 as int) == list[i].0,
    decreases list.len(),
{
    if i < list.len() - 1 {
        let before = list.drop_last();
        assert forall|i: int, j: int| 0 <= i < j < before.len() implies (#[trigger] before[i]).1
            < (#[trigger] before[j]).1 by {
            assert(list[i].1 < list[j].1);
        }
        assert(list[i].1 < list[list.len() - 1].1);
        lemma_list_bytes(before, i);
    }
}

/// A number that no entry has stands for no bytes.
proof fn lemma_no_bytes(list: Seq<Entry>, index: int)
    requires
        forall|i: int| 0 <= i < list.len() ==> (#[trigger] list[i]).1 != index,
    ensures
        vocab_bytes(list, index) == Seq::<u8>::empty(),
    decreases list.len(),
{
    if list.len() > 0 {
        let before = list.drop_last();
        assert(list[list.len() - 1].1 != index);
        assert forall|i: int| 0 <= i < before.len() implies (#[trigger] before[i]).1 != index by {
            assert(before[i] == list[i]);
        }
        lemma_no_bytes(before, index);
    }
}

/// The key of two bytes in the length table.
fn table_key(little_endian: bool, first: u8, second: u8) -> (r: usize)
    ensures
        r == key_of(little_endian, first, second),
{
    if little_endian {
        first as usize + 256 * second as usize
    } else {
        256 * first as usize + second as usize
    }
}

/// Sorts distinct lengths, the largest first.
fn sort_descending(items: Vec<u16>) -> (r: Vec<u16>)
    requires
        items@.no_duplicates(),
    ensures
        descending(r@),
        forall|l: u16| #[trigger] r@.contains(l) <==> items@.contains(l),
{
    let mut sorted: Vec<u16> = Vec::new();
    let mut i: usize = 0;
    while i < items.len()
        invariant
            i <= items@.len(),
            items@.no_duplicates(),
            descending(sorted@),
            forall|l: u16| #[trigger] sorted@.contains(l) <==> items@.take(i as int).contains(l),
        decreases items@.len() - i,
    {
        let item = items[i];
        let ghost before = sorted@;
        let ghost taken = items@.take(i as int);
        assert(!before.contains(item)) by {
            if taken.contains(item) {
                let k = choose|k: int| 0 <= k < taken.len() && taken[k] == item;
                assert(items@[k] == items@[i as int]);
            }
        }
        let mut place: usize = 0;
        while place < sorted.len() && sorted[place] > item
            invariant
                place <= sorted@.len(),
                sorted@ == before,
                forall|k: int| 0 <= k < place ==> sorted@[k] > item,
            decreases sorted@.len() - place,
        {
            place += 1;
        }
        assert(place < before.len() ==> before[place as int] < item) by {
            if place < before.len() {
                assert(before.contains(before[place as int]));
            }
        }
        sorted.insert(place, item);
        proof {
            assert forall|a: int, b: int| 0 <= a < b < sorted@.len() implies sorted@[a]
                > sorted@[b] by {
                if b < place {
                } else if a < place && b == place {
                } else if a < place {
                    assert(sorted@[b] == before[b - 1]);
                } else if a == place {
                    assert(sorted@[b] == before[b - 1]);
                    if b - 1 > place {
                        assert(before[place as int] > before[b - 1]);
                    }
                } else {
                    assert(sorted@[a] == before[a - 1] && sorted@[b] == before[b - 1]);
                }
            }
            let after = items@.take(i + 1);
            assert forall|l: u16| #[trigger] sorted@.contains(l) <==> after.contains(l) by {
                if sorted@.contains(l) {
                    let k = choose|k: int| 0 <= k < sorted@.len() && sorted@[k] == l;
                    if k == place {
                        assert(after[i as int] == l);
                    } else {
                        let m = if k < place {
                            k
                        } else {
                            k - 1
                        };
                        assert(before[m] == l);
                        assert(before.contains(l));
                        assert(taken.contains(l));
                        let n = choose|n: int| 0 <= n < taken.len() && taken[n] == l;
                        assert(after[n] == l);
                    }
                }
                if after.contains(l) {
                    let n = choose|n: int| 0 <= n < after.len() && after[n] == l;
                    if n == i {
                        assert(sorted@[place as int] == l);
                    } else {
                        assert(taken[n] == l);
                        assert(before.contains(l));
                        let m = choose|m: int| 0 <= m < before.len() && before[m] == l;
                        if m < place {
                            assert(sorted@[m] == l);
                        } else {
                            assert(sorted@[m + 1] == l);
                        }
                    }
                }
            }
        }
        i += 1;
    }
    assert(items@.take(i as int) =~= items@);
    sorted
}

impl Tokenizer {
    /// For each two-byte key, the token lengths to try, the largest first.
    pub fn first_bytes_to_lengths(&self) -> (r: &Vec<Vec<u16>>)
        ensures
            length_rows(r@) == self.lengths(),
    {
        &self.first_bytes_to_lengths
    }

    /// From token bytes to token numbers.
    pub fn bytes_to_token_index(&self) -> (r: &AHashMap<Vec<u8>, u32>)
        ensures
            crate::hash::token_map(*r) == self.encoder(),
    {
        &self.bytes_to_token_index
    }

    /// From token numbers to token bytes.
    pub fn token_index_to_bytes(&self) -> (r: &Vec<Vec<u8>>)
        ensures
            rows(r@) == self.decoder(),
    {
        &self.token_index_to_bytes
    }

    /// The tokens of an input.
    pub fn encode(&self, input: &[u8]) -> (r: Result<Vec<u32>, TokenizerError>)
        requires
            self.encodable(input@),
        ensures
            r is Ok <==> self.complete(input@),
            r matches Ok(output) ==> output@ == self.tokens(input@),
            r matches Err(e) ==> e is NoMatchingTokenFound,
    {
        let mut output: Vec<u32> = Vec::new();
        match self.encode_into(input, &mut output) {
            Ok(()) => {
                assert(output@ =~= self.tokens(input@));
                Ok(output)
            },
            Err(e) => Err(e),
        }
    }

    /// As `encode`, for any input: `None` if the walk over it meets a position that
    /// the length table does not serve, or takes an empty token.
    pub fn checked_encode(&self, input: &[u8]) -> (r: Option<Result<Vec<u32>, TokenizerError>>)
        ensures
            r is Some <==> self.encodable(input@),
            r matches Some(Ok(output)) ==> self.complete(input@) && output@ == self.tokens(input@),
            r matches Some(Err(e)) ==> !self.complete(input@) && e is NoMatchingTokenFound,
    {
        let mut output: Vec<u32> = Vec::new();
        match self.walk(input, &mut output) {
            Walk::Done => {
                assert(output@ =~= self.tokens(input@));
                Some(Ok(output))
            },
            Walk::NoMatch => Some(Err(TokenizerError::NoMatchingTokenFound)),
            Walk::Stuck => None,
        }
    }

    /// Appends the tokens of an input, up to the first position where no token
    /// matches.
    pub fn encode_into(&self, input: &[u8], output: &mut Vec<u32>) -> (r: Result<
        (),
        TokenizerError,
    >)
        requires
            self.encodable(input@),
        ensures
            r is Ok <==> self.complete(input@),
            r matches Err(e) ==> e is NoMatchingTokenFound,
            final(output)@ == old(output)@ + self.tokens(input@),
    {
        match self.walk(input, output) {
            Walk::Done => Ok(()),
            _ => Err(TokenizerError::NoMatchingTokenFound),
        }
    }

    /// Appends the tokens of an input.
    fn walk(&self, input: &[u8], output: &mut Vec<u32>) -> (r: Walk)
        ensures
            r is Stuck <==> !self.encodable(input@),
            r !is Stuck ==> (r is Done <==> self.complete(input@)),
            r !is Stuck ==> final(output)@ == old(output)@ + self.tokens(input@),
    {
        proof {
            use_type_invariant(self);
        }
        let mut at: usize = 0;
        assert(input@.skip(0) =~= input@);
        while at < input.len()
            invariant
                at <= input@.len(),
                self.wf(),
                self.encodable(input@) <==> self.encodable(input@.skip(at as int)),
                self.complete(input@) <==> self.complete(input@.skip(at as int)),
                output@ + self.tokens(input@.skip(at as int)) == old(output)@ + self.tokens(input@),
            decreases input@.len() - at,
        {
            let ghost rest = input@.skip(at as int);
            let left = input.len() - at;
            if left >= 2 && input[at] == 255 && input[at + 1] == 255 {
                return Walk::Stuck;
            }
            assert(has_place(rest));
            let found = self.find_length(input, at);
            match found {
                None => {
                    assert(self.tokens(rest) =~= Seq::empty());
                    assert(output@ =~= output@ + self.tokens(rest));
                    return Walk::NoMatch;
                },
                Some((length, token)) => {
                    if length == 0 {
                        return Walk::Stuck;
                    }
                    let ghost before = output@;
                    output.push(token);
                    assert(rest.skip(length as int) =~= input@.skip(at + length));
                    assert(output@ + self.tokens(input@.skip(at + length)) =~= before
                        + self.tokens(rest));
                    at += length;
                },
            }
        }
        assert(input@.skip(at as int) =~= Seq::empty());
        assert(self.candidates(Seq::empty()) =~= seq![1u16]);
        assert(self.first_match(seq![1u16], Seq::empty()) is None) by {
            reveal_with_fuel(Tokenizer::first_match, 2);
        }
        assert(self.tokens(Seq::empty()) =~= Seq::empty());
        assert(output@ =~= output@ + self.tokens(input@.skip(at as int)));
        Walk::Done
    }

    /// The length and number of the token to take at a position.
    fn find_length(&self, input: &[u8], at: usize) -> (r: Option<(usize, u32)>)
        requires
            at < input@.len(),
            has_place(input@.skip(at as int)),
        ensures
            r is Some <==> self.step(input@.skip(at as int)) is Some,
            r matches Some((length, token)) ==> {
                let rest = input@.skip(at as int);
                &&& self.step(rest) == Some(length as u16)
                &&& length <= rest.len()
                &&& length <= u16::MAX
                &&& token == self.encoder()[rest.take(length as int)]
            },
    {
        proof {
            use_type_invariant(self);
        }
        let ghost rest = input@.skip(at as int);
        let left = input.len() - at;
        if left < 2 {
            let slice = vstd::slice::slice_subrange(input, at, at + 1);
            assert(slice@ =~= rest.take(1));
            assert(self.first_match(seq![1u16], rest) == (if self.matches(rest, 1) {
                Some(1u16)
            } else {
                None
            })) by {
                reveal_with_fuel(Tokenizer::first_match, 2);
            }
            return match token_map_get(&self.bytes_to_token_index, slice) {
                Some(token) => Some((1, token)),
                None => None,
            };
        }
        let place = table_key(self.little_endian, input[at], input[at + 1]);
        assert(place == key(self.little(), rest));
        let lengths = &self.first_bytes_to_lengths[place];
        assert(lengths@ == self.lengths()[place as int]);
        let mut i: usize = 0;
        assert(lengths@.skip(0) =~= lengths@);
        while i < lengths.len()
            invariant
                i <= lengths@.len(),
                at + left == input.len(),
                rest == input@.skip(at as int),
                self.step(rest) == self.first_match(lengths@.skip(i as int), rest),
            decreases lengths@.len() - i,
        {
            let length = lengths[i] as usize;
            assert(lengths@.skip(i as int)[0] == lengths@[i as int]);
            assert(lengths@.skip(i as int).skip(1) =~= lengths@.skip(i + 1));
            if length <= left {
                let slice = vstd::slice::slice_subrange(input, at, at + length);
                assert(slice@ =~= rest.take(length as int));
                if let Some(token) = token_map_get(&self.bytes_to_token_index, slice) {
                    return Some((length, token));
                }
            }
            i += 1;
        }
        None
    }

    /// The bytes of a list of tokens.
    pub fn decode(&self, tokens: &[u32]) -> (r: Result<Vec<u8>, TokenizerError>)
        ensures
            r is Ok <==> in_range(self.decoder(), tokens@) == tokens@.len(),
            r matches Ok(output) ==> output@ == joined(self.decoder(), tokens@),
            r matches Err(e) ==> e == TokenizerError::OutOfRangeToken(
                tokens@[in_range(self.decoder(), tokens@) as int],
            ),
    {
        let mut output: Vec<u8> = Vec::new();
        match self.decode_into(tokens, &mut output) {
            Ok(()) => {
                assert(tokens@.take(tokens@.len() as int) =~= tokens@);
                assert(output@ =~= joined(self.decoder(), tokens@));
                Ok(output)
            },
            Err(e) => Err(e),
        }
    }

    /// Appends the bytes of a list of tokens, up to the first that is out of range.
    pub fn decode_into(&self, tokens: &[u32], output: &mut Vec<u8>) -> (r: Result<
        (),
        TokenizerError,
    >)
        ensures
            r is Ok <==> in_range(self.decoder(), tokens@) == tokens@.len(),
            r matches Err(e) ==> e == TokenizerError::OutOfRangeToken(
                tokens@[in_range(self.decoder(), tokens@) as int],
            ),
            final(output)@ == old(output)@ + joined(
                self.decoder(),
                tokens@.take(in_range(self.decoder(), tokens@) as int),
            ),
    {
        join_rows(&self.token_index_to_bytes, tokens, output)
    }
}

/// How many tokens there are before the first that the table does not reach.
pub open spec fn in_range(table: Seq<Seq<u8>>, tokens: Seq<u32>) -> nat
    decreases tokens.len(),
{
    if tokens.len() == 0 || tokens[0] >= table.len() {
        0
    } else {
        1 + in_range(table, tokens.skip(1))
    }
}

/// The bytes of the tokens, one after the other.
pub open spec fn joined(table: Seq<Seq<u8>>, tokens: Seq<u32>) -> Seq<u8>
    decreases tokens.len(),
{
    if tokens.len() == 0 {
        Seq::empty()
    } else {
        joined(table, tokens.drop_last()) + table[tokens.last() as int]
    }
}

/// `in_range` counts the tokens up to the first that is out of range.
proof fn lemma_in_range(table: Seq<Seq<u8>>, tokens: Seq<u32>, k: int)
    requires
        0 <= k <= tokens.len(),
        forall|i: int| 0 <= i < k ==> tokens[i] < table.len(),
        k < tokens.len() ==> tokens[k] >= table.len(),
    ensures
        in_range(table, tokens) == k,
    decreases k,
{
    if k > 0 {
        assert(tokens[0] < table.len());
        assert forall|i: int| 0 <= i < k - 1 implies tokens.skip(1)[i] < table.len() by {
            assert(tokens.skip(1)[i] == tokens[i + 1]);
        }
        lemma_in_range(table, tokens.skip(1), k - 1);
    }
}

/// Appends the rows of a table that the tokens select.
pub(crate) fn join_rows(table: &Vec<Vec<u8>>, tokens: &[u32], output: &mut Vec<u8>) -> (r: Result<
    (),
    TokenizerError,
>)
    ensures
        r is Ok <==> in_range(rows(table@), tokens@) == tokens@.len(),
        r matches Err(e) ==> e == TokenizerError::OutOfRangeToken(
            tokens@[in_range(rows(table@), tokens@) as int],
        ),
        final(output)@ == old(output)@ + joined(
            rows(table@),
            tokens@.take(in_range(rows(table@), tokens@) as int),
        ),
{
    let ghost all = rows(table@);
    let mut i: usize = 0;
    assert(tokens@.take(0) =~= Seq::empty());
    assert(output@ =~= old(output)@ + joined(all, tokens@.take(0)));
    while i < tokens.len()
        invariant
            i <= tokens@.len(),
            all == rows(table@),
            forall|j: int| 0 <= j < i ==> tokens@[j] < all.len(),
            output@ == old(output)@ + joined(all, tokens@.take(i as int)),
        decreases tokens@.len() - i,
    {
        let token = tokens[i];
        if token as usize >= table.len() {
            proof {
                lemma_in_range(all, tokens@, i as int);
            }
            return Err(TokenizerError::OutOfRangeToken(token));
        }
        let ghost before = output@;
        let row = &table[token as usize];
        output.extend_from_slice(row.as_slice());
        proof {
            let next = tokens@.take(i + 1);
            assert(next.drop_last() =~= tokens@.take(i as int));
            assert(next.last() == token);
            assert(all[token as int] == row@);
            assert(output@ =~= before + row@);
            assert(before + row@ =~= old(output)@ + (joined(all, tokens@.take(i as int)) + row@));
        }
        i += 1;
    }
    proof {
        lemma_in_range(all, tokens@, i as int);
        assert(tokens@.take(i as int) =~= tokens@);
    }
    Ok(())
}

/// Decoding token lists one after the other is decoding them joined.
pub proof fn decode_concatenates(table: Seq<Seq<u8>>, a: Seq<u32>, b: Seq<u32>)
    ensures
        joined(table, a + b) == joined(table, a) + joined(table, b),
    decreases b.len(),
{
    if b.len() == 0 {
        assert(a + b =~= a);
        assert(joined(table, a) + joined(table, b) =~= joined(table, a));
    } else {
        decode_concatenates(table, a, b.drop_last());
        assert((a + b).drop_last() =~= a + b.drop_last());
        assert((a + b).last() == b.last());
        assert(joined(table, a + b) =~= joined(table, a) + joined(table, b));
    }
}

/// Decoding what an input was encoded to gives the input back.
pub proof fn decode_undoes_encode(t: Tokenizer, input: Seq<u8>)
    requires
        t.wf(),
        t.complete(input),
    ensures
        in_range(t.decoder(), t.tokens(input)) == t.tokens(input).len(),
        joined(t.decoder(), t.tokens(input)) == input,
{
    encoded_tokens_decode(t, input);
}

/// The tokens of any input are in range, and decode to the part of the input that
/// the walk covered.
proof fn encoded_tokens_decode(t: Tokenizer, input: Seq<u8>)
    requires
        t.wf(),
    ensures
        forall|i: int|
            0 <= i < t.tokens(input).len() ==> (#[trigger] t.tokens(input)[i])
                < t.decoder().len(),
        in_range(t.decoder(), t.tokens(input)) == t.tokens(input).len(),
        joined(t.decoder(), t.tokens(input)).len() <= input.len(),
        joined(t.decoder(), t.tokens(input)) == input.take(
            joined(t.decoder(), t.tokens(input)).len() as int,
        ),
        t.complete(input) ==> joined(t.decoder(), t.tokens(input)) == input,
    decreases input.len(),
{
    let tokens = t.tokens(input);
    match t.step(input) {
        Some(length) if 0 < length <= input.len() => {
            lemma_first_match(t, t.candidates(input), input);
            let first = input.take(length as int);
            let rest = input.skip(length as int);
            let tail = t.tokens(rest);
            encoded_tokens_decode(t, rest);
            let head = seq![t.encoder()[first]];
            assert(tokens == head + tail);
            decode_concatenates(t.decoder(), head, tail);
            assert(head.drop_last() =~= Seq::empty());
            assert(joined(t.decoder(), head) =~= first) by {
                assert(joined(t.decoder(), head.drop_last()) =~= Seq::empty());
            }
            assert forall|i: int| 0 <= i < tokens.len() implies (#[trigger] tokens[i])
                < t.decoder().len() by {
                if i > 0 {
                    assert(tokens[i] == tail[i - 1]);
                }
            }
            let done = joined(t.decoder(), tail);
            assert(joined(t.decoder(), tokens) == first + done);
            assert(first + done =~= input.take((first + done).len() as int)) by {
                assert(done == rest.take(done.len() as int));
            }
            if t.complete(input) {
                assert(first + rest =~= input);
            }
        },
        _ => {
            assert(tokens =~= Seq::empty());
            assert(joined(t.decoder(), tokens) =~= Seq::empty());
            assert(input.take(0) =~= Seq::empty());
            if t.complete(input) {
                assert(input =~= Seq::empty());
            }
        },
    }
    lemma_in_range(t.decoder(), tokens, tokens.len() as int);
}

/// `first_match` gives a length of the list that matches, and no earlier one does.
pub(crate) proof fn lemma_first_match(t: Tokenizer, lengths: Seq<u16>, rest: Seq<u8>)
    ensures
        t.first_match(lengths, rest) matches Some(length) ==> t.matches(rest, length)
            && exists|i: int|
            0 <= i < lengths.len() && #[trigger] lengths[i] == length && forall|j: int|
                0 <= j < i ==> !t.matches(rest, #[trigger] lengths[j]),
        t.first_match(lengths, rest) is None ==> forall|j: int|
            0 <= j < lengths.len() ==> !t.matches(rest, #[trigger] lengths[j]),
    decreases lengths.len(),
{
    if lengths.len() == 0 {
    } else if t.matches(rest, lengths[0]) {
        assert(lengths[0] == t.first_match(lengths, rest)->Some_0);
    } else {
        let shorter = lengths.skip(1);
        lemma_first_match(t, shorter, rest);
        if t.first_match(shorter, rest) is Some {
            let length = t.first_match(shorter, rest)->Some_0;
            let i = choose|i: int|
                0 <= i < shorter.len() && #[trigger] shorter[i] == length && forall|j: int|
                    0 <= j < i ==> !t.matches(rest, #[trigger] shorter[j]);
            assert(lengths[i + 1] == length);
            assert forall|j: int| 0 <= j < i + 1 implies !t.matches(
                rest,
                #[trigger] lengths[j],
            ) by {
                if j > 0 {
                    assert(lengths[j] == shorter[j - 1]);
                }
            }
        } else {
            assert forall|j: int| 0 <= j < lengths.len() implies !t.matches(
                rest,
                #[trigger] lengths[j],
            ) by {
                if j > 0 {
                    assert(lengths[j] == shorter[j - 1]);
                }
            }
        }
    }
}

/// The token taken at a position is the longest one there: no token that is a
/// prefix of what is left is longer. This is of the tokens whose length fits in
/// sixteen bits; and where nothing is taken, none of them matches.
pub proof fn step_is_longest_match(t: Tokenizer, rest: Seq<u8>, token: Seq<u8>)
    requires
        t.wf(),
        rest.len() > 0,
        has_place(rest),
        t.encoder().contains_key(token),
        0 < token.len() <= rest.len(),
        token.len() < 65536,
        rest.take(token.len() as int) == token,
    ensures
        t.step(rest) matches Some(length) && token.len() <= length,
{
    let lengths = t.candidates(rest);
    lemma_first_match(t, lengths, rest);
    let own = token.len() as u16;
    assert(t.matches(rest, own));
    assert(lengths.contains(own)) by {
        if rest.len() < 2 {
            assert(seq![1u16][0] == own);
        } else if token.len() >= 2 {
            assert(token[0] == rest[0] && token[1] == rest[1]);
            assert(key(t.little(), token) == key(t.little(), rest));
        }
    }
    let k = choose|k: int| 0 <= k < lengths.len() && lengths[k] == own;
    assert(t.matches(rest, lengths[k]));
    let length = t.step(rest)->Some_0;
    let i = choose|i: int|
        0 <= i < lengths.len() && #[trigger] lengths[i] == length && forall|j: int|
            0 <= j < i ==> !t.matches(rest, #[trigger] lengths[j]);
    assert(i <= k);
    if rest.len() >= 2 {
        assert(descending(t.lengths()[key(t.little(), rest)]));
    }
}

/// No walk can take an empty token: there is none, or the length table has no length zero.
spec fn takes_no_empty_token(t: Tokenizer) -> bool {
    ||| !t.encoder().contains_key(Seq::empty())
    ||| forall|at: int| 0 <= at < TABLE_SIZE ==> !(#[trigger] t.lengths()[at]).contains(0u16)
}

proof fn lemma_plain_input(t: Tokenizer, input: Seq<u8>)
    requires
        t.wf(),
        takes_no_empty_token(t),
        is_plain(input),
    ensures
        t.encodable(input),
    decreases input.len(),
{
    if input.len() > 0 {
        if input.len() >= 2 {
            assert(!(input[0] == 255 && input[1] == 255));
        }
        lemma_first_match(t, t.candidates(input), input);
        if let Some(length) = t.step(input) {
            if length == 0 {
                assert(input.take(0) =~= Seq::empty());
                if input.len() >= 2 {
                    assert(t.lengths()[key(t.little(), input)].contains(0u16));
                }
            }
            let rest = input.skip(length as int);
            assert forall|i: int| 0 <= i < rest.len() - 1 implies !(#[trigger] rest[i] == 255
                && rest[i + 1] == 255) by {
                assert(rest[i] == input[i + length]);
                assert(rest[i + 1] == input[i + length + 1]);
            }
            lemma_plain_input(t, rest);
        }
    }
}

/// No two adjacent bytes are 255.
pub open spec fn is_plain(input: Seq<u8>) -> bool {
    forall|i: int|
        0 <= i < input.len() - 1 ==> !(#[trigger] input[i] == 255 && input[i + 1] == 255)
}

/// An input without two adjacent bytes of 255 can be encoded by the tokenizer of any
/// vocabulary, unless this has an empty token and one that is longer than 65535 bytes.
pub proof fn plain_input_is_encodable(t: Tokenizer, vocab: Map<u32, Seq<u8>>, input: Seq<u8>)
    requires
        t.wf(),
        t.is_of_vocab(vocab),
        (forall|n: u32| #[trigger] vocab.contains_key(n) ==> vocab[n].len() > 0) || (forall|n: u32|
         #[trigger]
            vocab.contains_key(n) ==> vocab[n].len() <= 65535),
        is_plain(input),
    ensures
        t.encodable(input),
{
    if t.encoder().contains_key(Seq::empty()) {
        let n = t.encoder()[Seq::empty()];
        assert(vocab.contains_key(n));
        assert forall|at: int| 0 <= at < TABLE_SIZE implies !(#[trigger] t.lengths()[at]).contains(
            0u16,
        ) by {
            if t.lengths()[at].contains(0u16) {
                let n = choose|n: u32| token_has_length(t.little(), vocab, n, at, 0);
                assert(vocab.contains_key(n));
                assert(vocab[n].len() % 65536 == vocab[n].len());
            }
        }
    }
    lemma_plain_input(t, input);
}

} // verus!
