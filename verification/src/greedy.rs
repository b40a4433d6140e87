//! What greedy matching over a vocabulary gives.

use vstd::prelude::*;
use vstd::utf8::*;

use crate::tokenizer::{
    all_have_place, has_place, in_range, joined, key_of, lemma_first_match, list_view, short_length,
    step_is_longest_match, token_has_length, tokens_have_place, vocab_bytes, vocab_decoder,
    vocab_view, Entry, StrOrBytes, Tokenizer,
};

verus! {

/// The token that is taken first is the longest that the input begins with. What is left
/// is walked in the same way.
pub proof fn longest_token_comes_first(t: Tokenizer, input: Seq<u8>, token: Seq<u8>)
    requires
        t.wf(),
        has_place(input),
        t.encoder().contains_key(token),
        0 < token.len() <= input.len(),
        token.len() < 65536,
        input.take(token.len() as int) == token,
        forall|n: int|
            token.len() < n <= input.len() && n < 65536 ==> !t.encoder().contains_key(
                #[trigger] input.take(n),
            ),
    ensures
        t.tokens(input) == seq![t.encoder()[token]] + t.tokens(input.skip(token.len() as int)),
        t.complete(input) == t.complete(input.skip(token.len() as int)),
        t.encodable(input) == t.encodable(input.skip(token.len() as int)),
{
    step_is_longest_match(t, input, token);
    let length = t.step(input)->Some_0;
    lemma_first_match(t, t.candidates(input), input);
    assert(t.matches(input, length));
    if length > token.len() {
        assert(t.encoder().contains_key(input.take(length as int)));
    }
    assert(length == token.len());
}

/// Where no token stands at the start of an input, there are no tokens, and the input
/// cannot be encoded.
pub proof fn unmatched_input_has_no_tokens(t: Tokenizer, input: Seq<u8>)
    requires
        input.len() > 0,
        forall|n: int|
            0 <= n <= input.len() ==> !t.encoder().contains_key(#[trigger] input.take(n)),
    ensures
        t.tokens(input) == Seq::<u32>::empty(),
        !t.complete(input),
        has_place(input) ==> t.encodable(input),
{
    lemma_first_match(t, t.candidates(input), input);
    if let Some(length) = t.step(input) {
        assert(t.matches(input, length));
        assert(!t.encoder().contains_key(input.take(length as int)));
    }
}

/// The empty input has no tokens.
pub proof fn empty_input_has_no_tokens(t: Tokenizer)
    ensures
        t.complete(Seq::empty()),
        t.encodable(Seq::empty()),
        t.tokens(Seq::empty()) == Seq::<u32>::empty(),
{
    let none = Seq::<u8>::empty();
    if let Some(length) = t.step(none) {
        if 0 < length <= none.len() {
            assert(false);
        }
    }
}

/// Only two bytes of 255 have no place among the keys, which are the numbers below 65535.
pub proof fn keys_fill_the_table(little: bool, a: u8, b: u8, c: u8, d: u8)
    ensures
        0 <= key_of(little, a, b) <= 65535,
        key_of(little, a, b) == 65535 <==> a == 255 && b == 255,
        key_of(little, a, b) == key_of(little, c, d) ==> a == c && b == d,
        key_of(true, a, b) == a + 256 * b,
        key_of(false, a, b) == b + 256 * a,
{
}

/// A length that fits in sixteen bits is written as it is.
pub proof fn short_lengths_are_exact(length: nat)
    requires
        length < 65536,
    ensures
        short_length(length) == length,
{
}

/// The decoder of a list has the bytes of each entry under its number, reaches up to the
/// largest number, and has nothing under numbers that no entry has.
pub proof fn decoder_has_the_bytes(list: Seq<Entry>, i: int)
    requires
        0 <= i < list.len(),
        forall|j: int, k: int|
            0 <= j < k < list.len() ==> (#[trigger] list[j]).1 < (#[trigger] list[k]).1,
    ensures
        vocab_decoder(list).len() == list[list.len() - 1].1 + 1,
        list[i].1 < vocab_decoder(list).len(),
        vocab_decoder(list)[list[i].1 as int] == list[i].0,
{
    assert(list[i].1 <= list[list.len() - 1].1);
    lemma_vocab_bytes(list, i);
}

proof fn lemma_vocab_bytes(list: Seq<Entry>, i: int)
    requires
        0 <= i < list.len(),
        forall|j: int, k: int|
            0 <= j < k < list.len() ==> (#[trigger] list[j]).1 < (#[trigger] list[k]).1,
    ensures
        vocab_bytes(list, list[i].1 as int) == list[i].0,
    decreases list.len(),
{
    let before = list.drop_last();
    if i < before.len() {
        assert(list[i].1 < list[list.len() - 1].1);
        assert(before[i] == list[i]);
        assert forall|j: int, k: int| 0 <= j < k < before.len() implies (#[trigger] before[j]).1
            < (#[trigger] before[k]).1 by {
            assert(list[j].1 < list[k].1);
        }
        lemma_vocab_bytes(before, i);
    }
}

/// A number that no entry has stands for nothing.
pub proof fn unused_number_stands_for_nothing(list: Seq<Entry>, n: int)
    requires
        forall|i: int| 0 <= i < list.len() ==> (#[trigger] list[i]).1 != n,
    ensures
        vocab_bytes(list, n) == Seq::<u8>::empty(),
        0 <= n < vocab_decoder(list).len() ==> vocab_decoder(list)[n] == Seq::<u8>::empty(),
        list.len() == 0 ==> vocab_decoder(list).len() == 1,
    decreases list.len(),
{
    if list.len() > 0 {
        let before = list.drop_last();
        assert(list[list.len() - 1].1 != n);
        assert forall|i: int| 0 <= i < before.len() implies (#[trigger] before[i]).1 != n by {
            assert(list[i].1 != n);
        }
        unused_number_stands_for_nothing(before, n);
    }
}

/// One token stands for its bytes.
pub proof fn one_token_decodes_to_its_bytes(table: Seq<Seq<u8>>, token: u32)
    ensures
        joined(table, seq![token]) == table[token as int],
        joined(table, Seq::<u32>::empty()) == Seq::<u8>::empty(),
{
    let one = seq![token];
    assert(one.drop_last() =~= Seq::<u32>::empty());
    assert(joined(table, one.drop_last()) =~= Seq::<u8>::empty());
    assert(joined(table, one) =~= table[token as int]);
}

/// The tokens up to the first that the table does not reach are in range.
pub proof fn range_ends_at_first_beyond(table: Seq<Seq<u8>>, tokens: Seq<u32>)
    ensures
        in_range(table, tokens) <= tokens.len(),
        forall|i: int|
            0 <= i < in_range(table, tokens) ==> (#[trigger] tokens[i]) < table.len(),
        in_range(table, tokens) < tokens.len() ==> tokens[in_range(table, tokens) as int]
            >= table.len(),
    decreases tokens.len(),
{
    if tokens.len() > 0 && tokens[0] < table.len() {
        let rest = tokens.skip(1);
        range_ends_at_first_beyond(table, rest);
        assert forall|i: int| 0 <= i < in_range(table, tokens) implies (#[trigger] tokens[i])
            < table.len() by {
            if i > 0 {
                assert(rest[i - 1] == tokens[i]);
            }
        }
    }
}

/// The tokenizer of a vocabulary has the bytes of each number, and nothing where there is
/// none; bytes stand for the largest number that has them, and for none where no number
/// has them.
pub proof fn vocabulary_is_kept(t: Tokenizer, vocab: Map<u32, Seq<u8>>, n: u32, b: Seq<u8>)
    requires
        t.is_of_vocab(vocab),
    ensures
        vocab.contains_key(n) ==> n < t.decoder().len() && t.decoder()[n as int] == vocab[n],
        vocab.contains_key(n) ==> t.encoder().contains_key(vocab[n]) && t.encoder()[vocab[n]] >= n,
        n < t.decoder().len() && !vocab.contains_key(n) ==> t.decoder()[n as int].len() == 0,
        t.encoder().contains_key(b) ==> vocab.contains_key(t.encoder()[b])
            && vocab[t.encoder()[b]] == b,
        t.decoder().len() > 1 ==> vocab.contains_key((t.decoder().len() - 1) as u32),
{
}

/// At each pair of leading bytes the lengths of the tokens that begin with it are tried, and
/// one.
pub proof fn lengths_are_those_of_tokens(
    t: Tokenizer,
    vocab: Map<u32, Seq<u8>>,
    n: u32,
    at: int,
    length: u16,
)
    requires
        t.is_of_vocab(vocab),
        tokens_have_place(vocab),
    ensures
        vocab.contains_key(n) && 2 <= vocab[n].len() < 65536 ==> t.lengths()[key_of(
            t.little(),
            vocab[n][0],
            vocab[n][1],
        )].contains(vocab[n].len() as u16),
        0 <= at < 65535 ==> t.lengths()[at].contains(1u16),
        0 <= at < 65535 && t.lengths()[at].contains(length) && length != 1 ==> exists|k: u32|
            #[trigger] vocab.contains_key(k) && vocab[k].len() >= 2 && key_of(
                t.little(),
                vocab[k][0],
                vocab[k][1],
            ) == at && length == vocab[k].len() % 65536,
{
    if vocab.contains_key(n) && 2 <= vocab[n].len() < 65536 {
        assert(has_place(vocab[n]));
        let place = key_of(t.little(), vocab[n][0], vocab[n][1]);
        assert(token_has_length(t.little(), vocab, n, place, vocab[n].len() as u16));
        assert(t.lengths()[place].contains(vocab[n].len() as u16));
    }
    if 0 <= at < 65535 && t.lengths()[at].contains(length) && length != 1 {
        let k = choose|k: u32| token_has_length(t.little(), vocab, k, at, length);
        assert(vocab.contains_key(k));
    }
}

/// A vocabulary has a place exactly where no token begins with two bytes of 255.
pub proof fn only_one_start_has_no_place(bytes: Seq<u8>, vocab: Map<u32, Seq<u8>>)
    ensures
        !has_place(bytes) <==> bytes.len() >= 2 && bytes[0] == 255 && bytes[1] == 255,
        !tokens_have_place(vocab) <==> exists|n: u32| #[trigger]
            vocab.contains_key(n) && !has_place(vocab[n]),
{
}

/// A pattern that is a text stands for its UTF-8 bytes, and one that is bytes for these.
pub proof fn patterns_stand_for_bytes(vocab: Map<u32, StrOrBytes>, n: u32)
    ensures
        vocab_view(vocab).contains_key(n) <==> vocab.contains_key(n),
        vocab.contains_key(n) ==> (vocab[n] matches StrOrBytes::Str(text) ==> vocab_view(vocab)[n]
            == encode_utf8(text@)),
        vocab.contains_key(n) ==> (vocab[n] matches StrOrBytes::Bytes(bytes)
            ==> vocab_view(vocab)[n] == bytes@),
{
}

/// Entries are the bytes and the number that they were given with, in order.
pub proof fn entries_are_in_order(list: Seq<(Vec<u8>, u32)>, i: int)
    requires
        0 <= i < list.len(),
    ensures
        list_view(list).len() == list.len(),
        list_view(list)[i] == (list[i].0@, list[i].1),
        !all_have_place(list_view(list)) <==> exists|k: int|
            0 <= k < list.len() && !has_place((#[trigger] list[k]).0@),
{
    let plain = list_view(list);
    if exists|k: int| 0 <= k < list.len() && !has_place((#[trigger] list[k]).0@) {
        let k = choose|k: int| 0 <= k < list.len() && !has_place((#[trigger] list[k]).0@);
        assert(!has_place(plain[k].0));
    }
    if !all_have_place(plain) {
        let k = choose|k: int| 0 <= k < plain.len() && !has_place((#[trigger] plain[k]).0);
        assert(!has_place(list[k].0@));
    }
}

} // verus!
