//! What byte pair merging does, and how a `tokenizer.json` file is read.

use vstd::prelude::*;
use vstd::utf8::*;

use crate::bpe::{
    all_known, atoms, first_pattern, fully_merged, hf_byte, hf_bytes, inverts, is_best, is_hf_char,
    is_hf_text, is_readable, is_readable_merge, known_numbers, lemma_best_exists, merge_ranks_of,
    merge_sides, merge_text, merge_texts, merged, pattern_of, rank_at, singles, split_pattern,
    stripped, token_list, top_number, BpeTokenizer, HfPreTokenizer, MergeEntry, TokenizerJson,
};
use crate::text::{begins_with, lemma_first_index, lemma_first_index_is, without};
use crate::tokenizer::{vocab_encoder, Entry};

verus! {

/// Merging goes on until no two neighbours have a rule. A rule whose rank is the largest
/// number there is is none.
pub proof fn neighbours_have_no_rule(
    ranks: Map<(Seq<u8>, Seq<u8>), usize>,
    parts: Seq<Seq<u8>>,
    i: int,
)
    requires
        0 <= i < fully_merged(ranks, parts).len() - 1,
    ensures
        ({
            let p = fully_merged(ranks, parts);
            !(ranks.contains_key((p[i], p[i + 1])) && ranks[(p[i], p[i + 1])] < usize::MAX)
        }),
    decreases parts.len(),
{
    if exists|k: int| is_best(ranks, parts, k) {
        let k = choose|k: int| is_best(ranks, parts, k);
        neighbours_have_no_rule(ranks, merged(parts, k), i);
    } else if ranks.contains_key((parts[i], parts[i + 1])) && ranks[(parts[i], parts[i + 1])]
        < usize::MAX {
        assert(rank_at(ranks, parts, i) is Some);
        let best = lemma_best_exists(ranks, parts, parts.len() - 1, i);
        assert(is_best(ranks, parts, best));
    }
}

/// Where no two neighbours have a rule, nothing is merged.
pub proof fn nothing_is_merged_without_rule(
    ranks: Map<(Seq<u8>, Seq<u8>), usize>,
    parts: Seq<Seq<u8>>,
)
    requires
        forall|i: int|
            0 <= i < parts.len() - 1 ==> !(#[trigger] ranks.contains_key((parts[i], parts[i + 1]))
                && ranks[(parts[i], parts[i + 1])] < usize::MAX),
    ensures
        fully_merged(ranks, parts) == parts,
{
    assert forall|k: int| !is_best(ranks, parts, k) by {
        if is_best(ranks, parts, k) {
            assert(ranks.contains_key((parts[k], parts[k + 1])));
        }
    }
}

/// The pair that is merged first has the lowest rank of all pairs of neighbours, and is the
/// leftmost with that rank. The two become one part, in the place of both.
pub proof fn lowest_rank_is_merged_first(
    ranks: Map<(Seq<u8>, Seq<u8>), usize>,
    parts: Seq<Seq<u8>>,
    i: int,
)
    requires
        0 <= i < parts.len() - 1,
        ranks.contains_key((parts[i], parts[i + 1])),
        ranks[(parts[i], parts[i + 1])] < usize::MAX,
        forall|j: int|
            0 <= j < parts.len() - 1 && #[trigger] ranks.contains_key((parts[j], parts[j + 1]))
                ==> ranks[(parts[i], parts[i + 1])] <= ranks[(parts[j], parts[j + 1])],
        forall|j: int|
            0 <= j < i && #[trigger] ranks.contains_key((parts[j], parts[j + 1]))
                ==> ranks[(parts[i], parts[i + 1])] < ranks[(parts[j], parts[j + 1])],
    ensures
        fully_merged(ranks, parts) == fully_merged(
            ranks,
            parts.take(i) + seq![parts[i] + parts[i + 1]] + parts.skip(i + 2),
        ),
{
    assert(rank_at(ranks, parts, i) == Some(ranks[(parts[i], parts[i + 1])]));
    assert forall|j: int|
        0 <= j < parts.len() - 1 && (#[trigger] rank_at(ranks, parts, j)) is Some implies if j
        < i {
        rank_at(ranks, parts, i)->Some_0 < rank_at(ranks, parts, j)->Some_0
    } else {
        rank_at(ranks, parts, i)->Some_0 <= rank_at(ranks, parts, j)->Some_0
    } by {
        assert(ranks.contains_key((parts[j], parts[j + 1])));
    }
    assert(is_best(ranks, parts, i));
    let k = choose|k: int| is_best(ranks, parts, k);
    assert(is_best(ranks, parts, k));
    assert(rank_at(ranks, parts, k) is Some);
    assert(k == i);
    assert(merged(parts, i) =~= parts.take(i) + seq![parts[i] + parts[i + 1]] + parts.skip(i + 2));
}

/// A part that is a token is looked up whole.
pub proof fn known_part_is_one_token(encoder: Map<Seq<u8>, u32>, part: Seq<u8>)
    requires
        encoder.contains_key(part),
    ensures
        atoms(encoder, seq![part]) == seq![part],
        known_numbers(encoder, atoms(encoder, seq![part])) == seq![encoder[part]],
{
    assert(seq![part].drop_last() =~= Seq::<Seq<u8>>::empty());
    assert(atoms(encoder, Seq::<Seq<u8>>::empty()) + seq![part] =~= seq![part]);
    assert(seq![part].skip(1) =~= Seq::<Seq<u8>>::empty());
    assert(known_numbers(encoder, seq![part].skip(1)) =~= Seq::<u32>::empty());
    assert(known_numbers(encoder, seq![part]) =~= seq![encoder[part]]);
}

/// A part that is no token is looked up by its bytes, each on its own.
pub proof fn unknown_part_falls_back_to_bytes(encoder: Map<Seq<u8>, u32>, part: Seq<u8>)
    requires
        !encoder.contains_key(part),
    ensures
        atoms(encoder, seq![part]).len() == part.len(),
        forall|i: int|
            0 <= i < part.len() ==> #[trigger] atoms(encoder, seq![part])[i] == seq![part[i]],
{
    assert(seq![part].drop_last() =~= Seq::<Seq<u8>>::empty());
    assert(atoms(encoder, Seq::<Seq<u8>>::empty()).len() == 0);
}

/// Parts are looked up one after the other.
pub proof fn parts_are_looked_up_in_order(
    encoder: Map<Seq<u8>, u32>,
    a: Seq<Seq<u8>>,
    b: Seq<Seq<u8>>,
)
    ensures
        atoms(encoder, Seq::<Seq<u8>>::empty()) == Seq::<Seq<u8>>::empty(),
        atoms(encoder, a + b) == atoms(encoder, a) + atoms(encoder, b),
    decreases b.len(),
{
    if b.len() == 0 {
        assert(a + b =~= a);
        assert(atoms(encoder, a) + atoms(encoder, b) =~= atoms(encoder, a));
    } else {
        parts_are_looked_up_in_order(encoder, a, b.drop_last());
        assert((a + b).drop_last() =~= a + b.drop_last());
        assert((a + b).last() == b.last());
        assert(atoms(encoder, a + b) =~= atoms(encoder, a) + atoms(encoder, b));
    }
}

/// The tokens of known byte strings are their numbers, in order.
pub proof fn known_strings_have_their_numbers(encoder: Map<Seq<u8>, u32>, parts: Seq<Seq<u8>>)
    requires
        forall|i: int| 0 <= i < parts.len() ==> encoder.contains_key(#[trigger] parts[i]),
    ensures
        all_known(encoder, parts),
        known_numbers(encoder, parts).len() == parts.len(),
        forall|i: int|
            0 <= i < parts.len() ==> #[trigger] known_numbers(encoder, parts)[i]
                == encoder[parts[i]],
    decreases parts.len(),
{
    if parts.len() > 0 {
        let rest = parts.skip(1);
        assert forall|i: int| 0 <= i < rest.len() implies encoder.contains_key(
            #[trigger] rest[i],
        ) by {
            assert(rest[i] == parts[i + 1]);
        }
        known_strings_have_their_numbers(encoder, rest);
        assert forall|i: int| 0 <= i < parts.len() implies #[trigger] known_numbers(
            encoder,
            parts,
        )[i] == encoder[parts[i]] by {
            if i > 0 {
                assert(known_numbers(encoder, rest)[i - 1] == encoder[rest[i - 1]]);
            }
        }
    }
}

/// A byte string without a number ends the tokens: only those before it have theirs.
pub proof fn unknown_string_ends_tokens(encoder: Map<Seq<u8>, u32>, parts: Seq<Seq<u8>>, k: int)
    requires
        0 <= k < parts.len(),
        !encoder.contains_key(parts[k]),
        forall|i: int| 0 <= i < k ==> encoder.contains_key(#[trigger] parts[i]),
    ensures
        !all_known(encoder, parts),
        known_numbers(encoder, parts) == known_numbers(encoder, parts.take(k)),
        known_numbers(encoder, parts).len() == k,
    decreases parts.len(),
{
    if k > 0 {
        let rest = parts.skip(1);
        assert forall|i: int| 0 <= i < k - 1 implies encoder.contains_key(#[trigger] rest[i]) by {
            assert(rest[i] == parts[i + 1]);
        }
        unknown_string_ends_tokens(encoder, rest, k - 1);
        assert(parts.take(k).skip(1) =~= rest.take(k - 1));
        assert(parts.take(k)[0] == parts[0]);
    }
}

/// Merging starts from the bytes of a piece, each on its own.
pub proof fn merging_starts_from_bytes(t: BpeTokenizer, piece: Seq<u8>)
    ensures
        t.piece_atoms(piece) == atoms(
            t.encoder(),
            fully_merged(t.ranks(), Seq::new(piece.len(), |i: int| seq![piece[i]])),
        ),
{
    assert(singles(piece) =~= Seq::new(piece.len(), |i: int| seq![piece[i]]));
}

/// Pieces are merged one by one, by their UTF-8 bytes.
pub proof fn pieces_are_merged_one_by_one(
    t: BpeTokenizer,
    pieces: Seq<Seq<char>>,
    more: Seq<char>,
)
    ensures
        t.all_atoms(Seq::<Seq<char>>::empty()) == Seq::<Seq<u8>>::empty(),
        t.all_atoms(pieces.push(more)) == t.all_atoms(pieces) + t.piece_atoms(encode_utf8(more)),
{
    assert(pieces.push(more).drop_last() =~= pieces);
}

/// The printable characters of ASCII and Latin-1 stand for their own bytes.
pub proof fn printable_characters_stand_for_themselves(c: char)
    requires
        33 <= c as u32 <= 126 || 161 <= c as u32 <= 172 || 174 <= c as u32 <= 255,
    ensures
        is_hf_char(c),
        hf_byte(c) as u32 == c as u32,
{
}

/// The 68 characters from U+0100 on stand for the other 68 bytes, in order.
pub proof fn further_characters_stand_for_other_bytes(c: char, d: char)
    requires
        256 <= c as u32,
        d as u32 <= 323,
        c as u32 <= d as u32,
    ensures
        is_hf_char(c),
        !(33 <= hf_byte(c) <= 126 || 161 <= hf_byte(c) <= 172 || 174 <= hf_byte(c)),
        (c as u32) < d as u32 ==> hf_byte(c) < hf_byte(d),
{
}

/// The characters above those stand for the last of these bytes.
pub proof fn characters_above_stand_for_last_byte(c: char)
    requires
        323 <= c as u32,
    ensures
        is_hf_char(c),
        hf_byte(c) == 173,
{
}

/// A character that stands for no byte is none.
pub proof fn control_characters_stand_for_no_byte(c: char)
    ensures
        (c as u32) < 33 ==> !is_hf_char(c),
        127 <= c as u32 <= 160 ==> !is_hf_char(c),
        c as u32 == 173 ==> !is_hf_char(c),
{
}

/// A text stands for the bytes of its characters.
pub proof fn text_stands_for_bytes(s: Seq<char>, i: int)
    requires
        0 <= i < s.len(),
    ensures
        hf_bytes(s).len() == s.len(),
        hf_bytes(s)[i] == hf_byte(s[i]),
{
}

/// A merge rule of two sides is the text with a space between them.
pub proof fn rule_has_two_sides(left: Seq<char>, right: Seq<char>)
    requires
        forall|i: int| 0 <= i < left.len() ==> left[i] != ' ',
    ensures
        merge_sides(left + seq![' '] + right) == Some((left, right)),
{
    let text = left + seq![' '] + right;
    lemma_first_index_is(text, ' ', left.len() as int);
    assert(text.take(left.len() as int) =~= left);
    assert(text.skip(left.len() as int + 1) =~= right);
}

/// A text without a space is no merge rule.
pub proof fn text_without_space_is_no_rule(text: Seq<char>)
    requires
        forall|i: int| 0 <= i < text.len() ==> text[i] != ' ',
    ensures
        merge_sides(text) is None,
{
    lemma_first_index(text, ' ');
}

/// Both forms of a merge rule mean the same.
pub proof fn rule_forms_agree(a: String, b: String)
    ensures
        merge_text(MergeEntry::Pair(a, b)) == a@ + seq![' '] + b@,
        forall|s: String| #[trigger] merge_text(MergeEntry::Str(s)) == s@,
{
    reveal_strlit(" ");
    assert(" "@ =~= seq![' ']);
}

/// The rank of a pair is the place of the last rule for it in the list, counted from zero.
/// A pair without a rule has no rank.
pub proof fn rank_is_place_in_list(texts: Seq<Seq<char>>, left: Seq<u8>, right: Seq<u8>)
    requires
        texts.len() <= usize::MAX,
    ensures
        ({
            let ranks = merge_ranks_of(texts);
            &&& ranks.contains_key((left, right)) ==> {
                let k = ranks[(left, right)] as int;
                &&& 0 <= k < texts.len()
                &&& merge_sides(texts[k]) matches Some((a, b)) && hf_bytes(a) == left && hf_bytes(b)
                    == right
            }
            &&& forall|k: int|
                0 <= k < texts.len() && (merge_sides(#[trigger] texts[k]) matches Some((a, b))
                    && hf_bytes(a) == left && hf_bytes(b) == right) ==> ranks.contains_key(
                    (left, right),
                ) && k <= ranks[(left, right)]
        }),
    decreases texts.len(),
{
    if texts.len() > 0 {
        let before = texts.drop_last();
        rank_is_place_in_list(before, left, right);
        let ranks = merge_ranks_of(texts);
        let earlier = merge_ranks_of(before);
        let last = texts.len() - 1;
        assert forall|k: int|
            0 <= k < texts.len() && (merge_sides(#[trigger] texts[k]) matches Some((a, b))
                && hf_bytes(a) == left && hf_bytes(b) == right) implies ranks.contains_key(
            (left, right),
        ) && k <= ranks[(left, right)] by {
            if k < last {
                assert(before[k] == texts[k]);
                assert(earlier.contains_key((left, right)) && k <= earlier[(left, right)]);
            }
        }
        if ranks.contains_key((left, right)) {
            let k = ranks[(left, right)] as int;
            if k < last {
                assert(before[k] == texts[k]);
            }
        }
    }
}

/// A byte string has the number of the last entry that lists it.
pub proof fn last_entry_has_the_bytes(list: Seq<Entry>, i: int)
    requires
        0 <= i < list.len(),
        forall|j: int| i < j < list.len() ==> (#[trigger] list[j]).0 != list[i].0,
    ensures
        vocab_encoder(list).contains_key(list[i].0),
        vocab_encoder(list)[list[i].0] == list[i].1,
    decreases list.len(),
{
    let before = list.drop_last();
    if i < before.len() {
        assert(before[i] == list[i]);
        assert forall|j: int| i < j < before.len() implies (#[trigger] before[j]).0
            != before[i].0 by {
            assert(list[j].0 != list[i].0);
        }
        last_entry_has_the_bytes(before, i);
        assert(list[list.len() - 1].0 != list[i].0);
    }
}

/// A byte string that no entry lists has no number.
pub proof fn unlisted_bytes_have_no_number(list: Seq<Entry>, bytes: Seq<u8>)
    requires
        forall|i: int| 0 <= i < list.len() ==> (#[trigger] list[i]).0 != bytes,
    ensures
        !vocab_encoder(list).contains_key(bytes),
    decreases list.len(),
{
    if list.len() > 0 {
        let before = list.drop_last();
        assert forall|i: int| 0 <= i < before.len() implies (#[trigger] before[i]).0 != bytes by {
            assert(list[i].0 != bytes);
        }
        unlisted_bytes_have_no_number(before, bytes);
        assert(list[list.len() - 1].0 != bytes);
    }
}

/// The entries of a file: those of the vocabulary, by the bytes that their texts stand for,
/// then the added tokens, by the bytes of their texts themselves.
pub proof fn entries_are_vocabulary_then_added(json: TokenizerJson, i: int)
    ensures
        token_list(json).len() == json.vocab@.len() + json.added_tokens@.len(),
        0 <= i < json.vocab@.len() ==> token_list(json)[i] == (
            hf_bytes(json.vocab@[i].0@),
            json.vocab@[i].1,
        ),
        0 <= i < json.added_tokens@.len() ==> token_list(json)[json.vocab@.len() + i] == (
            encode_utf8(json.added_tokens@[i].content@),
            json.added_tokens@[i].id,
        ),
{
}

/// No number is above the top, which is one of them where there are any.
pub proof fn top_is_largest_number(list: Seq<Entry>)
    ensures
        forall|i: int| 0 <= i < list.len() ==> (#[trigger] list[i]).1 <= top_number(list),
        list.len() == 0 ==> top_number(list) == 0,
        list.len() > 0 ==> exists|i: int|
            0 <= i < list.len() && (#[trigger] list[i]).1 == top_number(list),
    decreases list.len(),
{
    if list.len() > 0 {
        let before = list.drop_last();
        let last = list.len() - 1;
        top_is_largest_number(before);
        assert forall|i: int| 0 <= i < list.len() implies (#[trigger] list[i]).1 <= top_number(
            list,
        ) by {
            if i < last {
                assert(before[i].1 <= top_number(before));
            }
        }
        assert(list[last] == list.last());
        if list.last().1 <= top_number(before) && before.len() > 0 {
            let i = choose|i: int|
                0 <= i < before.len() && (#[trigger] before[i]).1 == top_number(before);
            assert(list[i].1 == top_number(list));
        }
    }
}

/// The pattern of a pre-tokenizer is its own, if it has one, and otherwise that of the
/// first of its parts that has one, at any depth.
pub proof fn pattern_is_first_found(p: HfPreTokenizer, k: int)
    ensures
        p.pattern matches Some(own) ==> (own.regex matches Some(regex) ==> pattern_of(p) == Some(
            regex@,
        )),
        (p.pattern matches Some(own) ==> own.regex is None) && p.pretokenizers is None
            ==> pattern_of(p) is None,
        (p.pattern matches Some(own) ==> own.regex is None) ==> (p.pretokenizers matches Some(parts)
            ==> {
            &&& 0 <= k < parts@.len() && pattern_of(parts@[k]) is Some && (forall|j: int|
                0 <= j < k ==> pattern_of(#[trigger] parts@[j]) is None) ==> pattern_of(p)
                == pattern_of(parts@[k])
            &&& (forall|j: int| 0 <= j < parts@.len() ==> pattern_of(#[trigger] parts@[j]) is None)
                ==> pattern_of(p) is None
        }),
{
    if let Some(parts) = p.pretokenizers {
        lemma_first_pattern(parts@, k);
    }
}

proof fn lemma_first_pattern(parts: Seq<HfPreTokenizer>, k: int)
    ensures
        0 <= k < parts.len() && pattern_of(parts[k]) is Some && (forall|j: int|
            0 <= j < k ==> pattern_of(#[trigger] parts[j]) is None) ==> first_pattern(parts)
            == pattern_of(parts[k]),
        (forall|j: int| 0 <= j < parts.len() ==> pattern_of(#[trigger] parts[j]) is None)
            ==> first_pattern(parts) is None,
    decreases parts.len(),
{
    if parts.len() > 0 {
        let rest = parts.skip(1);
        lemma_first_pattern(rest, k - 1);
        assert forall|j: int| 0 <= j < rest.len() implies rest[j] == parts[j + 1] by {}
        if 0 < k < parts.len() && pattern_of(parts[k]) is Some && (forall|j: int|
            0 <= j < k ==> pattern_of(#[trigger] parts[j]) is None) {
            assert(pattern_of(parts[0]) is None);
            assert forall|j: int| 0 <= j < k - 1 implies pattern_of(#[trigger] rest[j]) is None by {
                assert(pattern_of(parts[j + 1]) is None);
            }
        }
        if forall|j: int| 0 <= j < parts.len() ==> pattern_of(#[trigger] parts[j]) is None {
            assert(pattern_of(parts[0]) is None);
            assert forall|j: int| 0 <= j < rest.len() implies pattern_of(
                #[trigger] rest[j],
            ) is None by {
                assert(pattern_of(parts[j + 1]) is None);
            }
        }
    }
}

/// Taking a needle out leaves a text in which it does not occur as it is.
pub proof fn absent_needle_leaves_text(s: Seq<char>, needle: Seq<char>)
    requires
        forall|i: int| 0 <= i < s.len() ==> !begins_with(#[trigger] s.skip(i), needle),
    ensures
        without(s, needle) == s,
    decreases s.len(),
{
    if s.len() > 0 && needle.len() > 0 {
        let rest = s.skip(1);
        assert(s.skip(0) =~= s);
        assert forall|i: int| 0 <= i < rest.len() implies !begins_with(
            #[trigger] rest.skip(i),
            needle,
        ) by {
            assert(rest.skip(i) =~= s.skip(i + 1));
        }
        absent_needle_leaves_text(rest, needle);
        assert(seq![s[0]] + rest =~= s);
    }
}

/// Taking a needle out takes out its first occurrence, and goes on behind it.
pub proof fn first_needle_is_taken_out(s: Seq<char>, needle: Seq<char>, k: int)
    requires
        needle.len() > 0,
        0 <= k < s.len(),
        begins_with(s.skip(k), needle),
        forall|i: int| 0 <= i < k ==> !begins_with(#[trigger] s.skip(i), needle),
    ensures
        without(s, needle) == s.take(k) + without(s.skip(k + needle.len()), needle),
    decreases s.len(),
{
    assert(s.skip(0) =~= s);
    if k == 0 {
        assert(s.take(0) + without(s.skip(needle.len() as int), needle) =~= without(
            s.skip(needle.len() as int),
            needle,
        ));
    } else {
        let rest = s.skip(1);
        assert(rest.skip(k - 1) =~= s.skip(k));
        assert forall|i: int| 0 <= i < k - 1 implies !begins_with(
            #[trigger] rest.skip(i),
            needle,
        ) by {
            assert(rest.skip(i) =~= s.skip(i + 1));
        }
        assert(!begins_with(s.skip(0), needle));
        first_needle_is_taken_out(rest, needle, k - 1);
        assert(rest.skip(k - 1 + needle.len()) =~= s.skip(k + needle.len()));
        assert(seq![s[0]] + (rest.take(k - 1) + without(s.skip(k + needle.len()), needle))
            =~= s.take(k) + without(s.skip(k + needle.len()), needle));
    }
}

/// The look-ahead alternatives for trailing white space are taken out of a pattern, that
/// for what is no white space first.
pub proof fn look_aheads_are_taken_out(pattern: Seq<char>)
    ensures
        stripped(pattern) == without(without(pattern, "\\s+(?!\\S)|"@), "\\s+(?!\\s)|"@),
{
}

/// A file splits texts by its own pattern, or else by that of byte-level BPE, without the
/// look-ahead alternatives.
pub proof fn file_pattern_comes_first(json: TokenizerJson)
    ensures
        json.pre_tokenizer matches Some(p) ==> (pattern_of(p) matches Some(pattern)
            ==> split_pattern(json) == stripped(pattern)),
        json.pre_tokenizer is None || pattern_of(json.pre_tokenizer->Some_0) is None
            ==> split_pattern(json) == stripped(
            "(?i:'s|'t|'re|'ve|'m|'ll|'d)|[^\\r\\n\\p{L}\\p{N}]?\\p{L}+|\\p{N}{1,3}| ?[^\\s\\p{L}\\p{N}]+[\\r\\n]*|\\s*[\\r\\n]+|\\s+"@,
        ),
{
}

/// A file can be read exactly where all its token texts and both sides of all its merge
/// rules are made of characters that stand for bytes, and no token has the largest number
/// of 32 bits.
pub proof fn readable_files(json: TokenizerJson)
    ensures
        is_readable(json) <==> {
            &&& forall|i: int, k: int|
                0 <= i < json.vocab@.len() && 0 <= k < json.vocab@[i].0@.len() ==> is_hf_char(
                    #[trigger] json.vocab@[i].0@[k],
                )
            &&& forall|i: int|
                0 <= i < json.merges@.len() ==> (merge_sides(
                    merge_text(#[trigger] json.merges@[i]),
                ) matches Some((left, right)) ==> is_hf_text(left) && is_hf_text(right))
            &&& forall|i: int|
                0 <= i < token_list(json).len() ==> (#[trigger] token_list(json)[i]).1 < u32::MAX
        },
{
    let list = token_list(json);
    top_is_largest_number(list);
    if is_readable(json) {
        assert forall|i: int, k: int|
            0 <= i < json.vocab@.len() && 0 <= k < json.vocab@[i].0@.len() implies is_hf_char(
            #[trigger] json.vocab@[i].0@[k],
        ) by {
            assert(is_hf_text(json.vocab@[i].0@));
        }
        assert forall|i: int| 0 <= i < json.merges@.len() implies (merge_sides(
            merge_text(#[trigger] json.merges@[i]),
        ) matches Some((left, right)) ==> is_hf_text(left) && is_hf_text(right)) by {
            assert(is_readable_merge(merge_text(json.merges@[i])));
        }
    }
}

/// The merge rules of a file are taken in its order.
pub proof fn rules_are_in_order(merges: Seq<MergeEntry>, i: int)
    requires
        0 <= i < merges.len(),
    ensures
        merge_texts(merges).len() == merges.len(),
        merge_texts(merges)[i] == merge_text(merges[i]),
{
}

/// The decoder of a file has, for each number that bytes have, bytes with that number, and
/// for every other number nothing.
pub proof fn decoder_undoes_encoder(
    decoder: Seq<Seq<u8>>,
    encoder: Map<Seq<u8>, u32>,
    bytes: Seq<u8>,
    n: int,
)
    requires
        inverts(decoder, encoder),
    ensures
        encoder.contains_key(bytes) ==> ({
            let back = decoder[encoder[bytes] as int];
            &&& encoder[bytes] < decoder.len()
            &&& encoder.contains_key(back)
            &&& encoder[back] == encoder[bytes]
        }),
        0 <= n < decoder.len() && decoder[n].len() > 0 ==> encoder.contains_key(decoder[n])
            && encoder[decoder[n]] == n,
        0 <= n < decoder.len() && (forall|b: Seq<u8>| #[trigger]
            encoder.contains_key(b) ==> encoder[b] != n) ==> decoder[n].len() == 0,
{
}

} // verus!
