//! What is loaded for the tokens of an inference.

use vstd::prelude::*;

verus! {

/// A token of an input: an entry of the vocabulary, or an embedding of its own, for
/// which `T` stands.
#[derive(Debug)]
pub enum Token<T> {
    Token(u32),
    Embed(T),
}

/// Where the embedding of a token comes from.
#[derive(Debug)]
pub enum Row<'a, T> {
    /// Elements `start` to `end` of the embedding table.
    Table {
        start: usize,
        end: usize,
    },
    /// It was given.
    Given(&'a T),
}

/// The number of tokens in all batches.
pub open spec fn token_count<T>(batches: Seq<Vec<Token<T>>>) -> nat
    decreases batches.len(),
{
    if batches.len() == 0 {
        0
    } else {
        token_count(batches.drop_last()) + batches.last()@.len()
    }
}

/// Where the embedding of a token comes from.
pub open spec fn row_of<'a, T>(token: &'a Token<T>, num_emb: usize) -> Row<'a, T> {
    match token {
        Token::Token(token) => Row::Table {
            start: (num_emb * *token) as usize,
            end: (num_emb * *token + num_emb) as usize,
        },
        Token::Embed(tensor) => Row::Given(tensor),
    }
}

/// The embedding of a token is in a table of `table_len` elements, or was given.
pub open spec fn is_in_table<T>(token: Token<T>, num_emb: usize, table_len: usize) -> bool {
    match token {
        Token::Token(token) => num_emb * token + num_emb <= table_len,
        Token::Embed(_) => true,
    }
}

/// Every embedding is in the table, or was given.
pub open spec fn all_in_table<T>(
    batches: Seq<Vec<Token<T>>>,
    num_emb: usize,
    table_len: usize,
) -> bool {
    forall|b: int, i: int|
        0 <= b < batches.len() && 0 <= i < batches[b]@.len() ==> is_in_table(
            #[trigger] batches[b]@[i],
            num_emb,
            table_len,
        )
}

/// What is loaded for the tokens of each batch.
pub enum Loading<'a, T> {
    /// Nothing, for there is no token.
    Nothing,
    /// The rows of each batch.
    Rows(Vec<Vec<Row<'a, T>>>),
}

/// Finds the embeddings of the tokens in a table of `table_len` elements, `num_emb` for
/// each entry of the vocabulary. There is no result where one is not in the table.
pub fn load<'a, T>(batches: &'a Vec<Vec<Token<T>>>, num_emb: usize, table_len: usize) -> (r: Option<
    Loading<'a, T>,
>)
    ensures
        r is Some <==> all_in_table(batches@, num_emb, table_len),
        r matches Some(Loading::Nothing) ==> token_count(batches@) == 0,
        r matches Some(Loading::Rows(rows)) ==> {
            &&& token_count(batches@) > 0
            &&& rows@.len() == batches@.len()
            &&& forall|b: int|
                0 <= b < rows@.len() ==> (#[trigger] rows@[b])@ == Seq::new(
                    batches@[b]@.len(),
                    |i: int| row_of(&batches@[b]@[i], num_emb),
                )
        },
{
    let mut all: Vec<Vec<Row<'a, T>>> = Vec::new();
    let mut any = false;
    let mut b: usize = 0;
    assert(batches@.take(0) =~= Seq::<Vec<Token<T>>>::empty());
    while b < batches.len()
        invariant
            b <= batches@.len(),
            b == all@.len(),
            any == (token_count(batches@.take(b as int)) > 0),
            forall|c: int, i: int|
                0 <= c < b && 0 <= i < batches@[c]@.len() ==> is_in_table(
                    #[trigger] batches@[c]@[i],
                    num_emb,
                    table_len,
                ),
            forall|c: int|
                0 <= c < b ==> (#[trigger] all@[c])@ == Seq::new(
                    batches@[c]@.len(),
                    |i: int| row_of(&batches@[c]@[i], num_emb),
                ),
        decreases batches@.len() - b,
    {
        assert(batches@.take(b + 1).drop_last() =~= batches@.take(b as int));
        let tokens = &batches[b];
        if tokens.len() > 0 {
            any = true;
        }
        let mut rows: Vec<Row<'a, T>> = Vec::new();
        let mut i: usize = 0;
        while i < tokens.len()
            invariant
                b < batches@.len(),
                *tokens == batches@[b as int],
                i <= tokens@.len(),
                i == rows@.len(),
                forall|j: int|
                    0 <= j < i ==> is_in_table(#[trigger] tokens@[j], num_emb, table_len),
                forall|j: int|
                    0 <= j < i ==> #[trigger] rows@[j] == row_of(&tokens@[j], num_emb),
            decreases tokens@.len() - i,
        {
            match &tokens[i] {
                Token::Token(token) => {
                    let found = entry(*token, num_emb, table_len);
                    assert(batches@[b as int]@[i as int] == Token::<T>::Token(*token));
                    match found {
                        Some((start, end)) => {
                            rows.push(Row::Table { start, end });
                        },
                        None => {
                            assert(!is_in_table(
                                batches@[b as int]@[i as int],
                                num_emb,
                                table_len,
                            ));
                            return None;
                        },
                    }
                },
                Token::Embed(tensor) => {
                    rows.push(Row::Given(tensor));
                },
            }
            i += 1;
        }
        assert(rows@ =~= Seq::new(
            batches@[b as int]@.len(),
            |i: int| row_of(&batches@[b as int]@[i], num_emb),
        ));
        all.push(rows);
        b += 1;
    }
    assert(batches@.take(b as int) =~= batches@);
    if any {
        Some(Loading::Rows(all))
    } else {
        Some(Loading::Nothing)
    }
}

/// The elements of a table that belong to an entry of the vocabulary, if they are
/// there.
pub fn entry(token: u32, num_emb: usize, table_len: usize) -> (r: Option<(usize, usize)>)
    ensures
        r is Some <==> num_emb * token + num_emb <= table_len,
        r matches Some((start, end)) ==> start == num_emb * token && end == start + num_emb,
{
    let token = token as usize;
    match num_emb.checked_mul(token) {
        Some(start) => match start.checked_add(num_emb) {
            Some(end) => if end <= table_len {
                Some((start, end))
            } else {
                None
            },
            None => None,
        },
        None => None,
    }
}

/// Ranges of rows lie in `len` elements, of which each row has `width`.
pub open spec fn all_in_output(len: nat, width: usize, outputs: Seq<(usize, usize)>) -> bool {
    forall|i: int|
        0 <= i < outputs.len() ==> {
            &&& (#[trigger] outputs[i]).0 <= outputs[i].1
            &&& width * outputs[i].1 <= len
        }
}

/// Cuts what was computed, in rows of `width` elements, to the rows of each batch. There
/// is no result where a range is not in it.
pub fn split_outputs<'a, F>(data: &'a [F], width: usize, outputs: &[(usize, usize)]) -> (r: Option<
    Vec<&'a [F]>,
>)
    ensures
        r is Some <==> all_in_output(data@.len(), width, outputs@),
        r matches Some(parts) ==> {
            &&& parts@.len() == outputs@.len()
            &&& forall|i: int|
                0 <= i < parts@.len() ==> (#[trigger] parts@[i])@ == data@.subrange(
                    width * outputs@[i].0,
                    width * outputs@[i].1,
                )
        },
{
    let len = data.len();
    let mut parts: Vec<&'a [F]> = Vec::new();
    let mut i: usize = 0;
    while i < outputs.len()
        invariant
            len == data@.len(),
            i <= outputs@.len(),
            i == parts@.len(),
            forall|j: int|
                0 <= j < i ==> {
                    &&& (#[trigger] outputs@[j]).0 <= outputs@[j].1
                    &&& width * outputs@[j].1 <= data@.len()
                },
            forall|j: int|
                0 <= j < i ==> (#[trigger] parts@[j])@ == data@.subrange(
                    width * outputs@[j].0,
                    width * outputs@[j].1,
                ),
        decreases outputs@.len() - i,
    {
        let (start, end) = outputs[i];
        assert(outputs@[i as int] == (start, end));
        if start > end {
            return None;
        }
        match width.checked_mul(end) {
            Some(last) => {
                if last > len {
                    return None;
                }
                assert(width * start <= width * end) by (nonlinear_arith)
                    requires
                        start <= end,
                ;
                parts.push(vstd::slice::slice_subrange(data, width * start, last));
            },
            None => {
                return None;
            },
        }
        i += 1;
    }
    Some(parts)
}

} // verus!
