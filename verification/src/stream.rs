//! The tokens of every text are in order: `stream_ok` holds of them,
//! whatever the text.

use vstd::prelude::*;
use crate::lexer::{next_token_at, stream_ok, text_len, tokens_from, tokens_of, Tokens};
use crate::position::{byte_len, lemma_offsets_grow, offset_at};
use crate::scan::{
    escape_at, fraction_end, integer_end, is_text_char, lemma_digits_end_bounds,
    lemma_name_end_bounds, lemma_skip_ignored_bounds, number_at, skip_ignored, string_body,
    token_at,
};

verus! {

proof fn lemma_string_body_ends(src: Seq<char>, i: int, text: Seq<char>)
    requires
        0 <= i <= src.len(),
    ensures
        string_body(src, i, text) matches Ok((_, end)) ==> i < end <= src.len(),
    decreases src.len() - i,
{
    if i < src.len() && src[i] != '"' {
        if src[i] == '\\' {
            match escape_at(src, i + 1) {
                Ok((c, j)) => {
                    if i < j <= src.len() {
                        lemma_string_body_ends(src, j, text.push(c));
                    }
                },
                Err(_) => {},
            }
        } else if src[i] != '\n' && src[i] != '\r' && is_text_char(src[i]) {
            lemma_string_body_ends(src, i + 1, text.push(src[i]));
        }
    }
}

proof fn lemma_number_ends(src: Seq<char>, i: int)
    requires
        0 <= i < src.len(),
    ensures
        number_at(src, i) matches Ok((token, end)) ==> i < end <= src.len() && !(token
            is EndOfFile),
{
    let first = if src[i] == '-' {
        i + 1
    } else {
        i
    };
    lemma_digits_end_bounds(src, first);
    match integer_end(src, first) {
        Ok(k) => {
            if k + 1 <= src.len() {
                lemma_digits_end_bounds(src, k + 1);
            }
            match fraction_end(src, k) {
                Ok(m) => {
                    if m + 1 <= src.len() {
                        lemma_digits_end_bounds(src, m + 1);
                    }
                    if m + 2 <= src.len() {
                        lemma_digits_end_bounds(src, m + 2);
                    }
                },
                Err(_) => {},
            }
        },
        Err(_) => {},
    }
}

/// A token ends within the text and, unless it is `EndOfFile`, after it
/// starts; and it is `EndOfFile` exactly at the end of the text.
proof fn lemma_token_ends(src: Seq<char>, i: int)
    requires
        0 <= i <= src.len(),
    ensures
        token_at(src, i) matches Ok((token, end)) ==> {
            &&& i <= end <= src.len()
            &&& token is EndOfFile <==> i == src.len()
            &&& i < src.len() ==> i < end
        },
{
    if i < src.len() {
        lemma_number_ends(src, i);
        lemma_string_body_ends(src, i + 1, Seq::empty());
        lemma_name_end_bounds(src, i);
        lemma_name_end_bounds(src, i + 1);
    }
}

/// Whether all of `tokens` start at or after the byte offset `from`.
pub open spec fn starts_from(tokens: Tokens, from: nat) -> bool {
    forall|k: int| 0 <= k < tokens.len() ==> from <= (#[trigger] tokens[k]).start.index
}

/// The tokens of a text from some character on are in order, and none of
/// them reaches back before that character, nor past the end of the text.
pub proof fn lemma_tokens_from_in_order(src: Seq<char>, i: int)
    requires
        0 <= i <= src.len(),
        byte_len(src) <= usize::MAX,
    ensures
        stream_ok(tokens_from(src, i)),
        starts_from(tokens_from(src, i), offset_at(src, i)),
        text_len(tokens_from(src, i)) <= byte_len(src),
        tokens_from(src, i).failure is None ==> text_len(tokens_from(src, i)) == byte_len(src),
    decreases src.len() - i,
{
    reveal(next_token_at);
    let start = skip_ignored(src, i);
    lemma_skip_ignored_bounds(src, i);
    lemma_token_ends(src, start);
    lemma_offsets_grow(src, i, start);
    lemma_offsets_grow(src, start, src.len() as int);
    match next_token_at(src, i) {
        Err(_) => {},
        Ok((token, end)) => {
            lemma_offsets_grow(src, start, end);
            lemma_offsets_grow(src, end, src.len() as int);
            assert(token.start.index == offset_at(src, start));
            assert(token.end.index == offset_at(src, end));
            if token.item is EndOfFile || end <= i || end > src.len() {
                let tokens = tokens_from(src, i);
                assert(tokens.items =~= seq![token]);
                assert(tokens[0] == token);
            } else {
                lemma_tokens_from_in_order(src, end);
                let rest = tokens_from(src, end);
                let tokens = tokens_from(src, i);
                assert(tokens.items =~= seq![token] + rest.items);
                assert(tokens[0] == token);
                assert forall|k: int| 1 <= k < tokens.len() implies #[trigger] tokens[k] == rest[k
                    - 1] by {}
                assert forall|k: int| 0 <= k < tokens.len() implies (#[trigger] tokens[k]).start.index
                    <= tokens[k].end.index && offset_at(src, i) <= tokens[k].start.index by {
                    if k > 0 {
                        assert(tokens[k] == rest[k - 1]);
                    }
                }
                assert forall|j: int, k: int| 0 <= j < k < tokens.len() implies (
                #[trigger] tokens[j]).end.index <= (#[trigger] tokens[k]).start.index by {
                    assert(tokens[k] == rest[k - 1]);
                    if j > 0 {
                        assert(tokens[j] == rest[j - 1]);
                    }
                }
                assert forall|k: int| 0 <= k < tokens.len() - 1 implies !((
                #[trigger] tokens[k]).item is EndOfFile) by {
                    if k > 0 {
                        assert(tokens[k] == rest[k - 1]);
                    }
                }
                if tokens.failure is Some {
                    assert forall|k: int| 0 <= k < tokens.len() implies !((
                    #[trigger] tokens[k]).item is EndOfFile) by {
                        if k > 0 {
                            assert(tokens[k] == rest[k - 1]);
                        }
                    }
                } else {
                    assert(tokens[tokens.len() - 1] == rest[rest.len() - 1]);
                }
                if rest.len() > 0 {
                    assert(tokens[tokens.len() - 1] == rest[rest.len() - 1]);
                }
            }
        },
    }
}

/// The tokens of every text are in order, and they reach no further than
/// the text does, in bytes; where the text can be read to its end, they
/// reach exactly as far.
pub proof fn lemma_tokens_in_order(src: Seq<char>)
    requires
        byte_len(src) <= usize::MAX,
    ensures
        stream_ok(tokens_of(src)),
        text_len(tokens_of(src)) <= byte_len(src),
        tokens_of(src).failure is None ==> text_len(tokens_of(src)) == byte_len(src),
{
    lemma_tokens_from_in_order(src, 0);
}

} // verus!
