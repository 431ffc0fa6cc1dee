//! The lexer: source text in, tokens with their places out.

use vstd::prelude::*;
use vstd::std_specs::iter::IteratorSpec;
use vstd::string::StringSliceAdditionalSpecFns;
use crate::position::{
    byte_len, lemma_byte_len_is_encoded_len, lemma_offsets_grow, lemma_position_step, offset_at,
    position_at, SourcePosition, Spanning,
};
use crate::scan::{
    lemma_skip_ignored_bounds, skip_ignored, skip_ignored_from, token_at, token_from,
};
use crate::token::{LexError, LexErrorView, Token, TokenView};

verus! {

/// A token with its place and the index just past it, or a failure with
/// its place.
pub type Lexed = Result<(Spanning<TokenView>, int), Spanning<LexErrorView>>;

/// The next token of `src` at or after the character index `i`, with the
/// place it was read from, and the index just past it.
///
/// Text without meaning is passed over first. A token spans the text from
/// its first character up to the character after its last; a failure is
/// placed at the character where it was noticed, and covers no text.
#[verifier::opaque]
pub open spec fn next_token_at(src: Seq<char>, i: int) -> Lexed {
    let start = skip_ignored(src, i);
    match token_at(src, start) {
        Ok((token, end)) => Ok(
            (
                Spanning {
                    start: position_at(src, start),
                    end: position_at(src, end),
                    item: token,
                },
                end,
            ),
        ),
        Err((at, error)) => Err(
            Spanning { start: position_at(src, at), end: position_at(src, at), item: error },
        ),
    }
}

/// The tokens of a text, as far as it can be read: the tokens before the
/// first failure of the lexer, and that failure, if there is one.
pub struct Tokens {
    pub items: Seq<Spanning<TokenView>>,
    pub failure: Option<Spanning<LexErrorView>>,
}

impl Tokens {
    /// The number of tokens.
    pub open spec fn len(self) -> nat {
        self.items.len()
    }

    /// The token with index `i`.
    #[verifier::inline]
    pub open spec fn spec_index(self, i: int) -> Spanning<TokenView> {
        self.items[i]
    }

    /// The same tokens after the tokens `read`.
    pub open spec fn after(self, read: Seq<Spanning<TokenView>>) -> Tokens {
        Tokens { items: read + self.items, failure: self.failure }
    }
}

/// The tokens of `src` from the character index `i` on. Where the text
/// can be read to its end, the last token is `EndOfFile`. Where it cannot,
/// the tokens are those before the first failure.
pub open spec fn tokens_from(src: Seq<char>, i: int) -> Tokens
    decreases src.len() - i,
{
    match next_token_at(src, i) {
        Err(e) => Tokens { items: Seq::empty(), failure: Some(e) },
        Ok((token, end)) => {
            if token.item is EndOfFile || end <= i || end > src.len() {
                Tokens { items: seq![token], failure: None }
            } else {
                tokens_from(src, end).after(seq![token])
            }
        },
    }
}

/// The tokens of the text `src`.
pub open spec fn tokens_of(src: Seq<char>) -> Tokens {
    tokens_from(src, 0)
}

/// What holds of the tokens of a text. Only the last token can be
/// `EndOfFile`, and it is exactly where the text was read to its end. Each
/// token ends no earlier than it starts, and the tokens follow one another
/// without overlap.
pub open spec fn stream_ok(tokens: Tokens) -> bool {
    &&& forall|k: int| 0 <= k < tokens.len() - 1 ==> !((#[trigger] tokens[k]).item is EndOfFile)
    &&& tokens.failure is None ==> tokens.len() > 0 && tokens[tokens.len() - 1].item is EndOfFile
    &&& tokens.failure is Some ==> forall|k: int|
        0 <= k < tokens.len() ==> !((#[trigger] tokens[k]).item is EndOfFile)
    &&& forall|k: int|
        0 <= k < tokens.len() ==> (#[trigger] tokens[k]).start.index <= tokens[k].end.index
    &&& forall|j: int, k: int|
        0 <= j < k < tokens.len() ==> (#[trigger] tokens[j]).end.index
            <= (#[trigger] tokens[k]).start.index
}

/// The number of bytes of text that the tokens reach to: where the last
/// of them ends.
pub open spec fn text_len(tokens: Tokens) -> nat {
    if tokens.len() > 0 {
        tokens[tokens.len() - 1].end.index as nat
    } else {
        0
    }
}

/// A reader of tokens from a source text.
pub struct Lexer {
    source: Vec<char>,
    cursor: usize,
    position: SourcePosition,
    finished: bool,
}

/// The characters of `s`, in order.
fn chars_of(s: &str) -> (v: Vec<char>)
    ensures
        v@ == s@,
{
    let mut v: Vec<char> = Vec::new();
    let mut it = s.chars();
    loop
        invariant
            v@ + it.remaining() == s@,
            it.obeys_prophetic_iter_laws(),
            it.decrease() is Some,
        ensures
            v@ == s@,
        decreases it.decrease()->0,
    {
        match it.next() {
            Some(c) => {
                v.push(c);
                assert(v@ + it.remaining() =~= s@);
            },
            None => {
                assert(v@ =~= s@);
                break ;
            },
        }
    }
    v
}

impl Lexer {
    /// The text that is read.
    pub closed spec fn text(&self) -> Seq<char> {
        self.source@
    }

    /// The index of the first character that has not been read.
    pub closed spec fn cursor(&self) -> int {
        self.cursor as int
    }

    /// Whether the token `EndOfFile`, or a failure, has been handed out.
    pub closed spec fn finished(&self) -> bool {
        self.finished
    }

    /// The lexer knows the place of the character at its cursor.
    pub closed spec fn wf(&self) -> bool {
        &&& self.cursor <= self.source@.len()
        &&& self.position == position_at(self.source@, self.cursor as int)
        &&& byte_len(self.source@) <= usize::MAX
    }

    /// A lexer at the start of `source`.
    pub fn new(source: &str) -> (lexer: Lexer)
        ensures
            lexer.wf(),
            lexer.text() == source@,
            lexer.cursor() == 0,
            !lexer.finished(),
            byte_len(source@) == source.spec_bytes().len(),
            byte_len(source@) <= usize::MAX,
    {
        let chars = chars_of(source);
        let bytes = source.as_bytes();
        let n = bytes.len();
        proof {
            lemma_byte_len_is_encoded_len(source@);
        }
        Lexer { source: chars, cursor: 0, position: SourcePosition::new_origin(), finished: false }
    }

    /// Moves the cursor forward to `target`, keeping track of the place.
    fn advance_to(&mut self, target: usize)
        requires
            old(self).wf(),
            old(self).cursor <= target <= old(self).source@.len(),
        ensures
            final(self).wf(),
            final(self).source == old(self).source,
            final(self).finished == old(self).finished,
            final(self).cursor == target,
    {
        while self.cursor < target
            invariant
                self.wf(),
                self.source == old(self).source,
                self.finished == old(self).finished,
                self.cursor <= target <= self.source@.len(),
            decreases target - self.cursor,
        {
            proof {
                lemma_position_step(self.source@, self.cursor as int);
            }
            let c = self.source[self.cursor];
            self.position.advance(c);
            self.cursor = self.cursor + 1;
        }
    }

    /// Reads the next token. After the token `EndOfFile` or a failure has
    /// been handed out, there is nothing more to read.
    pub fn next_token(&mut self) -> (r: Option<Result<Spanning<Token>, Spanning<LexError>>>)
        requires
            old(self).wf(),
        ensures
            final(self).wf(),
            final(self).text() == old(self).text(),
            old(self).cursor() <= final(self).cursor() <= final(self).text().len(),
            old(self).finished() ==> r is None && final(self).finished() && final(self).cursor()
                == old(self).cursor(),
            !old(self).finished() ==> match next_token_at(old(self).text(), old(self).cursor()) {
                Ok((token, end)) => {
                    &&& r matches Some(Ok(t))
                    &&& t.deep_view() == token
                    &&& token.start == position_at(
                        old(self).text(),
                        skip_ignored(old(self).text(), old(self).cursor()),
                    )
                    &&& token.end == position_at(old(self).text(), end)
                    &&& skip_ignored(old(self).text(), old(self).cursor()) <= end
                    &&& final(self).cursor() == end
                    &&& final(self).finished() == (token.item is EndOfFile)
                    &&& token.item is EndOfFile <==> skip_ignored(
                        old(self).text(),
                        old(self).cursor(),
                    ) == old(self).text().len()
                    &&& !(token.item is EndOfFile) ==> skip_ignored(
                        old(self).text(),
                        old(self).cursor(),
                    ) < end
                },
                Err(error) => {
                    &&& r matches Some(Err(e))
                    &&& e.deep_view() == error
                    &&& final(self).finished()
                },
            },
    {
        proof {
            reveal(next_token_at);
        }
        if self.finished {
            return None;
        }
        let start = skip_ignored_from(&self.source, self.cursor);
        self.advance_to(start);
        let start_pos = self.position;
        match token_from(&self.source, start) {
            Ok((token, end)) => {
                self.advance_to(end);
                self.finished = end == start;
                Some(Ok(Spanning::start_end(&start_pos, &self.position, token)))
            },
            Err((at, error)) => {
                self.advance_to(at);
                self.finished = true;
                Some(Err(Spanning::zero_width(&self.position, error)))
            },
        }
    }

    /// Reads all the tokens that are left: up to and including the token
    /// `EndOfFile`, or up to the first failure, which is handed back with
    /// the tokens before it.
    pub fn read_all(&mut self) -> (r: (Vec<Spanning<Token>>, Option<Spanning<LexError>>))
        requires
            old(self).wf(),
            !old(self).finished(),
        ensures
            final(self).wf(),
            final(self).text() == old(self).text(),
            final(self).finished(),
            ({
                let tokens = tokens_from(old(self).text(), old(self).cursor());
                &&& r.0.deep_view() == tokens.items
                &&& r.1.deep_view() == tokens.failure
                &&& stream_ok(tokens)
                &&& text_len(tokens) <= byte_len(old(self).text())
                &&& tokens.failure is None ==> text_len(tokens) == byte_len(old(self).text())
            }),
    {
        let mut read: Vec<Spanning<Token>> = Vec::new();
        let ghost src = self.source@;
        let ghost first = self.cursor as int;
        proof {
            assert(read.deep_view() =~= Seq::empty());
            assert(tokens_from(src, first).after(Seq::empty()).items =~= tokens_from(
                src,
                first,
            ).items);
            lemma_offsets_grow(src, first, src.len() as int);
        }
        loop
            invariant
                self.wf(),
                self.source@ == src,
                src == old(self).text(),
                first == old(self).cursor(),
                !self.finished,
                first <= self.cursor <= src.len(),
                tokens_from(src, first) == tokens_from(src, self.cursor as int).after(
                    read.deep_view(),
                ),
                forall|k: int| 0 <= k < read@.len() ==> !((#[trigger] read@[k]).item is EndOfFile),
                forall|k: int|
                    0 <= k < read@.len() ==> (#[trigger] read@[k]).start.index
                        <= read@[k].end.index <= offset_at(src, self.cursor as int),
                forall|j: int, k: int|
                    0 <= j < k < read@.len() ==> (#[trigger] read@[j]).end.index
                        <= (#[trigger] read@[k]).start.index,
                offset_at(src, self.cursor as int) <= byte_len(src),
            decreases src.len() - self.cursor,
        {
            let ghost before = self.cursor as int;
            let ghost start = skip_ignored(src, before);
            let ghost prior = read.deep_view();
            proof {
                lemma_skip_ignored_bounds(src, before);
                lemma_offsets_grow(src, before, start);
                lemma_offsets_grow(src, start, src.len() as int);
            }
            match self.next_token() {
                None => {
                    proof {
                        assert(false);
                    }
                    return (read, None);
                },
                Some(Err(e)) => {
                    proof {
                        lemma_read_ok(read, tokens_from(src, first), Some(e.deep_view()));
                        assert(prior + Seq::empty() =~= prior);
                    }
                    return (read, Some(e));
                },
                Some(Ok(t)) => {
                    let ghost after = self.cursor as int;
                    proof {
                        lemma_offsets_grow(src, start, after);
                        lemma_offsets_grow(src, after, src.len() as int);
                    }
                    let is_end = t.item.same(&Token::EndOfFile);
                    read.push(t);
                    proof {
                        assert(read.deep_view() =~= prior.push(t.deep_view()));
                        assert(prior + seq![t.deep_view()] =~= read.deep_view());
                    }
                    if is_end {
                        proof {
                            lemma_read_ok(read, tokens_from(src, first), None);
                        }
                        return (read, None);
                    }
                    proof {
                        let rest = tokens_from(src, after);
                        assert(prior + (seq![t.deep_view()] + rest.items) =~= read.deep_view()
                            + rest.items);
                    }
                },
            }
        }
    }

    /// Reads all the tokens that are left, up to and including the token
    /// `EndOfFile`; or hands back the first failure.
    pub fn tokens(&mut self) -> (r: Result<Vec<Spanning<Token>>, Spanning<LexError>>)
        requires
            old(self).wf(),
            !old(self).finished(),
        ensures
            final(self).wf(),
            final(self).text() == old(self).text(),
            final(self).finished(),
            ({
                let tokens = tokens_from(old(self).text(), old(self).cursor());
                match tokens.failure {
                    None => r matches Ok(v) && v.deep_view() == tokens.items && stream_ok(tokens)
                        && text_len(tokens) == byte_len(old(self).text()),
                    Some(error) => r matches Err(e) && e.deep_view() == error,
                }
            }),
    {
        match self.read_all() {
            (tokens, None) => Ok(tokens),
            (_, Some(e)) => Err(e),
        }
    }
}

/// The tokens that were read are in order, if each of them is, none but
/// the last is `EndOfFile`, and the last is so exactly where there was no
/// failure.
proof fn lemma_read_ok(
    read: Vec<Spanning<Token>>,
    tokens: Tokens,
    failure: Option<Spanning<LexErrorView>>,
)
    requires
        tokens.items == read.deep_view(),
        tokens.failure == failure,
        forall|k: int| 0 <= k < read@.len() - 1 ==> !((#[trigger] read@[k]).item is EndOfFile),
        failure is None ==> read@.len() > 0 && read@[read@.len() - 1].item is EndOfFile,
        failure is Some ==> forall|k: int|
            0 <= k < read@.len() ==> !((#[trigger] read@[k]).item is EndOfFile),
        forall|k: int|
            0 <= k < read@.len() ==> (#[trigger] read@[k]).start.index <= read@[k].end.index,
        forall|j: int, k: int|
            0 <= j < k < read@.len() ==> (#[trigger] read@[j]).end.index
                <= (#[trigger] read@[k]).start.index,
    ensures
        stream_ok(tokens),
        tokens.len() > 0 ==> text_len(tokens) == read@[read@.len() - 1].end.index,
{
    let items = read.deep_view();
    assert forall|k: int| 0 <= k < items.len() implies (#[trigger] items[k]).start
        == read@[k].start && items[k].end == read@[k].end && (items[k].item is EndOfFile
        <==> read@[k].item is EndOfFile) by {
        assert(items[k] == read@[k].deep_view());
    }
    assert forall|k: int| 0 <= k < tokens.len() implies (#[trigger] tokens[k]).start.index
        <= tokens[k].end.index by {
        assert(items[k].start == read@[k].start);
    }
    assert forall|j: int, k: int| 0 <= j < k < tokens.len() implies (#[trigger] tokens[j]).end.index
        <= (#[trigger] tokens[k]).start.index by {
        assert(items[j].end == read@[j].end);
        assert(items[k].start == read@[k].start);
    }
    assert forall|k: int| 0 <= k < tokens.len() - 1 implies !((#[trigger] tokens[k]).item
        is EndOfFile) by {
        assert(items[k].start == read@[k].start);
    }
    if failure is Some {
        assert forall|k: int| 0 <= k < tokens.len() implies !((#[trigger] tokens[k]).item
            is EndOfFile) by {
            assert(items[k].start == read@[k].start);
        }
    } else {
        assert(items[items.len() - 1].start == read@[read@.len() - 1].start);
    }
    if tokens.len() > 0 {
        assert(items[items.len() - 1].end == read@[read@.len() - 1].end);
    }
}

/// Reads `source` into its tokens, the last of them `EndOfFile`; or hands
/// back the first failure.
pub fn tokenize(source: &str) -> (r: Result<Vec<Spanning<Token>>, Spanning<LexError>>)
    ensures
        match tokens_of(source@).failure {
            None => r matches Ok(v) && v.deep_view() == tokens_of(source@).items && stream_ok(
                tokens_of(source@),
            ) && text_len(tokens_of(source@)) == source.spec_bytes().len(),
            Some(error) => r matches Err(e) && e.deep_view() == error,
        },
{
    let mut lexer = Lexer::new(source);
    lexer.tokens()
}

} // verus!
