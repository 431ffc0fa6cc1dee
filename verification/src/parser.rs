//! The parser's view of the tokens: one token of lookahead, and the few
//! ways of taking a token that the grammar needs.

use vstd::prelude::*;
use crate::lexer::{stream_ok, text_len, tokens_from, Lexer, Tokens};
use crate::position::{byte_len, SourcePosition, Spanning};
use crate::token::{LexError, LexErrorView, Token, TokenView};

verus! {

/// Why a text is no document, value or type.
#[derive(Clone, Debug, PartialEq, Eq, Hash)]
pub enum ParseError {
    /// A token that no rule of the grammar allows where it stands.
    UnexpectedToken(Token),
    /// The text ended in the middle of a rule.
    UnexpectedEndOfFile,
    /// The text could not be read into tokens.
    LexerError(LexError),
}

/// What a [`ParseError`] stands for.
pub enum ParseErrorView {
    UnexpectedToken(TokenView),
    UnexpectedEndOfFile,
    LexerError(LexErrorView),
}

impl DeepView for ParseError {
    type V = ParseErrorView;

    open spec fn deep_view(&self) -> ParseErrorView {
        match self {
            ParseError::UnexpectedToken(t) => ParseErrorView::UnexpectedToken(t.deep_view()),
            ParseError::UnexpectedEndOfFile => ParseErrorView::UnexpectedEndOfFile,
            ParseError::LexerError(e) => ParseErrorView::LexerError(e.deep_view()),
        }
    }
}

/// What a rule of the grammar makes of the tokens from some index on: a
/// value and the index of the first token after it, or a failure.
pub type Parsed<T> = Result<(T, int), Spanning<ParseErrorView>>;

/// Whether what a parsing function returned, and where it left the cursor,
/// is what the grammar says.
pub open spec fn agrees<T: DeepView>(
    r: Result<T, Spanning<ParseError>>,
    cursor: int,
    s: Parsed<T::V>,
) -> bool {
    match s {
        Ok((v, c)) => r matches Ok(x) && x.deep_view() == v && cursor == c,
        Err(e) => r matches Err(x) && x.deep_view() == e,
    }
}

/// The failure that the end of the text is, where more was expected: it
/// spans the token `EndOfFile`.
pub open spec fn end_of_file_at(tokens: Tokens, at: int) -> Spanning<ParseErrorView> {
    Spanning {
        start: tokens[at].start,
        end: tokens[at].end,
        item: ParseErrorView::UnexpectedEndOfFile,
    }
}

/// The failure of the lexer that ends the tokens, as a failure to parse.
pub open spec fn lexer_failure(e: Spanning<LexErrorView>) -> Spanning<ParseErrorView> {
    Spanning { start: e.start, end: e.end, item: ParseErrorView::LexerError(e.item) }
}

/// Taking the token at `at`, whatever it is.
///
/// The token `EndOfFile` cannot be taken. Neither can the last token
/// before a failure of the lexer: the parser looks one token ahead, and so
/// the failure comes to light when the token before it is taken.
pub open spec fn spec_next(tokens: Tokens, at: int) -> Parsed<Spanning<TokenView>> {
    if tokens[at].item is EndOfFile {
        Err(end_of_file_at(tokens, at))
    } else if at + 1 >= tokens.len() {
        match tokens.failure {
            Some(e) => Err(lexer_failure(e)),
            None => Err(end_of_file_at(tokens, at)),
        }
    } else {
        Ok((tokens[at], at + 1))
    }
}

/// The failure that the token at `at` is, where it fits no rule: the token
/// is taken, and it is what was not expected; where it cannot be taken,
/// that is the failure.
pub open spec fn unexpected_at(tokens: Tokens, at: int) -> Spanning<ParseErrorView> {
    match spec_next(tokens, at) {
        Ok((token, _)) => Spanning {
            start: token.start,
            end: token.end,
            item: ParseErrorView::UnexpectedToken(token.item),
        },
        Err(e) => e,
    }
}

/// Taking the token at `at`, which must be `expected`.
pub open spec fn spec_expect(tokens: Tokens, at: int, expected: TokenView) -> Parsed<
    Spanning<TokenView>,
> {
    if tokens[at].item != expected {
        Err(unexpected_at(tokens, at))
    } else {
        spec_next(tokens, at)
    }
}

/// Taking the token at `at`, which must be a name: the name, with the
/// token's place.
pub open spec fn spec_expect_name(tokens: Tokens, at: int) -> Parsed<Spanning<Seq<char>>> {
    match tokens[at].item {
        TokenView::Name(name) => match spec_next(tokens, at) {
            Ok((token, next)) => Ok(
                (Spanning { start: token.start, end: token.end, item: name }, next),
            ),
            Err(e) => Err(e),
        },
        _ => Err(unexpected_at(tokens, at)),
    }
}

/// Taking the token at `at` if it is `expected`, and nothing otherwise. At
/// the end of the text this fails, at the place where the text ends.
pub open spec fn spec_skip(tokens: Tokens, at: int, expected: TokenView) -> Parsed<
    Option<Spanning<TokenView>>,
> {
    if tokens[at].item == expected {
        match spec_next(tokens, at) {
            Ok((token, next)) => Ok((Some(token), next)),
            Err(e) => Err(e),
        }
    } else if tokens[at].item is EndOfFile {
        Err(
            Spanning {
                start: tokens[at].start,
                end: tokens[at].start,
                item: ParseErrorView::UnexpectedEndOfFile,
            },
        )
    } else {
        Ok((None, at))
    }
}

/// Whether the text from `start` to `end` is what the tokens from index
/// `from` up to `to` cover, and there is at least one of them.
pub open spec fn covers(
    tokens: Tokens,
    from: int,
    to: int,
    start: SourcePosition,
    end: SourcePosition,
) -> bool {
    &&& 0 <= from < to < tokens.len()
    &&& start == tokens[from].start
    &&& end == tokens[to - 1].end
}

/// Whether a range of text ends no earlier than it starts, and no later than
/// after `limit` bytes.
pub open spec fn span_ok(start: SourcePosition, end: SourcePosition, limit: nat) -> bool {
    start.index <= end.index <= limit
}

/// The text that some tokens cover is a range within the text they were
/// read from.
pub proof fn lemma_covered_span(
    tokens: Tokens,
    from: int,
    to: int,
    start: SourcePosition,
    end: SourcePosition,
)
    requires
        stream_ok(tokens),
        covers(tokens, from, to, start, end),
    ensures
        span_ok(start, end, text_len(tokens)),
{
    let last = tokens.len() - 1;
    assert(tokens[from].start.index <= tokens[from].end.index);
    assert(tokens[to - 1].start.index <= tokens[to - 1].end.index);
    assert(tokens[last].start.index <= tokens[last].end.index);
    if from < to - 1 {
        assert(tokens[from].end.index <= tokens[to - 1].start.index);
    }
    if to - 1 < last {
        assert(tokens[to - 1].end.index <= tokens[last].start.index);
    }
}

/// The tokens of a text and a cursor into them. The token at the cursor is
/// the lookahead. The cursor never moves past the token `EndOfFile`, nor
/// past the last token before a failure of the lexer.
pub struct Parser {
    tokens: Vec<Spanning<Token>>,
    failure: Option<Spanning<LexError>>,
    cursor: usize,
}

impl Parser {
    /// The tokens that are parsed.
    pub closed spec fn tokens(&self) -> Tokens {
        Tokens { items: self.tokens.deep_view(), failure: self.failure.deep_view() }
    }

    /// The index of the lookahead token.
    pub closed spec fn cursor(&self) -> int {
        self.cursor as int
    }

    /// The tokens are those of a text, and the cursor is at one of them.
    pub open spec fn wf(&self) -> bool {
        &&& stream_ok(self.tokens())
        &&& 0 <= self.cursor() < self.tokens().len()
    }

    /// Reads the tokens that `lexer` has left, and starts at the first of
    /// them. Where not even one token can be read, there is no parser, but
    /// the failure of the lexer.
    pub fn new(lexer: &mut Lexer) -> (r: Result<Parser, Spanning<LexError>>)
        requires
            old(lexer).wf(),
            !old(lexer).finished(),
        ensures
            final(lexer).wf(),
            final(lexer).text() == old(lexer).text(),
            final(lexer).finished(),
            ({
                let tokens = tokens_from(old(lexer).text(), old(lexer).cursor());
                if tokens.len() == 0 {
                    r matches Err(e) && Some(e.deep_view()) == tokens.failure
                } else {
                    &&& r matches Ok(parser)
                    &&& parser.wf()
                    &&& parser.tokens() == tokens
                    &&& parser.cursor() == 0
                    &&& text_len(tokens) <= byte_len(old(lexer).text())
                    &&& tokens.failure is None ==> text_len(tokens) == byte_len(old(lexer).text())
                }
            }),
    {
        let (tokens, failure) = lexer.read_all();
        if tokens.len() == 0 {
            match failure {
                Some(e) => Err(e),
                None => {
                    proof {
                        assert(false);
                    }
                    Err(
                        Spanning::zero_width(
                            &SourcePosition::new_origin(),
                            LexError::UnexpectedEndOfFile,
                        ),
                    )
                },
            }
        } else {
            Ok(Parser { tokens, failure, cursor: 0 })
        }
    }

    /// The lookahead token.
    pub fn peek(&self) -> (r: &Spanning<Token>)
        requires
            self.wf(),
        ensures
            r.deep_view() == self.tokens()[self.cursor()],
    {
        &self.tokens[self.cursor]
    }

    /// Takes the lookahead token, whatever it is, and makes the token
    /// after it the lookahead.
    ///
    /// The token `EndOfFile` cannot be taken: there the text has ended too
    /// early. Where the lexer fails on what follows the lookahead, that
    /// failure is what comes of taking it. A failure leaves the cursor
    /// where it was.
    pub fn next(&mut self) -> (r: Result<Spanning<Token>, Spanning<ParseError>>)
        requires
            old(self).wf(),
        ensures
            final(self).wf(),
            final(self).tokens() == old(self).tokens(),
            old(self).cursor() <= final(self).cursor(),
            r is Err ==> final(self).cursor() == old(self).cursor(),
            agrees(r, final(self).cursor(), spec_next(old(self).tokens(), old(self).cursor())),
    {
        let token = &self.tokens[self.cursor];
        proof {
            assert(self.tokens()[self.cursor as int] == token.deep_view());
        }
        if token.item.same(&Token::EndOfFile) {
            Err(Spanning::start_end(&token.start, &token.end, ParseError::UnexpectedEndOfFile))
        } else if self.tokens.len() - self.cursor <= 1 {
            match &self.failure {
                Some(e) => Err(
                    Spanning::start_end(&e.start, &e.end, ParseError::LexerError(e.item.clone())),
                ),
                None => Err(
                    Spanning::start_end(&token.start, &token.end, ParseError::UnexpectedEndOfFile),
                ),
            }
        } else {
            let taken = Spanning::start_end(&token.start, &token.end, token.item.clone());
            self.cursor = self.cursor + 1;
            Ok(taken)
        }
    }

    /// The failure that the lookahead token is, where it fits no rule.
    pub fn unexpected(&mut self) -> (e: Spanning<ParseError>)
        requires
            old(self).wf(),
        ensures
            final(self).wf(),
            final(self).tokens() == old(self).tokens(),
            old(self).cursor() <= final(self).cursor(),
            e.deep_view() == unexpected_at(old(self).tokens(), old(self).cursor()),
    {
        match self.next() {
            Ok(token) => Spanning::start_end(
                &token.start,
                &token.end,
                ParseError::UnexpectedToken(token.item),
            ),
            Err(e) => e,
        }
    }

    /// Takes the lookahead token, which must be `expected`.
    pub fn expect(&mut self, expected: &Token) -> (r: Result<Spanning<Token>, Spanning<ParseError>>)
        requires
            old(self).wf(),
        ensures
            final(self).wf(),
            final(self).tokens() == old(self).tokens(),
            old(self).cursor() <= final(self).cursor(),
            agrees(
                r,
                final(self).cursor(),
                spec_expect(old(self).tokens(), old(self).cursor(), expected.deep_view()),
            ),
    {
        proof {
            assert(self.tokens()[self.cursor as int] == self.tokens@[self.cursor as int].deep_view());
        }
        if !self.tokens[self.cursor].item.same(expected) {
            Err(self.unexpected())
        } else {
            self.next()
        }
    }

    /// Takes the lookahead token, which must be a name.
    pub fn expect_name(&mut self) -> (r: Result<Spanning<String>, Spanning<ParseError>>)
        requires
            old(self).wf(),
        ensures
            final(self).wf(),
            final(self).tokens() == old(self).tokens(),
            old(self).cursor() <= final(self).cursor(),
            agrees(r, final(self).cursor(), spec_expect_name(old(self).tokens(), old(self).cursor())),
    {
        proof {
            assert(self.tokens()[self.cursor as int] == self.tokens@[self.cursor as int].deep_view());
        }
        let is_name = match &self.tokens[self.cursor].item {
            Token::Name(_) => true,
            _ => false,
        };
        if !is_name {
            return Err(self.unexpected());
        }
        match self.next() {
            Ok(token) => {
                let Spanning { start, end, item } = token;
                match item {
                    Token::Name(name) => Ok(Spanning { start, end, item: name }),
                    _ => {
                        proof {
                            assert(false);
                        }
                        Err(Spanning { start, end, item: ParseError::UnexpectedEndOfFile })
                    },
                }
            },
            Err(e) => Err(e),
        }
    }

    /// Takes the lookahead token if it is `expected`, and nothing
    /// otherwise.
    pub fn skip(&mut self, expected: &Token) -> (r: Result<
        Option<Spanning<Token>>,
        Spanning<ParseError>,
    >)
        requires
            old(self).wf(),
        ensures
            final(self).wf(),
            final(self).tokens() == old(self).tokens(),
            old(self).cursor() <= final(self).cursor(),
            agrees(
                r,
                final(self).cursor(),
                spec_skip(old(self).tokens(), old(self).cursor(), expected.deep_view()),
            ),
    {
        let token = &self.tokens[self.cursor];
        proof {
            assert(self.tokens()[self.cursor as int] == token.deep_view());
        }
        if token.item.same(expected) {
            match self.next() {
                Ok(taken) => Ok(Some(taken)),
                Err(e) => Err(e),
            }
        } else if token.item.same(&Token::EndOfFile) {
            Err(Spanning::zero_width(&token.start, ParseError::UnexpectedEndOfFile))
        } else {
            Ok(None)
        }
    }
}

} // verus!
