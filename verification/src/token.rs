//! The tokens of the query language, and the ways in which reading one can
//! fail.

use vstd::prelude::*;

verus! {

/// A literal of one of the scalar kinds.
///
/// A number with a fraction or an exponent is kept as it was written: its
/// text is a sign, digits, and a fraction, an exponent or both.
#[derive(Debug, PartialEq, Eq, Hash)]
pub enum Scalar {
    String(String),
    Int(i64),
    Float(String),
}

/// One token of source text.
#[derive(Debug, PartialEq, Eq, Hash)]
pub enum Token {
    Name(String),
    Scalar(Scalar),
    ExclamationMark,
    Dollar,
    ParenOpen,
    ParenClose,
    BracketOpen,
    BracketClose,
    CurlyOpen,
    CurlyClose,
    Ellipsis,
    Colon,
    Equals,
    At,
    Pipe,
    EndOfFile,
}

/// Why no token could be read.
#[derive(Debug, PartialEq, Eq, Hash)]
pub enum LexError {
    /// A character that starts no token.
    UnknownCharacter(char),
    /// A string literal with no closing quote on its line.
    UnterminatedString,
    /// A backslash in a string literal followed by something that is no
    /// escape; the text is the backslash and what was read after it.
    UnknownEscapeSequence(String),
    /// A control character inside a string literal.
    UnknownCharacterInString(char),
    /// A number that is malformed, runs into a name, or does not fit.
    InvalidNumber,
    /// The text ended inside a token.
    UnexpectedEndOfFile,
}

/// What a [`Scalar`] stands for.
pub enum ScalarView {
    String(Seq<char>),
    Int(i64),
    Float(Seq<char>),
}

/// What a [`Token`] stands for.
pub enum TokenView {
    Name(Seq<char>),
    Scalar(ScalarView),
    ExclamationMark,
    Dollar,
    ParenOpen,
    ParenClose,
    BracketOpen,
    BracketClose,
    CurlyOpen,
    CurlyClose,
    Ellipsis,
    Colon,
    Equals,
    At,
    Pipe,
    EndOfFile,
}

/// What a [`LexError`] stands for.
pub enum LexErrorView {
    UnknownCharacter(char),
    UnterminatedString,
    UnknownEscapeSequence(Seq<char>),
    UnknownCharacterInString(char),
    InvalidNumber,
    UnexpectedEndOfFile,
}

impl DeepView for Scalar {
    type V = ScalarView;

    open spec fn deep_view(&self) -> ScalarView {
        match self {
            Scalar::String(s) => ScalarView::String(s@),
            Scalar::Int(i) => ScalarView::Int(*i),
            Scalar::Float(s) => ScalarView::Float(s@),
        }
    }
}

impl DeepView for Token {
    type V = TokenView;

    open spec fn deep_view(&self) -> TokenView {
        match self {
            Token::Name(s) => TokenView::Name(s@),
            Token::Scalar(s) => TokenView::Scalar(s.deep_view()),
            Token::ExclamationMark => TokenView::ExclamationMark,
            Token::Dollar => TokenView::Dollar,
            Token::ParenOpen => TokenView::ParenOpen,
            Token::ParenClose => TokenView::ParenClose,
            Token::BracketOpen => TokenView::BracketOpen,
            Token::BracketClose => TokenView::BracketClose,
            Token::CurlyOpen => TokenView::CurlyOpen,
            Token::CurlyClose => TokenView::CurlyClose,
            Token::Ellipsis => TokenView::Ellipsis,
            Token::Colon => TokenView::Colon,
            Token::Equals => TokenView::Equals,
            Token::At => TokenView::At,
            Token::Pipe => TokenView::Pipe,
            Token::EndOfFile => TokenView::EndOfFile,
        }
    }
}

impl DeepView for LexError {
    type V = LexErrorView;

    open spec fn deep_view(&self) -> LexErrorView {
        match self {
            LexError::UnknownCharacter(c) => LexErrorView::UnknownCharacter(*c),
            LexError::UnterminatedString => LexErrorView::UnterminatedString,
            LexError::UnknownEscapeSequence(s) => LexErrorView::UnknownEscapeSequence(s@),
            LexError::UnknownCharacterInString(c) => LexErrorView::UnknownCharacterInString(*c),
            LexError::InvalidNumber => LexErrorView::InvalidNumber,
            LexError::UnexpectedEndOfFile => LexErrorView::UnexpectedEndOfFile,
        }
    }
}

impl Clone for Scalar {
    fn clone(&self) -> (r: Scalar)
        ensures
            r == *self,
    {
        match self {
            Scalar::String(s) => Scalar::String(s.clone()),
            Scalar::Int(i) => Scalar::Int(*i),
            Scalar::Float(s) => Scalar::Float(s.clone()),
        }
    }
}

impl Clone for LexError {
    fn clone(&self) -> (r: LexError)
        ensures
            r == *self,
    {
        match self {
            LexError::UnknownCharacter(c) => LexError::UnknownCharacter(*c),
            LexError::UnterminatedString => LexError::UnterminatedString,
            LexError::UnknownEscapeSequence(s) => LexError::UnknownEscapeSequence(s.clone()),
            LexError::UnknownCharacterInString(c) => LexError::UnknownCharacterInString(*c),
            LexError::InvalidNumber => LexError::InvalidNumber,
            LexError::UnexpectedEndOfFile => LexError::UnexpectedEndOfFile,
        }
    }
}

impl Clone for Token {
    fn clone(&self) -> (r: Token)
        ensures
            r == *self,
    {
        match self {
            Token::Name(s) => Token::Name(s.clone()),
            Token::Scalar(s) => Token::Scalar(s.clone()),
            Token::ExclamationMark => Token::ExclamationMark,
            Token::Dollar => Token::Dollar,
            Token::ParenOpen => Token::ParenOpen,
            Token::ParenClose => Token::ParenClose,
            Token::BracketOpen => Token::BracketOpen,
            Token::BracketClose => Token::BracketClose,
            Token::CurlyOpen => Token::CurlyOpen,
            Token::CurlyClose => Token::CurlyClose,
            Token::Ellipsis => Token::Ellipsis,
            Token::Colon => Token::Colon,
            Token::Equals => Token::Equals,
            Token::At => Token::At,
            Token::Pipe => Token::Pipe,
            Token::EndOfFile => Token::EndOfFile,
        }
    }
}

impl Scalar {
    /// Whether two literals are of the same kind and hold the same value.
    pub fn same(&self, other: &Scalar) -> (r: bool)
        ensures
            r == (self.deep_view() == other.deep_view()),
    {
        match (self, other) {
            (Scalar::String(a), Scalar::String(b)) => a.as_str().eq(b.as_str()),
            (Scalar::Int(a), Scalar::Int(b)) => *a == *b,
            (Scalar::Float(a), Scalar::Float(b)) => a.as_str().eq(b.as_str()),
            _ => false,
        }
    }
}

impl Token {
    /// Whether two tokens are of the same kind and hold the same text or
    /// value.
    pub fn same(&self, other: &Token) -> (r: bool)
        ensures
            r == (self.deep_view() == other.deep_view()),
    {
        match (self, other) {
            (Token::Name(a), Token::Name(b)) => a.as_str().eq(b.as_str()),
            (Token::Scalar(a), Token::Scalar(b)) => a.same(b),
            (Token::ExclamationMark, Token::ExclamationMark) => true,
            (Token::Dollar, Token::Dollar) => true,
            (Token::ParenOpen, Token::ParenOpen) => true,
            (Token::ParenClose, Token::ParenClose) => true,
            (Token::BracketOpen, Token::BracketOpen) => true,
            (Token::BracketClose, Token::BracketClose) => true,
            (Token::CurlyOpen, Token::CurlyOpen) => true,
            (Token::CurlyClose, Token::CurlyClose) => true,
            (Token::Ellipsis, Token::Ellipsis) => true,
            (Token::Colon, Token::Colon) => true,
            (Token::Equals, Token::Equals) => true,
            (Token::At, Token::At) => true,
            (Token::Pipe, Token::Pipe) => true,
            (Token::EndOfFile, Token::EndOfFile) => true,
            _ => false,
        }
    }

    /// Whether the token is the name `word`.
    pub fn is_name(&self, word: &str) -> (r: bool)
        ensures
            r == (self.deep_view() == TokenView::Name(word@)),
    {
        match self {
            Token::Name(a) => a.as_str().eq(word),
            _ => false,
        }
    }
}

} // verus!
