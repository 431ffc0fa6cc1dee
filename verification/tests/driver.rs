use juniper::document::{parse_document, parse_type_reference};
use juniper::lexer::Lexer;
use juniper::parser::{ParseError, Parser};
use juniper::position::{SourcePosition, Spanning};
use juniper::token::{LexError, Scalar, Token};

fn at(index: usize) -> SourcePosition {
    SourcePosition::new(index, 0, index)
}

fn span<T>(start: usize, end: usize, item: T) -> Spanning<T> {
    Spanning::start_end(&at(start), &at(end), item)
}

fn parser_for(source: &str) -> Parser {
    let mut lexer = Lexer::new(source);
    Parser::new(&mut lexer).unwrap()
}

#[test]
fn parser_starts_where_the_lexer_stands() {
    let mut lexer = Lexer::new("a b");
    assert_eq!(lexer.next_token(), Some(Ok(span(0, 1, Token::Name("a".to_string())))));
    let mut parser = Parser::new(&mut lexer).unwrap();
    assert_eq!(parser.peek(), &span(2, 3, Token::Name("b".to_string())));
    assert_eq!(parser.next(), Ok(span(2, 3, Token::Name("b".to_string()))));
    assert_eq!(parser.peek(), &span(3, 3, Token::EndOfFile));
    assert_eq!(lexer.next_token(), None);
}

#[test]
fn parser_needs_a_first_token() {
    let mut lexer = Lexer::new("  ? a");
    assert_eq!(
        Parser::new(&mut lexer).err(),
        Some(span(2, 2, LexError::UnknownCharacter('?')))
    );
    let mut lexer = Lexer::new("\"");
    assert_eq!(
        Parser::new(&mut lexer).err(),
        Some(span(1, 1, LexError::UnterminatedString))
    );
}

#[test]
fn lexer_failure_stops_the_token_before_it() {
    let mut parser = parser_for("a b ? c");
    assert_eq!(parser.peek(), &span(0, 1, Token::Name("a".to_string())));
    assert_eq!(parser.next(), Ok(span(0, 1, Token::Name("a".to_string()))));
    assert_eq!(parser.peek(), &span(2, 3, Token::Name("b".to_string())));
    let failure = Err(span(4, 4, ParseError::LexerError(LexError::UnknownCharacter('?'))));
    assert_eq!(parser.next(), failure);
    assert_eq!(parser.peek(), &span(2, 3, Token::Name("b".to_string())));
    assert_eq!(parser.expect(&Token::Name("b".to_string())), failure);
    assert_eq!(parser.expect(&Token::Colon), failure);
    assert_eq!(parser.skip(&Token::Name("b".to_string())).map(|t| t.is_some()), failure.clone().map(|_| true));
    assert_eq!(parser.skip(&Token::Colon), Ok(None));
    assert_eq!(parser.expect_name().map(|n| n.item), failure.clone().map(|_| String::new()));
    assert_eq!(parser.unexpected(), failure.unwrap_err());
    assert_eq!(parser.peek(), &span(2, 3, Token::Name("b".to_string())));
}

#[test]
fn peek_does_not_consume() {
    let parser = parser_for("{ a }");
    assert_eq!(parser.peek(), &span(0, 1, Token::CurlyOpen));
    assert_eq!(parser.peek(), &span(0, 1, Token::CurlyOpen));
}

#[test]
fn next_takes_tokens_up_to_the_end() {
    let mut parser = parser_for("a 1");
    assert_eq!(parser.next(), Ok(span(0, 1, Token::Name("a".to_string()))));
    assert_eq!(parser.next(), Ok(span(2, 3, Token::Scalar(Scalar::Int(1)))));
    assert_eq!(parser.next(), Err(span(3, 3, ParseError::UnexpectedEndOfFile)));
    assert_eq!(parser.next(), Err(span(3, 3, ParseError::UnexpectedEndOfFile)));
    assert_eq!(parser.peek(), &span(3, 3, Token::EndOfFile));
}

#[test]
fn expect_takes_the_token_it_is_given() {
    let mut parser = parser_for("( fragment ) x");
    assert_eq!(parser.expect(&Token::ParenOpen), Ok(span(0, 1, Token::ParenOpen)));
    assert_eq!(parser.peek(), &span(2, 10, Token::Name("fragment".to_string())));
    assert_eq!(
        parser.expect(&Token::Name("fragment".to_string())),
        Ok(span(2, 10, Token::Name("fragment".to_string())))
    );
    assert_eq!(
        parser.expect(&Token::ParenOpen),
        Err(span(11, 12, ParseError::UnexpectedToken(Token::ParenClose)))
    );
    assert_eq!(
        parser.expect(&Token::Name("y".to_string())),
        Err(span(13, 14, ParseError::UnexpectedToken(Token::Name("x".to_string()))))
    );
    assert_eq!(
        parser.expect(&Token::ParenClose),
        Err(span(14, 14, ParseError::UnexpectedEndOfFile))
    );
    assert_eq!(
        parser.expect(&Token::EndOfFile),
        Err(span(14, 14, ParseError::UnexpectedEndOfFile))
    );
}

#[test]
fn expect_name_takes_names_only() {
    let mut parser = parser_for("on 7 x");
    assert_eq!(parser.expect_name(), Ok(span(0, 2, "on".to_string())));
    assert_eq!(
        parser.expect_name(),
        Err(span(3, 4, ParseError::UnexpectedToken(Token::Scalar(Scalar::Int(7)))))
    );
    assert_eq!(parser.expect_name(), Ok(span(5, 6, "x".to_string())));
    assert_eq!(parser.expect_name(), Err(span(6, 6, ParseError::UnexpectedEndOfFile)));
    assert_eq!(parser.expect_name(), Err(span(6, 6, ParseError::UnexpectedEndOfFile)));
}

#[test]
fn skip_takes_a_token_or_nothing() {
    let mut parser = parser_for(": = ");
    assert_eq!(parser.skip(&Token::Equals), Ok(None));
    assert_eq!(parser.peek(), &span(0, 1, Token::Colon));
    assert_eq!(parser.skip(&Token::Colon), Ok(Some(span(0, 1, Token::Colon))));
    assert_eq!(parser.skip(&Token::Colon), Ok(None));
    assert_eq!(parser.skip(&Token::Equals), Ok(Some(span(2, 3, Token::Equals))));
    assert_eq!(
        parser.skip(&Token::Equals),
        Err(span(4, 4, ParseError::UnexpectedEndOfFile))
    );
    assert_eq!(
        parser.skip(&Token::EndOfFile),
        Err(span(4, 4, ParseError::UnexpectedEndOfFile))
    );
}

#[test]
fn unexpected_names_the_lookahead() {
    let mut parser = parser_for("| @");
    assert_eq!(
        parser.unexpected(),
        span(0, 1, ParseError::UnexpectedToken(Token::Pipe))
    );
    assert_eq!(parser.next(), Ok(span(2, 3, Token::At)));
    assert_eq!(parser.unexpected(), span(3, 3, ParseError::UnexpectedEndOfFile));
}

#[test]
fn type_reference_leaves_what_follows() {
    let mut parser = parser_for("[A]! = 1");
    let t = parse_type_reference(&mut parser).unwrap();
    assert_eq!((t.start, t.end), (at(0), at(4)));
    assert_eq!(parser.peek(), &span(5, 6, Token::Equals));
    let mut parser = parser_for("A!!");
    let t = parse_type_reference(&mut parser).unwrap();
    assert_eq!((t.start, t.end), (at(0), at(2)));
    assert_eq!(parser.peek(), &span(2, 3, Token::ExclamationMark));
    let mut parser = parser_for("[A");
    assert_eq!(
        parse_type_reference(&mut parser),
        Err(span(2, 2, ParseError::UnexpectedEndOfFile))
    );
    let mut parser = parser_for("[!]");
    assert_eq!(
        parse_type_reference(&mut parser),
        Err(span(1, 2, ParseError::UnexpectedToken(Token::ExclamationMark)))
    );
}

#[test]
fn document_is_parsed_from_where_the_parser_stands() {
    let mut parser = parser_for("x { a } { b }");
    assert_eq!(parser.next(), Ok(span(0, 1, Token::Name("x".to_string()))));
    let doc = parse_document(&mut parser).unwrap();
    assert_eq!(doc.len(), 2);
    assert_eq!(parser.peek(), &span(13, 13, Token::EndOfFile));
}
