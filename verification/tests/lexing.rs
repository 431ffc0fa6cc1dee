use juniper::lexer::{tokenize, Lexer};
use juniper::position::{utf8_width, SourcePosition, Spanning};
use juniper::token::{LexError, Scalar, Token};

fn at(index: usize) -> SourcePosition {
    SourcePosition::new(index, 0, index)
}

fn span<T>(start: usize, end: usize, item: T) -> Spanning<T> {
    Spanning::start_end(&at(start), &at(end), item)
}

fn items(source: &str) -> Vec<Token> {
    tokenize(source).unwrap().into_iter().map(|t| t.item).collect()
}

fn single(source: &str) -> Token {
    let mut tokens = tokenize(source).unwrap();
    assert_eq!(tokens.len(), 2);
    assert_eq!(tokens[1].item, Token::EndOfFile);
    tokens.remove(0).item
}

fn failure(source: &str) -> Spanning<LexError> {
    tokenize(source).unwrap_err()
}

#[test]
fn empty_text_is_the_end_of_file() {
    assert_eq!(tokenize(""), Ok(vec![span(0, 0, Token::EndOfFile)]));
    assert_eq!(tokenize(" \t,\r,"), Ok(vec![span(5, 5, Token::EndOfFile)]));
}

#[test]
fn punctuators() {
    assert_eq!(
        items("! $ ( ) [ ] { } ... : = @ |"),
        vec![
            Token::ExclamationMark,
            Token::Dollar,
            Token::ParenOpen,
            Token::ParenClose,
            Token::BracketOpen,
            Token::BracketClose,
            Token::CurlyOpen,
            Token::CurlyClose,
            Token::Ellipsis,
            Token::Colon,
            Token::Equals,
            Token::At,
            Token::Pipe,
            Token::EndOfFile,
        ]
    );
}

#[test]
fn tokens_carry_their_places() {
    assert_eq!(
        tokenize("{ foo\n  ...bar }"),
        Ok(vec![
            span(0, 1, Token::CurlyOpen),
            span(2, 5, Token::Name("foo".to_string())),
            Spanning::start_end(
                &SourcePosition::new(8, 1, 2),
                &SourcePosition::new(11, 1, 5),
                Token::Ellipsis
            ),
            Spanning::start_end(
                &SourcePosition::new(11, 1, 5),
                &SourcePosition::new(14, 1, 8),
                Token::Name("bar".to_string())
            ),
            Spanning::start_end(
                &SourcePosition::new(15, 1, 9),
                &SourcePosition::new(16, 1, 10),
                Token::CurlyClose
            ),
            Spanning::start_end(
                &SourcePosition::new(16, 1, 10),
                &SourcePosition::new(16, 1, 10),
                Token::EndOfFile
            ),
        ])
    );
}

#[test]
fn index_counts_bytes_and_column_counts_characters() {
    let source = "\"\u{e9}\u{4e2d}\u{1F600}\" x";
    let tokens = tokenize(source).unwrap();
    assert_eq!(
        tokens[0],
        Spanning::start_end(
            &SourcePosition::new(0, 0, 0),
            &SourcePosition::new(11, 0, 5),
            Token::Scalar(Scalar::String("\u{e9}\u{4e2d}\u{1F600}".to_string()))
        )
    );
    assert_eq!(
        tokens[1],
        Spanning::start_end(
            &SourcePosition::new(12, 0, 6),
            &SourcePosition::new(13, 0, 7),
            Token::Name("x".to_string())
        )
    );
    assert_eq!(tokens[2].end.index(), source.len());
    assert_eq!(&source[tokens[1].start.index()..tokens[1].end.index()], "x");
}

#[test]
fn width_of_characters() {
    for c in ['\0', 'a', '\u{7f}', '\u{80}', '\u{7ff}', '\u{800}', '\u{d7ff}', '\u{e000}',
        '\u{ffff}', '\u{10000}', '\u{10ffff}']
    {
        assert_eq!(utf8_width(c), c.len_utf8());
    }
}

#[test]
fn advancing_a_position() {
    let mut p = SourcePosition::new_origin();
    assert_eq!(p, SourcePosition::new(0, 0, 0));
    p.advance('a');
    assert_eq!((p.index(), p.line(), p.column()), (1, 0, 1));
    p.advance('\u{e9}');
    assert_eq!((p.index(), p.line(), p.column()), (3, 0, 2));
    p.advance('\n');
    assert_eq!((p.index(), p.line(), p.column()), (4, 1, 0));
    p.advance('\r');
    assert_eq!((p.index(), p.line(), p.column()), (5, 1, 1));
    p.advance('\u{1F600}');
    assert_eq!((p.index(), p.line(), p.column()), (9, 1, 2));
}

#[test]
fn spanning_constructors() {
    let p = SourcePosition::new(3, 1, 2);
    let q = SourcePosition::new(7, 1, 6);
    let z = Spanning::zero_width(&p, 'x');
    assert_eq!((z.start, z.end, z.item), (p, p, 'x'));
    let s = Spanning::start_end(&p, &q, 'y');
    assert_eq!((s.start, s.end, s.item), (p, q, 'y'));
}

#[test]
fn comments_run_to_the_line_feed() {
    assert_eq!(
        tokenize("a # b \u{7} \r c\nd#e"),
        Ok(vec![
            span(0, 1, Token::Name("a".to_string())),
            Spanning::start_end(
                &SourcePosition::new(12, 1, 0),
                &SourcePosition::new(13, 1, 1),
                Token::Name("d".to_string())
            ),
            Spanning::start_end(
                &SourcePosition::new(15, 1, 3),
                &SourcePosition::new(15, 1, 3),
                Token::EndOfFile
            ),
        ])
    );
}

#[test]
fn byte_order_mark_is_skipped_at_the_start_only() {
    assert_eq!(
        tokenize("\u{feff}a"),
        Ok(vec![
            Spanning::start_end(
                &SourcePosition::new(3, 0, 1),
                &SourcePosition::new(4, 0, 2),
                Token::Name("a".to_string())
            ),
            Spanning::start_end(
                &SourcePosition::new(4, 0, 2),
                &SourcePosition::new(4, 0, 2),
                Token::EndOfFile
            ),
        ])
    );
    assert_eq!(
        failure("a \u{feff}"),
        span(2, 2, LexError::UnknownCharacter('\u{feff}'))
    );
}

#[test]
fn names_and_keywords() {
    assert_eq!(
        items("query _a9 on true Z_z null"),
        vec![
            Token::Name("query".to_string()),
            Token::Name("_a9".to_string()),
            Token::Name("on".to_string()),
            Token::Name("true".to_string()),
            Token::Name("Z_z".to_string()),
            Token::Name("null".to_string()),
            Token::EndOfFile,
        ]
    );
}

#[test]
fn integers() {
    assert_eq!(single("0"), Token::Scalar(Scalar::Int(0)));
    assert_eq!(single("-0"), Token::Scalar(Scalar::Int(0)));
    assert_eq!(single("4"), Token::Scalar(Scalar::Int(4)));
    assert_eq!(single("-4"), Token::Scalar(Scalar::Int(-4)));
    assert_eq!(single("1234567890"), Token::Scalar(Scalar::Int(1234567890)));
    assert_eq!(
        single("9223372036854775807"),
        Token::Scalar(Scalar::Int(i64::MAX))
    );
    assert_eq!(
        single("-9223372036854775808"),
        Token::Scalar(Scalar::Int(i64::MIN))
    );
    assert_eq!(
        single("-9223372036854775807"),
        Token::Scalar(Scalar::Int(-9223372036854775807))
    );
}

#[test]
fn integers_that_do_not_fit() {
    assert_eq!(failure("9223372036854775808"), span(0, 0, LexError::InvalidNumber));
    assert_eq!(failure("-9223372036854775809"), span(0, 0, LexError::InvalidNumber));
    assert_eq!(
        failure(" 123456789012345678901234567890"),
        span(1, 1, LexError::InvalidNumber)
    );
    assert_eq!(failure("18446744073709551616"), span(0, 0, LexError::InvalidNumber));
}

#[test]
fn floats_keep_their_text() {
    for (text, value) in [
        ("4.123", 4.123f64),
        ("-4.123", -4.123),
        ("0.123", 0.123),
        ("123e4", 123e4),
        ("123E4", 123e4),
        ("123e-4", 123e-4),
        ("123e+4", 123e4),
        ("-1.123e4", -1.123e4),
        ("-1.123E4", -1.123e4),
        ("-1.123e-4", -1.123e-4),
        ("-1.123e+4", -1.123e4),
        ("-1.123e45", -1.123e45),
        ("0e0", 0.0),
        ("-0.0", -0.0),
    ] {
        match single(text) {
            Token::Scalar(Scalar::Float(kept)) => {
                assert_eq!(kept, text);
                assert_eq!(kept.parse::<f64>().unwrap(), value);
            }
            other => panic!("no float: {:?}", other),
        }
    }
    assert_eq!(
        tokenize("[1.5,2]"),
        Ok(vec![
            span(0, 1, Token::BracketOpen),
            span(1, 4, Token::Scalar(Scalar::Float("1.5".to_string()))),
            span(5, 6, Token::Scalar(Scalar::Int(2))),
            span(6, 7, Token::BracketClose),
            span(7, 7, Token::EndOfFile),
        ])
    );
}

#[test]
fn malformed_numbers() {
    assert_eq!(failure("0123"), span(1, 1, LexError::InvalidNumber));
    assert_eq!(failure("00"), span(1, 1, LexError::InvalidNumber));
    assert_eq!(failure("-x"), span(1, 1, LexError::InvalidNumber));
    assert_eq!(failure("- 1"), span(1, 1, LexError::InvalidNumber));
    assert_eq!(failure("1."), span(2, 2, LexError::UnexpectedEndOfFile));
    assert_eq!(failure("1.A"), span(2, 2, LexError::InvalidNumber));
    assert_eq!(failure("1.e1"), span(2, 2, LexError::InvalidNumber));
    assert_eq!(failure("1e"), span(2, 2, LexError::UnexpectedEndOfFile));
    assert_eq!(failure("1e+"), span(3, 3, LexError::UnexpectedEndOfFile));
    assert_eq!(failure("1.0eA"), span(4, 4, LexError::InvalidNumber));
    assert_eq!(failure("1e-x"), span(3, 3, LexError::InvalidNumber));
    assert_eq!(failure("-"), span(1, 1, LexError::UnexpectedEndOfFile));
    assert_eq!(failure("123abc"), span(3, 3, LexError::InvalidNumber));
    assert_eq!(failure("0x1F"), span(1, 1, LexError::InvalidNumber));
    assert_eq!(failure("1.5_"), span(3, 3, LexError::InvalidNumber));
    assert_eq!(failure("1.2.3"), span(3, 3, LexError::UnknownCharacter('.')));
}

#[test]
fn strings() {
    assert_eq!(single("\"\""), Token::Scalar(Scalar::String("".to_string())));
    assert_eq!(
        tokenize("\"simple\""),
        Ok(vec![
            span(0, 8, Token::Scalar(Scalar::String("simple".to_string()))),
            span(8, 8, Token::EndOfFile),
        ])
    );
    assert_eq!(
        single("\" white space \""),
        Token::Scalar(Scalar::String(" white space ".to_string()))
    );
    assert_eq!(
        single("\"tab\there # no comment, no comma\""),
        Token::Scalar(Scalar::String("tab\there # no comment, no comma".to_string()))
    );
}

#[test]
fn escapes_in_strings() {
    assert_eq!(
        tokenize(r#""quote \"""#),
        Ok(vec![
            span(0, 10, Token::Scalar(Scalar::String("quote \"".to_string()))),
            span(10, 10, Token::EndOfFile),
        ])
    );
    assert_eq!(
        single(r#""escaped \n\r\b\t\f""#),
        Token::Scalar(Scalar::String("escaped \n\r\u{8}\t\u{c}".to_string()))
    );
    assert_eq!(
        single(r#""slashes \\ \/""#),
        Token::Scalar(Scalar::String("slashes \\ /".to_string()))
    );
    assert_eq!(
        tokenize(r#""unicode \u1234\u5678\u90AB\uCDEF""#),
        Ok(vec![
            span(
                0,
                34,
                Token::Scalar(Scalar::String("unicode \u{1234}\u{5678}\u{90ab}\u{cdef}".to_string()))
            ),
            span(34, 34, Token::EndOfFile),
        ])
    );
    assert_eq!(
        single(r#""\u0041\u00e9\uffff\ud7ff\ue000""#),
        Token::Scalar(Scalar::String("A\u{e9}\u{ffff}\u{d7ff}\u{e000}".to_string()))
    );
    assert_eq!(
        single(r#""\uabcd\uABCD""#),
        Token::Scalar(Scalar::String("\u{abcd}\u{abcd}".to_string()))
    );
}

#[test]
fn surrogate_pairs_combine() {
    assert_eq!(
        tokenize(r#""\uD83D\uDE00""#),
        Ok(vec![
            span(0, 14, Token::Scalar(Scalar::String("\u{1F600}".to_string()))),
            span(14, 14, Token::EndOfFile),
        ])
    );
    assert_eq!(
        single(r#""a\ud800\udc00b\uDBFF\uDFFFc""#),
        Token::Scalar(Scalar::String("a\u{10000}b\u{10FFFF}c".to_string()))
    );
    assert_eq!(
        failure(r#""\uD83D""#),
        span(2, 2, LexError::UnknownEscapeSequence("\\uD83D".to_string()))
    );
    assert_eq!(
        failure(r#""\uD83Dx""#),
        span(2, 2, LexError::UnknownEscapeSequence("\\uD83D".to_string()))
    );
    assert_eq!(
        failure(r#""\uD83D\n""#),
        span(2, 2, LexError::UnknownEscapeSequence("\\uD83D".to_string()))
    );
    assert_eq!(
        failure(r#""\uD83D\u0041""#),
        span(2, 2, LexError::UnknownEscapeSequence("\\uD83D".to_string()))
    );
    assert_eq!(
        failure(r#""\uD83D\uD83D""#),
        span(2, 2, LexError::UnknownEscapeSequence("\\uD83D".to_string()))
    );
    assert_eq!(
        failure(r#""\uDE00""#),
        span(2, 2, LexError::UnknownEscapeSequence("\\uDE00".to_string()))
    );
}

#[test]
fn malformed_strings() {
    assert_eq!(failure("\""), span(1, 1, LexError::UnterminatedString));
    assert_eq!(failure("\"no end quote"), span(13, 13, LexError::UnterminatedString));
    assert_eq!(failure("\"multi\nline\""), span(6, 6, LexError::UnterminatedString));
    assert_eq!(failure("\"multi\rline\""), span(6, 6, LexError::UnterminatedString));
    assert_eq!(failure("\"ends with \\"), span(12, 12, LexError::UnterminatedString));
    assert_eq!(
        failure("\"contains unescaped \u{7} control char\""),
        span(20, 20, LexError::UnknownCharacterInString('\u{7}'))
    );
    assert_eq!(
        failure("\"null-byte is not \u{0} end of file\""),
        span(18, 18, LexError::UnknownCharacterInString('\u{0}'))
    );
    assert_eq!(
        failure("\"bad \\z esc\""),
        span(6, 6, LexError::UnknownEscapeSequence("\\z".to_string()))
    );
    assert_eq!(
        failure("\"bad \\x15 esc\""),
        span(6, 6, LexError::UnknownEscapeSequence("\\x".to_string()))
    );
    assert_eq!(
        failure("\"bad \\u1 esc\""),
        span(6, 6, LexError::UnknownEscapeSequence("\\u1".to_string()))
    );
    assert_eq!(
        failure("\"bad \\u0XX1 esc\""),
        span(6, 6, LexError::UnknownEscapeSequence("\\u0XX1".to_string()))
    );
    assert_eq!(
        failure("\"bad \\uXXXX esc\""),
        span(6, 6, LexError::UnknownEscapeSequence("\\uXXXX".to_string()))
    );
    assert_eq!(
        failure("\"bad \\uFXXX esc\""),
        span(6, 6, LexError::UnknownEscapeSequence("\\uFXXX".to_string()))
    );
    assert_eq!(
        failure("\"bad \\uXXXF esc\""),
        span(6, 6, LexError::UnknownEscapeSequence("\\uXXXF".to_string()))
    );
    assert_eq!(
        failure("\"bad \\u\" esc"),
        span(6, 6, LexError::UnknownEscapeSequence("\\u".to_string()))
    );
    assert_eq!(failure("\"\\u12"), span(5, 5, LexError::UnterminatedString));
    assert_eq!(failure("\"\\u"), span(3, 3, LexError::UnterminatedString));
}

#[test]
fn three_quotes_are_an_empty_string_and_a_quote() {
    assert_eq!(failure("\"\"\"text"), span(7, 7, LexError::UnterminatedString));
    assert_eq!(
        tokenize("\"\"\"a\"\"\""),
        Ok(vec![
            span(0, 2, Token::Scalar(Scalar::String("".to_string()))),
            span(2, 5, Token::Scalar(Scalar::String("a".to_string()))),
            span(5, 7, Token::Scalar(Scalar::String("".to_string()))),
            span(7, 7, Token::EndOfFile),
        ])
    );
}

#[test]
fn dots_must_come_in_threes() {
    assert_eq!(failure("."), span(1, 1, LexError::UnexpectedEndOfFile));
    assert_eq!(failure(".."), span(2, 2, LexError::UnexpectedEndOfFile));
    assert_eq!(failure(".a"), span(0, 0, LexError::UnknownCharacter('.')));
    assert_eq!(failure("..a"), span(0, 0, LexError::UnknownCharacter('.')));
    assert_eq!(failure(" .. ."), span(1, 1, LexError::UnknownCharacter('.')));
    assert_eq!(failure("...."), span(4, 4, LexError::UnexpectedEndOfFile));
    assert_eq!(items("......"), vec![Token::Ellipsis, Token::Ellipsis, Token::EndOfFile]);
}

#[test]
fn unknown_characters() {
    assert_eq!(failure("?"), span(0, 0, LexError::UnknownCharacter('?')));
    assert_eq!(failure("a \u{e9}"), span(2, 2, LexError::UnknownCharacter('\u{e9}')));
    assert_eq!(failure("\u{203b}"), span(0, 0, LexError::UnknownCharacter('\u{203b}')));
    assert_eq!(failure("{ \u{c} }"), span(2, 2, LexError::UnknownCharacter('\u{c}')));
    assert_eq!(failure("a\n*"), Spanning::zero_width(
        &SourcePosition::new(2, 1, 0),
        LexError::UnknownCharacter('*')
    ));
}

#[test]
fn lexer_hands_out_tokens_one_by_one() {
    let mut lexer = Lexer::new("a 1 ?");
    assert_eq!(lexer.next_token(), Some(Ok(span(0, 1, Token::Name("a".to_string())))));
    assert_eq!(lexer.next_token(), Some(Ok(span(2, 3, Token::Scalar(Scalar::Int(1))))));
    assert_eq!(lexer.next_token(), Some(Err(span(4, 4, LexError::UnknownCharacter('?')))));
    assert_eq!(lexer.next_token(), None);
    let mut lexer = Lexer::new("a");
    assert_eq!(lexer.next_token(), Some(Ok(span(0, 1, Token::Name("a".to_string())))));
    assert_eq!(lexer.next_token(), Some(Ok(span(1, 1, Token::EndOfFile))));
    assert_eq!(lexer.next_token(), None);
    assert_eq!(lexer.next_token(), None);
}

#[test]
fn tokens_compare_and_copy() {
    let a = Token::Name("on".to_string());
    assert!(a.same(&a.clone()));
    assert!(a.is_name("on"));
    assert!(!a.is_name("off"));
    assert!(!a.same(&Token::Name("off".to_string())));
    assert!(!Token::Colon.is_name("on"));
    assert!(Token::Colon.same(&Token::Colon));
    assert!(!Token::Colon.same(&Token::Equals));
    let s = Token::Scalar(Scalar::String("x".to_string()));
    assert_eq!(s.clone(), s);
    assert!(s.same(&Token::Scalar(Scalar::String("x".to_string()))));
    assert!(!s.same(&Token::Scalar(Scalar::Float("x".to_string()))));
    assert!(Scalar::Int(3).same(&Scalar::Int(3)));
    assert!(!Scalar::Int(3).same(&Scalar::Int(4)));
    assert_eq!(Scalar::Float("1.5".to_string()).clone(), Scalar::Float("1.5".to_string()));
}

#[test]
fn reading_all_keeps_the_tokens_before_a_failure() {
    let mut lexer = Lexer::new("a 1 ? b");
    let (tokens, failure) = lexer.read_all();
    assert_eq!(
        tokens,
        vec![
            span(0, 1, Token::Name("a".to_string())),
            span(2, 3, Token::Scalar(Scalar::Int(1))),
        ]
    );
    assert_eq!(failure, Some(span(4, 4, LexError::UnknownCharacter('?'))));
    assert_eq!(lexer.next_token(), None);

    let mut lexer = Lexer::new("a 1");
    let (tokens, failure) = lexer.read_all();
    assert_eq!(tokens.len(), 3);
    assert_eq!(tokens[2], span(3, 3, Token::EndOfFile));
    assert_eq!(failure, None);

    let mut lexer = Lexer::new("?");
    assert_eq!(lexer.read_all(), (vec![], Some(span(0, 0, LexError::UnknownCharacter('?')))));

    let mut lexer = Lexer::new("a ?");
    assert_eq!(lexer.tokens(), Err(span(2, 2, LexError::UnknownCharacter('?'))));
    let mut lexer = Lexer::new("a");
    assert_eq!(lexer.tokens().map(|t| t.len()), Ok(2));
}
